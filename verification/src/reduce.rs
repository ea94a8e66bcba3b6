//! The reduction engine.
//!
//! Folds a pairwise finder over an entire collection.  Small collections are
//! folded sequentially, short-circuiting as soon as the running result
//! becomes "no common span" — an absorbing state.  Large collections are
//! split at their midpoint and the halves reduced as independent fork-join
//! tasks on a worker pool, their results combined with one more pairwise
//! step.  The split is sound because combining the halves' results gives the
//! whole collection's result, in whatever order the halves were solved.

use crate::finder::{Finder, RawFinder};
use crate::spans::{all_admissible, lemma_span_all_append, lemma_span_all_none_absorbs, span_all};
use vstd::laws_eq::obeys_concrete_eq;
use vstd::prelude::*;
use vstd::seq_lib::*;
use vstd::string::*;
use vstd::utf8::*;

verus! {

/// Largest collection still folded on one thread.  Above it, the reduction
/// forks, so that task-spawn overhead is amortised over enough elements.
pub const PAR_THRESHOLD: usize = 4096;

/// The byte contents of a collection of strings.
pub open spec fn string_bytes(elems: Seq<String>) -> Seq<Seq<u8>> {
    elems.map_values(|s: String| encode_utf8(s@))
}

/// The element contents of a collection of vectors.
pub open spec fn vec_views<T>(elems: Seq<Vec<T>>) -> Seq<Seq<T>> {
    elems.map_values(|v: Vec<T>| v@)
}

/// Whether a string reduction result carries exactly the collection-wide
/// common span.
pub open spec fn text_result_matches<F: Finder>(elems: Seq<String>, r: Option<&str>) -> bool {
    match r {
        None => span_all::<u8, F>(string_bytes(elems)) is None,
        Some(c) => span_all::<u8, F>(string_bytes(elems)) == Some(c.spec_bytes()),
    }
}

/// Whether a raw reduction result carries exactly the collection-wide common
/// span.
pub open spec fn raw_result_matches<T: Eq, F: RawFinder<T>>(
    elems: Seq<Vec<T>>,
    r: Option<&[T]>,
) -> bool {
    match r {
        None => span_all::<T, F>(vec_views(elems)) is None,
        Some(c) => span_all::<T, F>(vec_views(elems)) == Some(c@),
    }
}

/// A string's UTF-8 encoding is empty exactly when the string has no
/// characters.
proof fn lemma_encode_utf8_empty(s: Seq<char>)
    ensures
        encode_utf8(s).len() == 0 <==> s.len() == 0,
{
    if s.len() != 0 {
        assert(encode_utf8(s).len() >= encode_scalar(s[0] as u32).len());
    }
}

/// Sequential fold over the collection, short-circuiting once the running
/// span is gone.
fn reduce_sequential<'a, F: Finder>(slice: &'a [String]) -> (r: Option<&'a str>)
    requires
        slice@.len() > 0,
    ensures
        text_result_matches::<F>(slice@, r),
{
    let first = vstd::slice::slice_index_get(slice, 0).as_str();
    let mut acc: Option<&str> = if first.is_empty() {
        None
    } else {
        Some(first)
    };
    proof {
        lemma_encode_utf8_empty(slice@[0]@);
        assert(string_bytes(slice@.take(1)) =~= string_bytes(slice@).take(1));
    }
    let mut i: usize = 1;
    while i < slice.len() && acc.is_some()
        invariant
            1 <= i <= slice@.len(),
            text_result_matches::<F>(slice@.take(i as int), acc),
        decreases slice@.len() - i,
    {
        let cur = vstd::slice::slice_index_get(slice, i).as_str();
        let prev = match acc {
            Some(p) => p,
            None => cur,
        };
        let next = F::common(prev, cur);
        proof {
            assert(string_bytes(slice@.take(i + 1)).drop_last() =~= string_bytes(
                slice@.take(i as int),
            ));
            assert(string_bytes(slice@.take(i + 1)).last() == encode_utf8(slice@[i as int]@));
            assert(cur.spec_bytes() == encode_utf8(slice@[i as int]@));
        }
        acc = next;
        i = i + 1;
    }
    proof {
        if i < slice@.len() {
            assert(string_bytes(slice@).take(i as int) =~= string_bytes(slice@.take(i as int)));
            lemma_span_all_none_absorbs::<u8, F>(string_bytes(slice@), i as int);
        } else {
            assert(slice@.take(i as int) =~= slice@);
        }
    }
    acc
}

/// Relies on rayon::join: it runs the two closures, possibly in parallel on
/// the process-wide worker pool, and returns the pair of their results.  Each
/// closure only calls the verified `reduce_recursive`, whose postcondition
/// this contract restates for its half.
#[verifier::external_body]
fn join_common<'a, F: Finder>(left: &'a [String], right: &'a [String]) -> (r: (
    Option<&'a str>,
    Option<&'a str>,
))
    requires
        left@.len() > 0,
        right@.len() > 0,
    ensures
        text_result_matches::<F>(left@, r.0),
        text_result_matches::<F>(right@, r.1),
{
    rayon::join(|| reduce_recursive::<F>(left), || reduce_recursive::<F>(right))
}

/// Divide-and-conquer reduction: fold small collections sequentially, fork
/// larger ones at the midpoint and combine the halves' results with one more
/// pairwise step.
fn reduce_recursive<'a, F: Finder>(slice: &'a [String]) -> (r: Option<&'a str>)
    requires
        slice@.len() > 0,
    ensures
        text_result_matches::<F>(slice@, r),
{
    if slice.len() <= PAR_THRESHOLD {
        return reduce_sequential::<F>(slice);
    }
    let mid = slice.len() / 2;
    let (left, right) = slice.split_at(mid);
    let (rl, rr) = join_common::<F>(left, right);
    let r = match (rl, rr) {
        (Some(l), Some(g)) => F::common(l, g),
        _ => None,
    };
    proof {
        assert forall|i: int|
            0 <= i < string_bytes(slice@).len() implies F::admissible(
            #[trigger] string_bytes(slice@)[i],
        ) by {
            F::lemma_admissible_bytes(slice@[i]@);
        }
        assert(all_admissible::<u8, F>(string_bytes(left@) + string_bytes(right@))) by {
            assert(string_bytes(left@) + string_bytes(right@) =~= string_bytes(slice@));
        }
        lemma_span_all_append::<u8, F>(string_bytes(left@), string_bytes(right@));
        assert(string_bytes(left@) + string_bytes(right@) =~= string_bytes(slice@));
    }
    r
}

/// The collection-wide common span of a collection of strings: `None` for an
/// empty collection, a single element's whole content, and otherwise the fold
/// of the pairwise finder, computed in parallel for large collections.
pub fn find_common<'a, F: Finder>(collection: &'a [String]) -> (r: Option<&'a str>)
    ensures
        text_result_matches::<F>(collection@, r),
        collection@.len() == 0 ==> r is None,
{
    if collection.is_empty() {
        None
    } else {
        reduce_recursive::<F>(collection)
    }
}

/// Sequential fold over a collection of element vectors, short-circuiting
/// once the running span is gone.
fn reduce_sequential_raw<'a, T: Eq, F: RawFinder<T>>(slice: &'a [Vec<T>]) -> (r: Option<&'a [T]>)
    requires
        slice@.len() > 0,
        obeys_concrete_eq::<T>(),
    ensures
        raw_result_matches::<T, F>(slice@, r),
{
    let first = vstd::slice::slice_index_get(slice, 0).as_slice();
    let mut acc: Option<&[T]> = if first.is_empty() {
        None
    } else {
        Some(first)
    };
    proof {
        assert(vec_views(slice@.take(1)) =~= vec_views(slice@).take(1));
    }
    let mut i: usize = 1;
    while i < slice.len() && acc.is_some()
        invariant
            1 <= i <= slice@.len(),
            obeys_concrete_eq::<T>(),
            raw_result_matches::<T, F>(slice@.take(i as int), acc),
        decreases slice@.len() - i,
    {
        let cur = vstd::slice::slice_index_get(slice, i).as_slice();
        let prev = match acc {
            Some(p) => p,
            None => cur,
        };
        let next = F::common(prev, cur);
        proof {
            assert(vec_views(slice@.take(i + 1)).drop_last() =~= vec_views(slice@.take(i as int)));
            assert(vec_views(slice@.take(i + 1)).last() == slice@[i as int]@);
        }
        acc = next;
        i = i + 1;
    }
    proof {
        if i < slice@.len() {
            assert(vec_views(slice@).take(i as int) =~= vec_views(slice@.take(i as int)));
            lemma_span_all_none_absorbs::<T, F>(vec_views(slice@), i as int);
        } else {
            assert(slice@.take(i as int) =~= slice@);
        }
    }
    acc
}

/// Relies on rayon::join: it runs the two closures, possibly in parallel on
/// the process-wide worker pool, and returns the pair of their results.  Each
/// closure only calls the verified `reduce_recursive_raw`, whose
/// postcondition this contract restates for its half.
#[verifier::external_body]
fn join_common_raw<'a, T: Eq + Sync, F: RawFinder<T>>(left: &'a [Vec<T>], right: &'a [Vec<T>]) -> (r: (
    Option<&'a [T]>,
    Option<&'a [T]>,
))
    requires
        left@.len() > 0,
        right@.len() > 0,
        obeys_concrete_eq::<T>(),
    ensures
        (raw_result_matches::<T, F>(left@, r.0)),
        (raw_result_matches::<T, F>(right@, r.1)),
{
    rayon::join(|| reduce_recursive_raw::<T, F>(left), || reduce_recursive_raw::<T, F>(right))
}

/// Divide-and-conquer reduction over element vectors.
fn reduce_recursive_raw<'a, T: Eq + Sync, F: RawFinder<T>>(slice: &'a [Vec<T>]) -> (r: Option<
    &'a [T],
>)
    requires
        slice@.len() > 0,
        obeys_concrete_eq::<T>(),
    ensures
        raw_result_matches::<T, F>(slice@, r),
{
    if slice.len() <= PAR_THRESHOLD {
        return reduce_sequential_raw::<T, F>(slice);
    }
    let mid = slice.len() / 2;
    let (left, right) = slice.split_at(mid);
    let (rl, rr) = join_common_raw::<T, F>(left, right);
    let r = match (rl, rr) {
        (Some(l), Some(g)) => F::common(l, g),
        _ => None,
    };
    proof {
        assert forall|i: int|
            0 <= i < vec_views(slice@).len() implies F::admissible(
            #[trigger] vec_views(slice@)[i],
        ) by {
            F::lemma_admissible_any(slice@[i]@);
        }
        assert(all_admissible::<T, F>(vec_views(left@) + vec_views(right@))) by {
            assert(vec_views(left@) + vec_views(right@) =~= vec_views(slice@));
        }
        lemma_span_all_append::<T, F>(vec_views(left@), vec_views(right@));
        assert(vec_views(left@) + vec_views(right@) =~= vec_views(slice@));
    }
    r
}

/// The collection-wide common span of a collection of element vectors:
/// `None` for an empty collection, a single element's whole content, and
/// otherwise the fold of the pairwise finder, computed in parallel for large
/// collections.
pub fn find_common_raw<'a, T: Eq + Sync, F: RawFinder<T>>(collection: &'a [Vec<T>]) -> (r: Option<
    &'a [T],
>)
    requires
        obeys_concrete_eq::<T>(),
    ensures
        raw_result_matches::<T, F>(collection@, r),
        collection@.len() == 0 ==> r is None,
{
    if collection.is_empty() {
        None
    } else {
        reduce_recursive_raw::<T, F>(collection)
    }
}

} // verus!
