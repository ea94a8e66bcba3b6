//! Longest common prefix and suffix of collections, verified.
//!
//! The crate finds the longest prefix or suffix shared by *every* element of
//! a collection — of strings, or of sequences of arbitrary comparable
//! elements — and proves the answer correct.  Byte buffers are compared in
//! register-wide chunks, text results are corrected to character boundaries
//! so they never split a multi-byte encoding unit, and large collections are
//! reduced by parallel divide-and-conquer on a worker pool.
//!
//! The contract of every public operation is stated against one spec-level
//! fold, [`spans::span_all`], which the lemmas in [`spans`] and [`laws`]
//! characterise as the longest admissible common span of the collection — a
//! description independent of evaluation and combination order.
//!
//! A zero-length match is never a span: every operation answers `None` for
//! it, as it does for an empty collection.

pub mod bytes;
pub mod finder;
pub mod laws;
pub mod reduce;
pub mod spans;
pub mod text;

use crate::finder::{Finder, GenericPrefix, GenericSuffix, StringPrefix, StringSuffix};
use crate::reduce::{find_common, find_common_raw, string_bytes, vec_views};
use crate::spans::{all_admissible, lemma_span_all_ok, span_all, SpanModel};
use vstd::laws_eq::obeys_concrete_eq;
use vstd::prelude::*;
use vstd::slice::slice_to_vec;
use vstd::string::*;
use vstd::utf8::encode_utf8;

verus! {

/// Returns a borrowed view of the longest common prefix of all strings in
/// the collection, or `None` when there is none.
pub fn common_prefix_ref<'a>(collection: &'a [String]) -> (r: Option<&'a str>)
    ensures
        match r {
            None => (span_all::<u8, StringPrefix>(string_bytes(collection@)) is None),
            Some(c) => (span_all::<u8, StringPrefix>(string_bytes(collection@)) == Some(
                c.spec_bytes(),
            )),
        },
        collection@.len() == 0 ==> r is None,
{
    find_common::<StringPrefix>(collection)
}

/// Returns a borrowed view of the longest common suffix of all strings in
/// the collection, or `None` when there is none.
pub fn common_suffix_ref<'a>(collection: &'a [String]) -> (r: Option<&'a str>)
    ensures
        match r {
            None => (span_all::<u8, StringSuffix>(string_bytes(collection@)) is None),
            Some(c) => (span_all::<u8, StringSuffix>(string_bytes(collection@)) == Some(
                c.spec_bytes(),
            )),
        },
        collection@.len() == 0 ==> r is None,
{
    find_common::<StringSuffix>(collection)
}

/// Returns an owned copy of the longest common prefix of all strings in the
/// collection, or `None` when there is none.
pub fn common_prefix(collection: &[String]) -> (r: Option<String>)
    ensures
        match r {
            None => (span_all::<u8, StringPrefix>(string_bytes(collection@)) is None),
            Some(p) => (span_all::<u8, StringPrefix>(string_bytes(collection@)) == Some(
                encode_utf8(p@),
            )),
        },
        collection@.len() == 0 ==> r is None,
{
    match common_prefix_ref(collection) {
        Some(c) => Some(c.to_owned()),
        None => None,
    }
}

/// Returns an owned copy of the longest common suffix of all strings in the
/// collection, or `None` when there is none.
pub fn common_suffix(collection: &[String]) -> (r: Option<String>)
    ensures
        match r {
            None => (span_all::<u8, StringSuffix>(string_bytes(collection@)) is None),
            Some(p) => (span_all::<u8, StringSuffix>(string_bytes(collection@)) == Some(
                encode_utf8(p@),
            )),
        },
        collection@.len() == 0 ==> r is None,
{
    match common_suffix_ref(collection) {
        Some(c) => Some(c.to_owned()),
        None => None,
    }
}

/// Returns the byte length of the longest common prefix of all strings in
/// the collection; `None` — never `Some(0)` — when there is none.
pub fn common_prefix_len(collection: &[String]) -> (r: Option<usize>)
    ensures
        match r {
            None => (span_all::<u8, StringPrefix>(string_bytes(collection@)) is None),
            Some(n) => (span_all::<u8, StringPrefix>(string_bytes(collection@)) matches Some(p)
                && n == p.len() && n > 0),
        },
{
    match common_prefix_ref(collection) {
        Some(c) => {
            proof {
                assert forall|i: int|
                    0 <= i < string_bytes(collection@).len() implies StringPrefix::admissible(
                    #[trigger] string_bytes(collection@)[i],
                ) by {
                    StringPrefix::lemma_admissible_bytes(collection@[i]@);
                }
                lemma_span_all_ok::<u8, StringPrefix>(string_bytes(collection@));
            }
            Some(c.as_bytes().len())
        },
        None => None,
    }
}

/// Returns the byte length of the longest common suffix of all strings in
/// the collection; `None` — never `Some(0)` — when there is none.
pub fn common_suffix_len(collection: &[String]) -> (r: Option<usize>)
    ensures
        match r {
            None => (span_all::<u8, StringSuffix>(string_bytes(collection@)) is None),
            Some(n) => (span_all::<u8, StringSuffix>(string_bytes(collection@)) matches Some(p)
                && n == p.len() && n > 0),
        },
{
    match common_suffix_ref(collection) {
        Some(c) => {
            proof {
                assert forall|i: int|
                    0 <= i < string_bytes(collection@).len() implies StringSuffix::admissible(
                    #[trigger] string_bytes(collection@)[i],
                ) by {
                    StringSuffix::lemma_admissible_bytes(collection@[i]@);
                }
                lemma_span_all_ok::<u8, StringSuffix>(string_bytes(collection@));
            }
            Some(c.as_bytes().len())
        },
        None => None,
    }
}

/// Returns a borrowed view of the longest common prefix of all element
/// sequences in the collection, or `None` when there is none.
pub fn common_prefix_raw_ref<'a, T: Eq + Sync>(collection: &'a [Vec<T>]) -> (r: Option<&'a [T]>)
    requires
        obeys_concrete_eq::<T>(),
    ensures
        match r {
            None => (span_all::<T, GenericPrefix>(vec_views(collection@)) is None),
            Some(c) => (span_all::<T, GenericPrefix>(vec_views(collection@)) == Some(c@)),
        },
        collection@.len() == 0 ==> r is None,
{
    find_common_raw::<T, GenericPrefix>(collection)
}

/// Returns a borrowed view of the longest common suffix of all element
/// sequences in the collection, or `None` when there is none.
pub fn common_suffix_raw_ref<'a, T: Eq + Sync>(collection: &'a [Vec<T>]) -> (r: Option<&'a [T]>)
    requires
        obeys_concrete_eq::<T>(),
    ensures
        match r {
            None => (span_all::<T, GenericSuffix>(vec_views(collection@)) is None),
            Some(c) => (span_all::<T, GenericSuffix>(vec_views(collection@)) == Some(c@)),
        },
        collection@.len() == 0 ==> r is None,
{
    find_common_raw::<T, GenericSuffix>(collection)
}

/// Returns an owned copy of the longest common prefix of all element
/// sequences in the collection, or `None` when there is none.
pub fn common_prefix_raw<T: Eq + Sync + Copy>(collection: &[Vec<T>]) -> (r: Option<Vec<T>>)
    requires
        obeys_concrete_eq::<T>(),
    ensures
        match r {
            None => (span_all::<T, GenericPrefix>(vec_views(collection@)) is None),
            Some(v) => (span_all::<T, GenericPrefix>(vec_views(collection@)) == Some(v@)),
        },
        collection@.len() == 0 ==> r is None,
{
    match common_prefix_raw_ref(collection) {
        Some(c) => Some(slice_to_vec(c)),
        None => None,
    }
}

/// Returns an owned copy of the longest common suffix of all element
/// sequences in the collection, or `None` when there is none.
pub fn common_suffix_raw<T: Eq + Sync + Copy>(collection: &[Vec<T>]) -> (r: Option<Vec<T>>)
    requires
        obeys_concrete_eq::<T>(),
    ensures
        match r {
            None => (span_all::<T, GenericSuffix>(vec_views(collection@)) is None),
            Some(v) => (span_all::<T, GenericSuffix>(vec_views(collection@)) == Some(v@)),
        },
        collection@.len() == 0 ==> r is None,
{
    match common_suffix_raw_ref(collection) {
        Some(c) => Some(slice_to_vec(c)),
        None => None,
    }
}

/// Returns the length of the longest common prefix of all element sequences
/// in the collection; `None` — never `Some(0)` — when there is none.
pub fn common_prefix_raw_len<T: Eq + Sync>(collection: &[Vec<T>]) -> (r: Option<usize>)
    requires
        obeys_concrete_eq::<T>(),
    ensures
        match r {
            None => (span_all::<T, GenericPrefix>(vec_views(collection@)) is None),
            Some(n) => (span_all::<T, GenericPrefix>(vec_views(collection@)) matches Some(p)
                && n == p.len() && n > 0),
        },
{
    match common_prefix_raw_ref(collection) {
        Some(c) => {
            proof {
                assert(all_admissible::<T, GenericPrefix>(vec_views(collection@)));
                lemma_span_all_ok::<T, GenericPrefix>(vec_views(collection@));
            }
            Some(c.len())
        },
        None => None,
    }
}

/// Returns the length of the longest common suffix of all element sequences
/// in the collection; `None` — never `Some(0)` — when there is none.
pub fn common_suffix_raw_len<T: Eq + Sync>(collection: &[Vec<T>]) -> (r: Option<usize>)
    requires
        obeys_concrete_eq::<T>(),
    ensures
        match r {
            None => (span_all::<T, GenericSuffix>(vec_views(collection@)) is None),
            Some(n) => (span_all::<T, GenericSuffix>(vec_views(collection@)) matches Some(p)
                && n == p.len() && n > 0),
        },
{
    match common_suffix_raw_ref(collection) {
        Some(c) => {
            proof {
                assert(all_admissible::<T, GenericSuffix>(vec_views(collection@)));
                lemma_span_all_ok::<T, GenericSuffix>(vec_views(collection@));
            }
            Some(c.len())
        },
        None => None,
    }
}

} // verus!
