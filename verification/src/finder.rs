//! The pairwise finders.
//!
//! Four unit types cover the two span directions over the two element kinds:
//! [`StringPrefix`] and [`StringSuffix`] for UTF-8 text, [`GenericPrefix`] and
//! [`GenericSuffix`] for sequences of arbitrary comparable elements.  Each
//! implements [`SpanModel`] — tying its executable comparison to the
//! mathematical pair operation — and one of the two executable traits
//! [`Finder`] and [`RawFinder`], the atomic combining step the reduction
//! engine folds over a collection.
//!
//! Text spans route the raw byte count from the byte-span comparator through
//! the character-boundary correction, so a returned text span is itself valid
//! UTF-8.  Generic element spans are found by a paired equality scan.

use crate::bytes::{common_prefix_bytes, common_suffix_bytes};
use crate::spans::{back, lcp_len, lcs_len, lemma_lcp_len, lemma_lcp_len_unique, lemma_lcs_len,
    lemma_lcs_len_unique, lemma_prefix_laws, lemma_raw_prefix_pair_ok, lemma_raw_suffix_pair_ok,
    lemma_suffix_laws, raw_prefix_pair, raw_suffix_pair, SpanModel};
use crate::text::{ceil_boundary, floor_boundary, lemma_ceil_boundary, lemma_floor_boundary,
    lemma_text_prefix_pair_ok, lemma_text_suffix_pair_ok, prefix_boundary, suffix_boundary,
    text_prefix_pair, text_suffix_pair};
use vstd::laws_eq::obeys_concrete_eq;
use vstd::prelude::*;
use vstd::seq_lib::*;
use vstd::slice::slice_subrange;
use vstd::string::*;
use vstd::utf8::*;

verus! {

/// The atomic combining operation over two strings: the longest common text
/// span, `None` when there is none.  The result is a slice of the left
/// operand.
pub trait Finder: SpanModel<u8> {
    /// The encoded contents of any string are admissible span contents.
    proof fn lemma_admissible_bytes(s: Seq<char>)
        ensures
            Self::admissible(encode_utf8(s)),
    ;

    /// Returns the longest common span of `a` and `b`, borrowed from `a`, or
    /// `None` when only the empty span is shared.
    fn common<'a>(a: &'a str, b: &str) -> (r: Option<&'a str>)
        ensures
            match r {
                None => Self::pair(a.spec_bytes(), b.spec_bytes()) is None,
                Some(c) => Self::pair(a.spec_bytes(), b.spec_bytes()) == Some(c.spec_bytes()),
            },
    ;
}

/// The atomic combining operation over two sequences of comparable elements:
/// the longest common span, `None` when there is none.  The result is a slice
/// of the left operand.
pub trait RawFinder<T: Eq>: SpanModel<T> {
    /// Raw spans put no condition on their contents.
    proof fn lemma_admissible_any(q: Seq<T>)
        ensures
            Self::admissible(q),
    ;

    /// Returns the longest common span of `a` and `b`, borrowed from `a`, or
    /// `None` when only the empty span is shared.
    fn common<'a>(a: &'a [T], b: &[T]) -> (r: Option<&'a [T]>)
        requires
            obeys_concrete_eq::<T>(),
        ensures
            match r {
                None => Self::pair(a@, b@) is None,
                Some(c) => Self::pair(a@, b@) == Some(c@),
            },
    ;
}

/// Finds the longest common prefix of two strings, corrected to a character
/// boundary.
pub struct StringPrefix;

/// Finds the longest common suffix of two strings, corrected to a character
/// boundary.
pub struct StringSuffix;

/// Finds the longest common prefix of two element sequences.
pub struct GenericPrefix;

/// Finds the longest common suffix of two element sequences.
pub struct GenericSuffix;

impl SpanModel<u8> for StringPrefix {
    open spec fn admissible(q: Seq<u8>) -> bool {
        valid_utf8(q)
    }

    open spec fn span_of(q: Seq<u8>, s: Seq<u8>) -> bool {
        q.is_prefix_of(s)
    }

    open spec fn pair(a: Seq<u8>, b: Seq<u8>) -> Option<Seq<u8>> {
        text_prefix_pair(a, b)
    }

    proof fn lemma_span_laws(q: Seq<u8>, p: Seq<u8>, s: Seq<u8>) {
        lemma_prefix_laws(q, p, s);
    }

    proof fn lemma_pair_charac(a: Seq<u8>, b: Seq<u8>) {
        lemma_text_prefix_pair_ok(a, b);
    }
}

impl SpanModel<u8> for StringSuffix {
    open spec fn admissible(q: Seq<u8>) -> bool {
        valid_utf8(q)
    }

    open spec fn span_of(q: Seq<u8>, s: Seq<u8>) -> bool {
        q.is_suffix_of(s)
    }

    open spec fn pair(a: Seq<u8>, b: Seq<u8>) -> Option<Seq<u8>> {
        text_suffix_pair(a, b)
    }

    proof fn lemma_span_laws(q: Seq<u8>, p: Seq<u8>, s: Seq<u8>) {
        lemma_suffix_laws(q, p, s);
    }

    proof fn lemma_pair_charac(a: Seq<u8>, b: Seq<u8>) {
        lemma_text_suffix_pair_ok(a, b);
    }
}

impl<T> SpanModel<T> for GenericPrefix {
    open spec fn admissible(q: Seq<T>) -> bool {
        true
    }

    open spec fn span_of(q: Seq<T>, s: Seq<T>) -> bool {
        q.is_prefix_of(s)
    }

    open spec fn pair(a: Seq<T>, b: Seq<T>) -> Option<Seq<T>> {
        raw_prefix_pair(a, b)
    }

    proof fn lemma_span_laws(q: Seq<T>, p: Seq<T>, s: Seq<T>) {
        lemma_prefix_laws(q, p, s);
    }

    proof fn lemma_pair_charac(a: Seq<T>, b: Seq<T>) {
        lemma_raw_prefix_pair_ok(a, b);
    }
}

impl<T> SpanModel<T> for GenericSuffix {
    open spec fn admissible(q: Seq<T>) -> bool {
        true
    }

    open spec fn span_of(q: Seq<T>, s: Seq<T>) -> bool {
        q.is_suffix_of(s)
    }

    open spec fn pair(a: Seq<T>, b: Seq<T>) -> Option<Seq<T>> {
        raw_suffix_pair(a, b)
    }

    proof fn lemma_span_laws(q: Seq<T>, p: Seq<T>, s: Seq<T>) {
        lemma_suffix_laws(q, p, s);
    }

    proof fn lemma_pair_charac(a: Seq<T>, b: Seq<T>) {
        lemma_raw_suffix_pair_ok(a, b);
    }
}

impl Finder for StringPrefix {
    proof fn lemma_admissible_bytes(s: Seq<char>) {
        encode_utf8_valid_utf8(s);
    }

    fn common<'a>(a: &'a str, b: &str) -> (r: Option<&'a str>) {
        let raw = common_prefix_bytes(a.as_bytes(), b.as_bytes());
        proof {
            lemma_lcp_len(a.spec_bytes(), b.spec_bytes());
        }
        let end = prefix_boundary(a, raw);
        if end != 0 {
            proof {
                encode_utf8_valid_utf8(a@);
                lemma_floor_boundary(a.spec_bytes(), raw as int);
            }
            let (c, _) = a.split_at(end);
            proof {
                assert(c.spec_bytes() == a.spec_bytes().take(end as int));
            }
            Some(c)
        } else {
            None
        }
    }
}

impl Finder for StringSuffix {
    proof fn lemma_admissible_bytes(s: Seq<char>) {
        encode_utf8_valid_utf8(s);
    }

    fn common<'a>(a: &'a str, b: &str) -> (r: Option<&'a str>) {
        let raw = common_suffix_bytes(a.as_bytes(), b.as_bytes());
        let alen = a.as_bytes().len();
        proof {
            lemma_lcs_len(a.spec_bytes(), b.spec_bytes());
        }
        let begin = suffix_boundary(a, alen - raw);
        proof {
            encode_utf8_valid_utf8(a@);
            lemma_ceil_boundary(a.spec_bytes(), alen - raw);
        }
        if begin != alen {
            let (_, c) = a.split_at(begin);
            proof {
                assert(c.spec_bytes() == a.spec_bytes().skip(begin as int));
            }
            Some(c)
        } else {
            None
        }
    }
}

impl<T: Eq> RawFinder<T> for GenericPrefix {
    proof fn lemma_admissible_any(q: Seq<T>) {
    }

    fn common<'a>(a: &'a [T], b: &[T]) -> (r: Option<&'a [T]>) {
        let alen = a.len();
        let blen = b.len();
        let min = if alen < blen {
            alen
        } else {
            blen
        };
        let mut i: usize = 0;
        while i < min && vstd::slice::slice_index_get(a, i) == vstd::slice::slice_index_get(b, i)
            invariant
                i <= min,
                min <= a@.len() && min <= b@.len(),
                min == a@.len() || min == b@.len(),
                obeys_concrete_eq::<T>(),
                forall|t: int| 0 <= t < i ==> a@[t] == b@[t],
            decreases min - i,
        {
            proof {
                reveal(vstd::laws_eq::obeys_concrete_eq);
            }
            i = i + 1;
        }
        proof {
            reveal(vstd::laws_eq::obeys_concrete_eq);
            lemma_lcp_len_unique(a@, b@, i as nat);
        }
        if i != 0 {
            let c = slice_subrange(a, 0, i);
            Some(c)
        } else {
            None
        }
    }
}

impl<T: Eq> RawFinder<T> for GenericSuffix {
    proof fn lemma_admissible_any(q: Seq<T>) {
    }

    fn common<'a>(a: &'a [T], b: &[T]) -> (r: Option<&'a [T]>) {
        let alen = a.len();
        let blen = b.len();
        let min = if alen < blen {
            alen
        } else {
            blen
        };
        let mut i: usize = 0;
        while i < min && vstd::slice::slice_index_get(a, alen - 1 - i) == vstd::slice::slice_index_get(
            b,
            blen - 1 - i,
        )
            invariant
                i <= min,
                alen == a@.len() && blen == b@.len(),
                min <= alen && min <= blen,
                min == alen || min == blen,
                obeys_concrete_eq::<T>(),
                forall|t: int| 0 <= t < i ==> #[trigger] back(a@, t) == back(b@, t),
            decreases min - i,
        {
            proof {
                reveal(vstd::laws_eq::obeys_concrete_eq);
                assert(back(a@, i as int) == back(b@, i as int));
            }
            i = i + 1;
        }
        proof {
            reveal(vstd::laws_eq::obeys_concrete_eq);
            if i < min {
                assert(back(a@, i as int) != back(b@, i as int));
            }
            lemma_lcs_len_unique(a@, b@, i as nat);
        }
        if i != 0 {
            let c = slice_subrange(a, alen - i, alen);
            proof {
                assert(c@ == a@.skip(a@.len() - i));
            }
            Some(c)
        } else {
            None
        }
    }
}

} // verus!
