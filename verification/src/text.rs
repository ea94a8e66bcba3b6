//! Character-boundary correction for text spans.
//!
//! A byte-level comparison of two UTF-8 strings may stop inside a multi-byte
//! character encoding.  A text span must never split an encoding unit, so the
//! raw byte count is walked to the nearest character boundary: downwards for a
//! prefix, upwards for a suffix.  This module defines that correction both as
//! a specification ([`floor_boundary`], [`ceil_boundary`]) and as executable
//! code, and proves the central fact the maximality arguments rest on: a
//! prefix (or suffix) of a valid UTF-8 sequence is itself valid UTF-8 exactly
//! when it ends (or starts) on a character boundary.

use crate::spans::{back, lcp_len, lcs_len, lemma_lcp_len, lemma_lcp_len_is_max, lemma_lcs_len,
    lemma_lcs_len_is_max};
use vstd::prelude::*;
use vstd::seq_lib::*;
use vstd::string::*;
use vstd::utf8::*;

verus! {

/// The nearest character boundary at or below `i`.
pub open spec fn floor_boundary(s: Seq<u8>, i: int) -> int
    recommends
        valid_utf8(s),
        0 <= i <= s.len(),
    decreases i,
{
    if i <= 0 {
        0
    } else if is_char_boundary(s, i) {
        i
    } else {
        floor_boundary(s, i - 1)
    }
}

/// The nearest character boundary at or above `i`.
pub open spec fn ceil_boundary(s: Seq<u8>, i: int) -> int
    recommends
        valid_utf8(s),
        0 <= i <= s.len(),
    decreases s.len() - i,
{
    if i >= s.len() {
        s.len() as int
    } else if is_char_boundary(s, i) {
        i
    } else {
        ceil_boundary(s, i + 1)
    }
}

/// `floor_boundary` lands on a boundary, and on the greatest one at or
/// below `i`.
pub proof fn lemma_floor_boundary(s: Seq<u8>, i: int)
    requires
        valid_utf8(s),
        0 <= i <= s.len(),
    ensures
        0 <= floor_boundary(s, i) <= i,
        is_char_boundary(s, floor_boundary(s, i)),
        forall|j: int| floor_boundary(s, i) < j <= i ==> !#[trigger] is_char_boundary(s, j),
    decreases i,
{
    if i > 0 && !is_char_boundary(s, i) {
        lemma_floor_boundary(s, i - 1);
    }
}

/// `ceil_boundary` lands on a boundary, and on the least one at or above `i`.
pub proof fn lemma_ceil_boundary(s: Seq<u8>, i: int)
    requires
        valid_utf8(s),
        0 <= i <= s.len(),
    ensures
        i <= ceil_boundary(s, i) <= s.len(),
        is_char_boundary(s, ceil_boundary(s, i)),
        forall|j: int| i <= j < ceil_boundary(s, i) ==> !#[trigger] is_char_boundary(s, j),
    decreases s.len() - i,
{
    if i >= s.len() {
        is_char_boundary_start_end_of_seq(s);
    } else if !is_char_boundary(s, i) {
        lemma_ceil_boundary(s, i + 1);
    }
}

/// A valid-UTF-8 prefix of a valid UTF-8 sequence ends on a character
/// boundary.
pub proof fn lemma_valid_prefix_is_boundary(s: Seq<u8>, n: int)
    requires
        valid_utf8(s),
        0 <= n <= s.len(),
        valid_utf8(s.take(n)),
    ensures
        is_char_boundary(s, n),
    decreases s.len(),
{
    if n > 0 {
        let p = s.take(n);
        assert(valid_first_scalar(p));
        assert(valid_first_scalar(s));
        assert(p[0] == s[0]);
        let w = length_of_first_scalar(s);
        assert(length_of_first_scalar(p) == w);
        assert(1 <= w <= n);
        let ps = pop_first_scalar(s);
        let pp = pop_first_scalar(p);
        assert(valid_utf8(ps));
        assert(valid_utf8(pp));
        assert(pp =~= ps.take(n - w));
        lemma_valid_prefix_is_boundary(ps, n - w);
    }
}

/// A valid-UTF-8 suffix of a valid UTF-8 sequence starts on a character
/// boundary.
pub proof fn lemma_valid_suffix_is_boundary(s: Seq<u8>, n: int)
    requires
        valid_utf8(s),
        0 <= n <= s.len(),
        valid_utf8(s.skip(n)),
    ensures
        is_char_boundary(s, n),
{
    if n == s.len() {
        is_char_boundary_start_end_of_seq(s);
    } else {
        let q = s.skip(n);
        assert(valid_first_scalar(q));
        assert(q[0] == s[n]);
        assert(!is_continuation_byte(s[n]));
        is_char_boundary_iff_not_is_continuation_byte(s, n);
    }
}

/// The longest common prefix of two UTF-8 byte sequences that ends on a
/// character boundary of `a`, or `None` when it is empty.
pub open spec fn text_prefix_pair(a: Seq<u8>, b: Seq<u8>) -> Option<Seq<u8>> {
    let k = floor_boundary(a, lcp_len(a, b) as int);
    if k == 0 {
        None
    } else {
        Some(a.take(k))
    }
}

/// The longest common suffix of two UTF-8 byte sequences that starts on a
/// character boundary of `a`, or `None` when it is empty.
pub open spec fn text_suffix_pair(a: Seq<u8>, b: Seq<u8>) -> Option<Seq<u8>> {
    let k = ceil_boundary(a, a.len() - lcs_len(a, b));
    if k == a.len() {
        None
    } else {
        Some(a.skip(k))
    }
}

/// `text_prefix_pair` is exactly the longest valid-UTF-8 common prefix of its
/// arguments.
pub proof fn lemma_text_prefix_pair_ok(a: Seq<u8>, b: Seq<u8>)
    requires
        valid_utf8(a),
        valid_utf8(b),
    ensures
        match text_prefix_pair(a, b) {
            None => forall|q: Seq<u8>|
                valid_utf8(q) && #[trigger] q.is_prefix_of(a) && q.is_prefix_of(b) ==> q.len()
                    == 0,
            Some(c) => {
                &&& c.len() > 0
                &&& valid_utf8(c)
                &&& c.is_prefix_of(a)
                &&& c.is_prefix_of(b)
                &&& forall|q: Seq<u8>|
                    valid_utf8(q) && #[trigger] q.is_prefix_of(a) && q.is_prefix_of(b) ==> q.len()
                        <= c.len()
            },
        },
{
    let n = lcp_len(a, b) as int;
    let k = floor_boundary(a, n);
    lemma_lcp_len(a, b);
    lemma_floor_boundary(a, n);
    assert forall|q: Seq<u8>|
        valid_utf8(q) && #[trigger] q.is_prefix_of(a) && q.is_prefix_of(b) implies q.len()
        <= k by {
        assert forall|i: int| 0 <= i < q.len() implies a[i] == b[i] by {
            assert(q[i] == a.subrange(0, q.len() as int)[i]);
            assert(q[i] == b.subrange(0, q.len() as int)[i]);
        }
        lemma_lcp_len_is_max(a, b, q.len());
        assert(q =~= a.take(q.len() as int));
        lemma_valid_prefix_is_boundary(a, q.len() as int);
    }
    if k != 0 {
        let c = a.take(k);
        valid_utf8_split(a, k);
        assert(valid_utf8(a.subrange(0, k)));
        assert(c =~= a.subrange(0, k));
        assert(c.is_prefix_of(a));
        assert(c =~= b.subrange(0, k));
    }
}

/// `text_suffix_pair` is exactly the longest valid-UTF-8 common suffix of its
/// arguments.
pub proof fn lemma_text_suffix_pair_ok(a: Seq<u8>, b: Seq<u8>)
    requires
        valid_utf8(a),
        valid_utf8(b),
    ensures
        match text_suffix_pair(a, b) {
            None => forall|q: Seq<u8>|
                valid_utf8(q) && #[trigger] q.is_suffix_of(a) && q.is_suffix_of(b) ==> q.len()
                    == 0,
            Some(c) => {
                &&& c.len() > 0
                &&& valid_utf8(c)
                &&& c.is_suffix_of(a)
                &&& c.is_suffix_of(b)
                &&& forall|q: Seq<u8>|
                    valid_utf8(q) && #[trigger] q.is_suffix_of(a) && q.is_suffix_of(b) ==> q.len()
                        <= c.len()
            },
        },
{
    let n = lcs_len(a, b) as int;
    let m = a.len() - n;
    let k = ceil_boundary(a, m);
    lemma_lcs_len(a, b);
    lemma_ceil_boundary(a, m);
    assert forall|q: Seq<u8>|
        valid_utf8(q) && #[trigger] q.is_suffix_of(a) && q.is_suffix_of(b) implies q.len() <= a.len()
        - k by {
        assert forall|i: int| 0 <= i < q.len() implies #[trigger] back(a, i) == back(b, i) by {
            assert(q[q.len() - 1 - i] == a.subrange(a.len() - q.len(), a.len() as int)[q.len() - 1
                - i]);
            assert(q[q.len() - 1 - i] == b.subrange(b.len() - q.len(), b.len() as int)[q.len() - 1
                - i]);
        }
        lemma_lcs_len_is_max(a, b, q.len());
        assert(q =~= a.skip(a.len() - q.len()));
        lemma_valid_suffix_is_boundary(a, a.len() - q.len());
        assert(is_char_boundary(a, a.len() - q.len()));
        assert(a.len() - q.len() >= k);
    }
    if k != a.len() {
        let c = a.skip(k);
        valid_utf8_split(a, k);
        assert(valid_utf8(a.subrange(k, a.len() as int)));
        assert(c =~= a.subrange(k, a.len() as int));
        assert(c.is_suffix_of(a));
        assert(c =~= b.subrange(b.len() - c.len(), b.len() as int)) by {
            assert forall|i: int| 0 <= i < c.len() implies c[i] == b.subrange(
                b.len() - c.len(),
                b.len() as int,
            )[i] by {
                assert(back(a, a.len() - 1 - k - i) == back(b, a.len() - 1 - k - i));
            }
        }
    }
}

/// Walks a byte offset downwards to the nearest character boundary of `s`;
/// the result bounds a text prefix that never splits an encoding unit.
pub fn prefix_boundary(s: &str, end: usize) -> (r: usize)
    requires
        end <= s.spec_bytes().len(),
    ensures
        r == floor_boundary(s.spec_bytes(), end as int),
{
    proof {
        encode_utf8_valid_utf8(s@);
    }
    let mut r = end;
    while !s.is_char_boundary(r)
        invariant
            0 <= r <= end,
            end <= s.spec_bytes().len(),
            valid_utf8(s.spec_bytes()),
            floor_boundary(s.spec_bytes(), r as int) == floor_boundary(
                s.spec_bytes(),
                end as int,
            ),
        decreases r,
    {
        assert(r != 0);
        r = r - 1;
    }
    r
}

/// Walks a byte offset upwards to the nearest character boundary of `s`;
/// the result bounds a text suffix that never splits an encoding unit.
pub fn suffix_boundary(s: &str, begin: usize) -> (r: usize)
    requires
        begin <= s.spec_bytes().len(),
    ensures
        r == ceil_boundary(s.spec_bytes(), begin as int),
{
    proof {
        encode_utf8_valid_utf8(s@);
    }
    let n = s.as_bytes().len();
    let mut r = begin;
    while !s.is_char_boundary(r)
        invariant
            begin <= r <= n,
            n == s.spec_bytes().len(),
            valid_utf8(s.spec_bytes()),
            ceil_boundary(s.spec_bytes(), r as int) == ceil_boundary(
                s.spec_bytes(),
                begin as int,
            ),
        decreases n - r,
    {
        proof {
            is_char_boundary_start_end_of_seq(s.spec_bytes());
        }
        assert(r != n);
        r = r + 1;
    }
    r
}

} // verus!
