//! The byte-span comparator.
//!
//! Counts how many bytes two buffers share at their start or at their end.
//! The compared region is walked in fixed-width chunks first — the shape that
//! lets a compiler turn the inner comparison into one wide vector operation —
//! and the remainder byte by byte.  Both functions are total: a pair with no
//! overlap simply yields zero.

use crate::spans::{back, lcp_len, lcs_len, lemma_lcp_len_unique, lemma_lcs_len_unique};
use vstd::prelude::*;

verus! {

/// Width of the block compared in one step, sized to fill a 128-bit vector
/// register.
pub const CHUNK_SIZE: usize = 16;

/// Whether the `CHUNK_SIZE` bytes of `a` and `b` starting at `i` are all
/// equal.
fn chunk_eq_at(a: &[u8], b: &[u8], i: usize) -> (r: bool)
    requires
        i + CHUNK_SIZE <= a@.len(),
        i + CHUNK_SIZE <= b@.len(),
    ensures
        r <==> forall|t: int| i <= t < i + CHUNK_SIZE ==> a@[t] == b@[t],
{
    let alen = a.len();
    let mut j: usize = 0;
    while j < CHUNK_SIZE
        invariant
            j <= CHUNK_SIZE,
            i + CHUNK_SIZE <= alen == a@.len(),
            i + CHUNK_SIZE <= b@.len(),
            forall|t: int| i <= t < i + j ==> a@[t] == b@[t],
        decreases CHUNK_SIZE - j,
    {
        if a[i + j] != b[i + j] {
            return false;
        }
        j = j + 1;
    }
    true
}

/// Whether the `CHUNK_SIZE` bytes of `a` and `b` that end `i` bytes before
/// their respective ends are all equal.
fn chunk_eq_back(a: &[u8], b: &[u8], i: usize) -> (r: bool)
    requires
        i + CHUNK_SIZE <= a@.len(),
        i + CHUNK_SIZE <= b@.len(),
    ensures
        r <==> forall|t: int| i <= t < i + CHUNK_SIZE ==> #[trigger] back(a@, t) == back(b@, t),
{
    let alen = a.len();
    let blen = b.len();
    let mut j: usize = 0;
    while j < CHUNK_SIZE
        invariant
            j <= CHUNK_SIZE,
            i + CHUNK_SIZE <= alen == a@.len(),
            i + CHUNK_SIZE <= blen == b@.len(),
            forall|t: int| i <= t < i + j ==> #[trigger] back(a@, t) == back(b@, t),
        decreases CHUNK_SIZE - j,
    {
        if a[alen - 1 - (i + j)] != b[blen - 1 - (i + j)] {
            assert(back(a@, i + j) != back(b@, i + j));
            return false;
        }
        assert(back(a@, i + j) == back(b@, i + j));
        j = j + 1;
    }
    true
}

/// Number of equal leading bytes of `a` and `b`: full chunks first, then a
/// byte-by-byte tail.
pub fn common_prefix_bytes(a: &[u8], b: &[u8]) -> (n: usize)
    ensures
        n == lcp_len(a@, b@),
{
    let alen = a.len();
    let blen = b.len();
    let min = if alen < blen {
        alen
    } else {
        blen
    };
    let mut i: usize = 0;
    loop
        invariant
            i <= min,
            min <= a@.len() && min <= b@.len(),
            min == a@.len() || min == b@.len(),
            forall|t: int| 0 <= t < i ==> a@[t] == b@[t],
        ensures
            i <= min,
            forall|t: int| 0 <= t < i ==> a@[t] == b@[t],
        decreases min - i,
    {
        if min - i < CHUNK_SIZE {
            break;
        }
        if !chunk_eq_at(a, b, i) {
            break;
        }
        i = i + CHUNK_SIZE;
    }
    while i < min && a[i] == b[i]
        invariant
            i <= min,
            min <= a@.len() && min <= b@.len(),
            min == a@.len() || min == b@.len(),
            forall|t: int| 0 <= t < i ==> a@[t] == b@[t],
        decreases min - i,
    {
        i = i + 1;
    }
    proof {
        lemma_lcp_len_unique(a@, b@, i as nat);
    }
    i
}

/// Number of equal trailing bytes of `a` and `b`: full chunks first, then a
/// byte-by-byte tail, both walked from the back.
pub fn common_suffix_bytes(a: &[u8], b: &[u8]) -> (n: usize)
    ensures
        n == lcs_len(a@, b@),
{
    let alen = a.len();
    let blen = b.len();
    let min = if alen < blen {
        alen
    } else {
        blen
    };
    let mut i: usize = 0;
    loop
        invariant
            i <= min,
            alen == a@.len() && blen == b@.len(),
            min <= alen && min <= blen,
            min == alen || min == blen,
            forall|t: int| 0 <= t < i ==> #[trigger] back(a@, t) == back(b@, t),
        ensures
            i <= min,
            alen == a@.len() && blen == b@.len(),
            forall|t: int| 0 <= t < i ==> #[trigger] back(a@, t) == back(b@, t),
        decreases min - i,
    {
        if min - i < CHUNK_SIZE {
            break;
        }
        if !chunk_eq_back(a, b, i) {
            break;
        }
        i = i + CHUNK_SIZE;
    }
    while i < min && a[alen - 1 - i] == b[blen - 1 - i]
        invariant
            i <= min,
            alen == a@.len() && blen == b@.len(),
            min <= alen && min <= blen,
            min == alen || min == blen,
            forall|t: int| 0 <= t < i ==> #[trigger] back(a@, t) == back(b@, t),
        decreases min - i,
    {
        assert(back(a@, i as int) == back(b@, i as int));
        i = i + 1;
    }
    proof {
        lemma_lcs_len_unique(a@, b@, i as nat);
    }
    i
}

} // verus!
