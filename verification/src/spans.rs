//! The mathematical model of common spans.
//!
//! A *span* of a sequence is a contiguous run at one of its ends: a prefix or
//! a suffix.  The whole crate computes, for a collection of sequences, the
//! longest span that every member shares.  This module fixes that notion once,
//! abstractly: [`SpanModel`] packages the span relation, the admissibility
//! condition a candidate span must meet (text spans must be valid UTF-8, raw
//! spans are unrestricted), and the pairwise combining operation, together with
//! the laws the reduction proofs rely on.  The collection-wide answer is the
//! fold [`span_all`], and the lemmas below characterise it in an order-free
//! way: it is exactly the longest admissible span common to every element.

use vstd::prelude::*;
use vstd::seq_lib::*;

verus! {

/// Number of equal elements at the start of `a` and `b` before the first
/// mismatch.
pub open spec fn lcp_len<T>(a: Seq<T>, b: Seq<T>) -> nat
    decreases a.len(),
{
    if a.len() == 0 || b.len() == 0 {
        0
    } else if a[0] == b[0] {
        1 + lcp_len(a.drop_first(), b.drop_first())
    } else {
        0
    }
}

/// The element `i` places before the end of `s`.
pub open spec fn back<T>(s: Seq<T>, i: int) -> T
    recommends
        0 <= i < s.len(),
{
    s[s.len() - 1 - i]
}

/// Number of equal elements at the end of `a` and `b` before the first
/// mismatch, counting from the back.
pub open spec fn lcs_len<T>(a: Seq<T>, b: Seq<T>) -> nat
    decreases a.len(),
{
    if a.len() == 0 || b.len() == 0 {
        0
    } else if a.last() == b.last() {
        1 + lcs_len(a.drop_last(), b.drop_last())
    } else {
        0
    }
}

/// `lcp_len` is within both lengths, the compared runs agree, and the first
/// elements past the run (when both exist) differ.
pub proof fn lemma_lcp_len<T>(a: Seq<T>, b: Seq<T>)
    ensures
        lcp_len(a, b) <= a.len(),
        lcp_len(a, b) <= b.len(),
        forall|i: int| 0 <= i < lcp_len(a, b) ==> a[i] == b[i],
        lcp_len(a, b) < a.len() && lcp_len(a, b) < b.len() ==> a[lcp_len(a, b) as int]
            != b[lcp_len(a, b) as int],
    decreases a.len(),
{
    if a.len() == 0 || b.len() == 0 {
    } else if a[0] == b[0] {
        lemma_lcp_len(a.drop_first(), b.drop_first());
        assert forall|i: int| 0 <= i < lcp_len(a, b) implies a[i] == b[i] by {
            if i > 0 {
                assert(a.drop_first()[i - 1] == b.drop_first()[i - 1]);
            }
        }
    }
}

/// Any length up to which `a` and `b` agree pointwise is at most `lcp_len`.
pub proof fn lemma_lcp_len_is_max<T>(a: Seq<T>, b: Seq<T>, n: nat)
    requires
        n <= a.len(),
        n <= b.len(),
        forall|i: int| 0 <= i < n ==> a[i] == b[i],
    ensures
        n <= lcp_len(a, b),
    decreases a.len(),
{
    if n > 0 {
        assert(a[0] == b[0]);
        assert(forall|i: int|
            0 <= i < n - 1 ==> a.drop_first()[i] == #[trigger] b.drop_first()[i]);
        lemma_lcp_len_is_max(a.drop_first(), b.drop_first(), (n - 1) as nat);
    }
}

/// `lcs_len` is within both lengths, the compared tail runs agree, and the
/// elements just before the runs (when both exist) differ.
pub proof fn lemma_lcs_len<T>(a: Seq<T>, b: Seq<T>)
    ensures
        lcs_len(a, b) <= a.len(),
        lcs_len(a, b) <= b.len(),
        forall|i: int| 0 <= i < lcs_len(a, b) ==> #[trigger] back(a, i) == back(b, i),
        lcs_len(a, b) < a.len() && lcs_len(a, b) < b.len() ==> back(a, lcs_len(a, b) as int)
            != back(b, lcs_len(a, b) as int),
    decreases a.len(),
{
    if a.len() == 0 || b.len() == 0 {
    } else if a.last() == b.last() {
        lemma_lcs_len(a.drop_last(), b.drop_last());
        assert forall|i: int| 0 <= i < lcs_len(a, b) implies #[trigger] back(a, i) == back(
            b,
            i,
        ) by {
            if i > 0 {
                assert(back(a.drop_last(), i - 1) == back(b.drop_last(), i - 1));
            }
        }
    }
}

/// Any length up to which the tails of `a` and `b` agree is at most `lcs_len`.
pub proof fn lemma_lcs_len_is_max<T>(a: Seq<T>, b: Seq<T>, n: nat)
    requires
        n <= a.len(),
        n <= b.len(),
        forall|i: int| 0 <= i < n ==> #[trigger] back(a, i) == back(b, i),
    ensures
        n <= lcs_len(a, b),
    decreases a.len(),
{
    if n > 0 {
        assert(back(a, 0) == back(b, 0));
        assert forall|i: int| 0 <= i < n - 1 implies #[trigger] back(a.drop_last(), i) == back(
            b.drop_last(),
            i,
        ) by {
            assert(back(a, i + 1) == back(b, i + 1));
        }
        lemma_lcs_len_is_max(a.drop_last(), b.drop_last(), (n - 1) as nat);
    }
}

/// A scan that stopped at the first mismatch (or at the end of the shorter
/// sequence) has found exactly `lcp_len`.
pub proof fn lemma_lcp_len_unique<T>(a: Seq<T>, b: Seq<T>, n: nat)
    requires
        n <= a.len(),
        n <= b.len(),
        forall|i: int| 0 <= i < n ==> a[i] == b[i],
        n == a.len() || n == b.len() || a[n as int] != b[n as int],
    ensures
        n == lcp_len(a, b),
{
    lemma_lcp_len_is_max(a, b, n);
    lemma_lcp_len(a, b);
}

/// A backwards scan that stopped at the first mismatch (or at the end of the
/// shorter sequence) has found exactly `lcs_len`.
pub proof fn lemma_lcs_len_unique<T>(a: Seq<T>, b: Seq<T>, n: nat)
    requires
        n <= a.len(),
        n <= b.len(),
        forall|i: int| 0 <= i < n ==> #[trigger] back(a, i) == back(b, i),
        n == a.len() || n == b.len() || back(a, n as int) != back(b, n as int),
    ensures
        n == lcs_len(a, b),
{
    lemma_lcs_len_is_max(a, b, n);
    lemma_lcs_len(a, b);
}

/// The longest common prefix of two raw element sequences, or `None` when
/// they disagree at once.
pub open spec fn raw_prefix_pair<T>(a: Seq<T>, b: Seq<T>) -> Option<Seq<T>> {
    if lcp_len(a, b) == 0 {
        None
    } else {
        Some(a.take(lcp_len(a, b) as int))
    }
}

/// The longest common suffix of two raw element sequences, or `None` when
/// they disagree at once.
pub open spec fn raw_suffix_pair<T>(a: Seq<T>, b: Seq<T>) -> Option<Seq<T>> {
    if lcs_len(a, b) == 0 {
        None
    } else {
        Some(a.skip(a.len() - lcs_len(a, b)))
    }
}

/// The prefix relation obeys the span laws.
pub proof fn lemma_prefix_laws<T>(q: Seq<T>, p: Seq<T>, s: Seq<T>)
    ensures
        s.is_prefix_of(s),
        q.is_prefix_of(s) ==> q.len() <= s.len(),
        q.is_prefix_of(p) && p.is_prefix_of(s) ==> q.is_prefix_of(s),
        q.is_prefix_of(s) && p.is_prefix_of(s) && q.len() <= p.len() ==> q.is_prefix_of(p),
        q.is_prefix_of(s) && q.len() == s.len() ==> q == s,
{
    assert(s =~= s.subrange(0, s.len() as int));
    if q.is_prefix_of(p) && p.is_prefix_of(s) {
        assert(q =~= s.subrange(0, q.len() as int));
    }
    if q.is_prefix_of(s) && p.is_prefix_of(s) && q.len() <= p.len() {
        assert(q =~= p.subrange(0, q.len() as int));
    }
    if q.is_prefix_of(s) && q.len() == s.len() {
        assert(q =~= s);
    }
}

/// The suffix relation obeys the span laws.
pub proof fn lemma_suffix_laws<T>(q: Seq<T>, p: Seq<T>, s: Seq<T>)
    ensures
        s.is_suffix_of(s),
        q.is_suffix_of(s) ==> q.len() <= s.len(),
        q.is_suffix_of(p) && p.is_suffix_of(s) ==> q.is_suffix_of(s),
        q.is_suffix_of(s) && p.is_suffix_of(s) && q.len() <= p.len() ==> q.is_suffix_of(p),
        q.is_suffix_of(s) && q.len() == s.len() ==> q == s,
{
    assert(s =~= s.subrange(0, s.len() as int));
    if q.is_suffix_of(p) && p.is_suffix_of(s) {
        assert(q =~= s.subrange(s.len() - q.len(), s.len() as int));
    }
    if q.is_suffix_of(s) && p.is_suffix_of(s) && q.len() <= p.len() {
        assert(q =~= p.subrange(p.len() - q.len(), p.len() as int));
    }
    if q.is_suffix_of(s) && q.len() == s.len() {
        assert(q =~= s);
    }
}

/// `raw_prefix_pair` is exactly the longest common prefix of its arguments.
pub proof fn lemma_raw_prefix_pair_ok<T>(a: Seq<T>, b: Seq<T>)
    ensures
        match raw_prefix_pair(a, b) {
            None => forall|q: Seq<T>|
                #[trigger] q.is_prefix_of(a) && q.is_prefix_of(b) ==> q.len() == 0,
            Some(c) => {
                &&& c.len() > 0
                &&& c.is_prefix_of(a)
                &&& c.is_prefix_of(b)
                &&& forall|q: Seq<T>|
                    #[trigger] q.is_prefix_of(a) && q.is_prefix_of(b) ==> q.len() <= c.len()
            },
        },
{
    let n = lcp_len(a, b);
    lemma_lcp_len(a, b);
    assert forall|q: Seq<T>| #[trigger] q.is_prefix_of(a) && q.is_prefix_of(b) implies q.len()
        <= n by {
        assert forall|i: int| 0 <= i < q.len() implies a[i] == b[i] by {
            assert(q[i] == a.subrange(0, q.len() as int)[i]);
            assert(q[i] == b.subrange(0, q.len() as int)[i]);
        }
        lemma_lcp_len_is_max(a, b, q.len());
    }
    if n != 0 {
        let c = a.take(n as int);
        assert(c.is_prefix_of(a));
        assert(c =~= b.subrange(0, n as int));
    }
}

/// `raw_suffix_pair` is exactly the longest common suffix of its arguments.
pub proof fn lemma_raw_suffix_pair_ok<T>(a: Seq<T>, b: Seq<T>)
    ensures
        match raw_suffix_pair(a, b) {
            None => forall|q: Seq<T>|
                #[trigger] q.is_suffix_of(a) && q.is_suffix_of(b) ==> q.len() == 0,
            Some(c) => {
                &&& c.len() > 0
                &&& c.is_suffix_of(a)
                &&& c.is_suffix_of(b)
                &&& forall|q: Seq<T>|
                    #[trigger] q.is_suffix_of(a) && q.is_suffix_of(b) ==> q.len() <= c.len()
            },
        },
{
    let n = lcs_len(a, b);
    lemma_lcs_len(a, b);
    assert forall|q: Seq<T>| #[trigger] q.is_suffix_of(a) && q.is_suffix_of(b) implies q.len()
        <= n by {
        assert forall|i: int| 0 <= i < q.len() implies #[trigger] back(a, i) == back(b, i) by {
            assert(q[q.len() - 1 - i] == a.subrange(a.len() - q.len(), a.len() as int)[q.len() - 1
                - i]);
            assert(q[q.len() - 1 - i] == b.subrange(b.len() - q.len(), b.len() as int)[q.len() - 1
                - i]);
        }
        lemma_lcs_len_is_max(a, b, q.len());
    }
    if n != 0 {
        let c = a.skip(a.len() - n);
        assert(c.is_suffix_of(a));
        assert(c =~= b.subrange(b.len() - n, b.len() as int)) by {
            assert forall|i: int| 0 <= i < n implies c[i] == b.subrange(
                b.len() - n,
                b.len() as int,
            )[i] by {
                assert(back(a, n - 1 - i) == back(b, n - 1 - i));
            }
        }
    }
}

/// The abstract interface shared by the four pairwise finders: a span
/// relation (prefix-of or suffix-of), an admissibility condition on span
/// contents, and the pairwise combining operation, with the laws that make
/// collection-wide reduction correct in any combination order.
pub trait SpanModel<E> {
    /// Whether a candidate span content is acceptable as a result (for text
    /// spans: valid UTF-8; for raw element spans: always).
    spec fn admissible(q: Seq<E>) -> bool;

    /// Whether `q` occurs as a span of `s` (at the modelled end).
    spec fn span_of(q: Seq<E>, s: Seq<E>) -> bool;

    /// The longest admissible common span of exactly two sequences, or `None`
    /// when only the empty span is shared.
    spec fn pair(a: Seq<E>, b: Seq<E>) -> Option<Seq<E>>;

    /// Structural laws of the span relation: reflexivity, length bound,
    /// transitivity, comparability of two spans of one sequence, and
    /// antisymmetry at equal length.
    proof fn lemma_span_laws(q: Seq<E>, p: Seq<E>, s: Seq<E>)
        ensures
            Self::span_of(s, s),
            Self::span_of(q, s) ==> q.len() <= s.len(),
            Self::span_of(q, p) && Self::span_of(p, s) ==> Self::span_of(q, s),
            Self::span_of(q, s) && Self::span_of(p, s) && q.len() <= p.len() ==> Self::span_of(
                q,
                p,
            ),
            Self::span_of(q, s) && q.len() == s.len() ==> q == s,
    ;

    /// `pair` returns exactly the longest admissible span common to both
    /// arguments, and `None` exactly when no non-empty one exists.
    proof fn lemma_pair_charac(a: Seq<E>, b: Seq<E>)
        requires
            Self::admissible(a),
            Self::admissible(b),
        ensures
            match Self::pair(a, b) {
                None => forall|q: Seq<E>|
                    Self::admissible(q) && #[trigger] Self::span_of(q, a) && Self::span_of(q, b)
                        ==> q.len() == 0,
                Some(c) => {
                    &&& c.len() > 0
                    &&& Self::admissible(c)
                    &&& Self::span_of(c, a)
                    &&& Self::span_of(c, b)
                    &&& forall|q: Seq<E>|
                        Self::admissible(q) && #[trigger] Self::span_of(q, a) && Self::span_of(
                            q,
                            b,
                        ) ==> q.len() <= c.len()
                },
            },
    ;
}

/// The collection-wide common span: a left-to-right fold of `M::pair`, with
/// the conventions that an empty collection has no span and a singleton
/// contributes its whole content (when non-empty).
pub open spec fn span_all<E, M: SpanModel<E>>(elems: Seq<Seq<E>>) -> Option<Seq<E>>
    decreases elems.len(),
{
    if elems.len() == 0 {
        None
    } else if elems.len() == 1 {
        if elems[0].len() == 0 {
            None
        } else {
            Some(elems[0])
        }
    } else {
        match span_all::<E, M>(elems.drop_last()) {
            None => None,
            Some(p) => M::pair(p, elems.last()),
        }
    }
}

/// Combination of two partial reduction results.
pub open spec fn combine<E, M: SpanModel<E>>(r1: Option<Seq<E>>, r2: Option<Seq<E>>) -> Option<
    Seq<E>,
> {
    match (r1, r2) {
        (Some(a), Some(b)) => M::pair(a, b),
        _ => None,
    }
}

/// `q` is an admissible span shared by every element of the collection.
pub open spec fn is_common_span<E, M: SpanModel<E>>(q: Seq<E>, elems: Seq<Seq<E>>) -> bool {
    M::admissible(q) && forall|i: int| 0 <= i < elems.len() ==> M::span_of(q, #[trigger] elems[i])
}

/// Order-free characterisation of a reduction result for a non-empty
/// collection: `None` iff only the empty span is common, otherwise the
/// longest admissible common span.
pub open spec fn span_result_ok<E, M: SpanModel<E>>(elems: Seq<Seq<E>>, r: Option<Seq<E>>) -> bool {
    match r {
        None => forall|q: Seq<E>| #[trigger] is_common_span::<E, M>(q, elems) ==> q.len() == 0,
        Some(p) => {
            &&& p.len() > 0
            &&& is_common_span::<E, M>(p, elems)
            &&& forall|q: Seq<E>| #[trigger] is_common_span::<E, M>(q, elems) ==> q.len() <= p.len()
        },
    }
}

/// Every element of the collection is admissible as a span content (for text:
/// every element is valid UTF-8).
pub open spec fn all_admissible<E, M: SpanModel<E>>(elems: Seq<Seq<E>>) -> bool {
    forall|i: int| 0 <= i < elems.len() ==> M::admissible(#[trigger] elems[i])
}

/// The fold meets the order-free characterisation.
pub proof fn lemma_span_all_ok<E, M: SpanModel<E>>(elems: Seq<Seq<E>>)
    requires
        elems.len() > 0,
        all_admissible::<E, M>(elems),
    ensures
        span_result_ok::<E, M>(elems, span_all::<E, M>(elems)),
    decreases elems.len(),
{
    if elems.len() == 1 {
        if elems[0].len() == 0 {
            assert forall|q: Seq<E>| #[trigger] is_common_span::<E, M>(q, elems) implies q.len()
                == 0 by {
                M::lemma_span_laws(q, q, elems[0]);
            }
        } else {
            let p = elems[0];
            M::lemma_span_laws(p, p, p);
            assert(is_common_span::<E, M>(p, elems));
            assert forall|q: Seq<E>| #[trigger] is_common_span::<E, M>(q, elems) implies q.len()
                <= p.len() by {
                M::lemma_span_laws(q, q, elems[0]);
            }
        }
    } else {
        let rest = elems.drop_last();
        let l = elems.last();
        assert(all_admissible::<E, M>(rest));
        lemma_span_all_ok::<E, M>(rest);
        assert forall|q: Seq<E>| #[trigger] is_common_span::<E, M>(q, elems) implies is_common_span::<
            E,
            M,
        >(q, rest) && M::span_of(q, l) by {
            assert forall|i: int| 0 <= i < rest.len() implies M::span_of(
                q,
                #[trigger] rest[i],
            ) by {
                assert(M::span_of(q, elems[i]));
            }
            assert(M::span_of(q, elems[elems.len() - 1]));
        }
        match span_all::<E, M>(rest) {
            None => {
                assert forall|q: Seq<E>| #[trigger] is_common_span::<E, M>(q, elems) implies q.len()
                    == 0 by {}
            },
            Some(p) => {
                M::lemma_pair_charac(p, l);
                // Any admissible span common to all of `elems` is a span of `p`.
                assert forall|q: Seq<E>|
                    #[trigger] is_common_span::<E, M>(q, elems) implies M::admissible(q)
                    && M::span_of(q, p) && M::span_of(q, l) by {
                    assert(q.len() <= p.len());
                    assert(M::span_of(q, rest[0]));
                    assert(M::span_of(p, rest[0]));
                    M::lemma_span_laws(q, p, rest[0]);
                }
                match M::pair(p, l) {
                    None => {
                        assert forall|q: Seq<E>|
                            #[trigger] is_common_span::<E, M>(q, elems) implies q.len() == 0 by {}
                    },
                    Some(c) => {
                        assert forall|i: int| 0 <= i < elems.len() implies M::span_of(
                            c,
                            #[trigger] elems[i],
                        ) by {
                            if i < elems.len() - 1 {
                                assert(M::span_of(p, rest[i]));
                                M::lemma_span_laws(c, p, elems[i]);
                            }
                        }
                        assert(is_common_span::<E, M>(c, elems));
                    },
                }
            },
        }
    }
}

/// Two results that both meet the characterisation are the same result.
pub proof fn lemma_span_result_unique<E, M: SpanModel<E>>(
    elems: Seq<Seq<E>>,
    r1: Option<Seq<E>>,
    r2: Option<Seq<E>>,
)
    requires
        elems.len() > 0,
        span_result_ok::<E, M>(elems, r1),
        span_result_ok::<E, M>(elems, r2),
    ensures
        r1 == r2,
{
    match (r1, r2) {
        (Some(p1), Some(p2)) => {
            assert(p1.len() <= p2.len() && p2.len() <= p1.len());
            assert(M::span_of(p1, elems[0]) && M::span_of(p2, elems[0]));
            M::lemma_span_laws(p1, p2, elems[0]);
            assert(M::span_of(p1, p2));
            M::lemma_span_laws(p1, p1, p2);
        },
        (Some(p1), None) => {
            assert(is_common_span::<E, M>(p1, elems));
        },
        (None, Some(p2)) => {
            assert(is_common_span::<E, M>(p2, elems));
        },
        (None, None) => {},
    }
}

/// Splitting the collection anywhere and combining the two halves' results
/// yields the whole collection's result.
pub proof fn lemma_span_all_append<E, M: SpanModel<E>>(s1: Seq<Seq<E>>, s2: Seq<Seq<E>>)
    requires
        s1.len() > 0,
        s2.len() > 0,
        all_admissible::<E, M>(s1 + s2),
    ensures
        span_all::<E, M>(s1 + s2) == combine::<E, M>(span_all::<E, M>(s1), span_all::<E, M>(s2)),
{
    let whole = s1 + s2;
    assert(all_admissible::<E, M>(s1)) by {
        assert forall|i: int| 0 <= i < s1.len() implies M::admissible(#[trigger] s1[i]) by {
            assert(s1[i] == whole[i]);
        }
    }
    assert(all_admissible::<E, M>(s2)) by {
        assert forall|i: int| 0 <= i < s2.len() implies M::admissible(#[trigger] s2[i]) by {
            assert(s2[i] == whole[s1.len() + i]);
        }
    }
    lemma_span_all_ok::<E, M>(s1);
    lemma_span_all_ok::<E, M>(s2);
    lemma_span_all_ok::<E, M>(whole);
    // A span is common to the whole collection iff it is common to both halves.
    assert forall|q: Seq<E>| #[trigger] is_common_span::<E, M>(q, whole) implies is_common_span::<
        E,
        M,
    >(q, s1) && is_common_span::<E, M>(q, s2) by {
        assert forall|i: int| 0 <= i < s1.len() implies M::span_of(q, #[trigger] s1[i]) by {
            assert(M::span_of(q, whole[i]));
        }
        assert forall|i: int| 0 <= i < s2.len() implies M::span_of(q, #[trigger] s2[i]) by {
            assert(M::span_of(q, whole[s1.len() + i]));
        }
    }
    assert forall|q: Seq<E>|
        is_common_span::<E, M>(q, s1) && is_common_span::<E, M>(q, s2) implies #[trigger] is_common_span::<
        E,
        M,
    >(q, whole) by {
        assert forall|i: int| 0 <= i < whole.len() implies M::span_of(q, #[trigger] whole[i]) by {
            if i < s1.len() {
                assert(M::span_of(q, s1[i]));
            } else {
                assert(M::span_of(q, s2[i - s1.len()]));
            }
        }
    }
    let c = combine::<E, M>(span_all::<E, M>(s1), span_all::<E, M>(s2));
    match (span_all::<E, M>(s1), span_all::<E, M>(s2)) {
        (Some(p1), Some(p2)) => {
            M::lemma_pair_charac(p1, p2);
            // A span common to the whole collection is a span of both halves'
            // results.
            assert forall|q: Seq<E>|
                #[trigger] is_common_span::<E, M>(q, whole) implies M::admissible(q) && M::span_of(
                q,
                p1,
            ) && M::span_of(q, p2) by {
                assert(q.len() <= p1.len() && q.len() <= p2.len());
                assert(M::span_of(q, s1[0]) && M::span_of(p1, s1[0]));
                M::lemma_span_laws(q, p1, s1[0]);
                assert(M::span_of(q, s2[0]) && M::span_of(p2, s2[0]));
                M::lemma_span_laws(q, p2, s2[0]);
            }
            match M::pair(p1, p2) {
                None => {
                    assert(span_result_ok::<E, M>(whole, c));
                },
                Some(cc) => {
                    assert forall|i: int| 0 <= i < whole.len() implies M::span_of(
                        cc,
                        #[trigger] whole[i],
                    ) by {
                        if i < s1.len() {
                            assert(M::span_of(p1, s1[i]));
                            M::lemma_span_laws(cc, p1, whole[i]);
                        } else {
                            assert(M::span_of(p2, s2[i - s1.len()]));
                            M::lemma_span_laws(cc, p2, whole[i]);
                        }
                    }
                    assert(is_common_span::<E, M>(cc, whole));
                    assert(span_result_ok::<E, M>(whole, c));
                },
            }
        },
        (None, _) => {
            assert forall|q: Seq<E>| #[trigger] is_common_span::<E, M>(q, whole) implies q.len()
                == 0 by {
                assert(is_common_span::<E, M>(q, s1));
            }
            assert(span_result_ok::<E, M>(whole, c));
        },
        (_, None) => {
            assert forall|q: Seq<E>| #[trigger] is_common_span::<E, M>(q, whole) implies q.len()
                == 0 by {
                assert(is_common_span::<E, M>(q, s2));
            }
            assert(span_result_ok::<E, M>(whole, c));
        },
    }
    lemma_span_result_unique::<E, M>(whole, span_all::<E, M>(whole), c);
}

/// Once a partial reduction over a leading part of the collection has no
/// common span, the whole collection has none: `None` is absorbing.
pub proof fn lemma_span_all_none_absorbs<E, M: SpanModel<E>>(elems: Seq<Seq<E>>, i: int)
    requires
        0 < i <= elems.len(),
        span_all::<E, M>(elems.take(i)) is None,
    ensures
        span_all::<E, M>(elems) is None,
    decreases elems.len() - i,
{
    if i == elems.len() {
        assert(elems.take(i) == elems);
    } else {
        assert(elems.take(i + 1).drop_last() == elems.take(i));
        assert(span_all::<E, M>(elems.take(i + 1)) is None);
        lemma_span_all_none_absorbs::<E, M>(elems, i + 1);
    }
}

} // verus!
