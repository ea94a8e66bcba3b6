//! Collection-level laws of the reduction.
//!
//! Each proof function here states one property of the collection-wide
//! common span, over the same spec functions the public operations' contracts
//! use, so the properties compose with those contracts directly.

use crate::finder::{StringPrefix, StringSuffix};
use crate::spans::{all_admissible, is_common_span, lemma_span_all_ok, lemma_span_result_unique,
    span_all, span_result_ok, SpanModel};
use vstd::prelude::*;
use vstd::seq_lib::*;
use vstd::utf8::*;

verus! {

/// For an empty collection there is no common span.
pub proof fn lemma_empty_collection<E, M: SpanModel<E>>()
    ensures
        (span_all::<E, M>(Seq::empty()) is None),
{
}

/// A one-element collection's common span is the element's entire content
/// (a single empty element has no span, since a span is never empty).
pub proof fn lemma_single_element<E, M: SpanModel<E>>(elems: Seq<Seq<E>>)
    requires
        elems.len() == 1,
        elems[0].len() > 0,
    ensures
        (span_all::<E, M>(elems) == Some(elems[0])),
{
}

/// Permuting the collection never changes the common span: the result
/// depends only on which sequences occur, not on their order.
pub proof fn lemma_order_invariance<E, M: SpanModel<E>>(s: Seq<Seq<E>>, t: Seq<Seq<E>>)
    requires
        s.len() > 0,
        all_admissible::<E, M>(s),
        s.to_multiset() == t.to_multiset(),
    ensures
        (span_all::<E, M>(s) == span_all::<E, M>(t)),
{
    broadcast use vstd::seq_lib::group_to_multiset_ensures;

    assert(t.len() == s.len()) by {
        s.to_multiset_ensures();
        t.to_multiset_ensures();
    }
    assert forall|i: int| 0 <= i < t.len() implies M::admissible(#[trigger] t[i]) by {
        assert(t.contains(t[i]));
        assert(t.to_multiset().count(t[i]) > 0);
        assert(s.contains(t[i]));
        let j = choose|j: int| 0 <= j < s.len() && s[j] == t[i];
        assert(M::admissible(s[j]));
    }
    lemma_span_all_ok::<E, M>(s);
    lemma_span_all_ok::<E, M>(t);
    match span_all::<E, M>(s) {
        None => {
            assert forall|q: Seq<E>| #[trigger] is_common_span::<E, M>(q, t) implies q.len()
                == 0 by {
                lemma_common_span_multiset::<E, M>(q, t, s);
            }
        },
        Some(p) => {
            lemma_common_span_multiset::<E, M>(p, s, t);
            assert forall|q: Seq<E>| #[trigger] is_common_span::<E, M>(q, t) implies q.len()
                <= p.len() by {
                lemma_common_span_multiset::<E, M>(q, t, s);
            }
        },
    }
    assert(span_result_ok::<E, M>(t, span_all::<E, M>(s)));
    lemma_span_result_unique::<E, M>(t, span_all::<E, M>(s), span_all::<E, M>(t));
}

/// A span common to every element of one collection is common to every
/// element of any rearrangement of it.
proof fn lemma_common_span_multiset<E, M: SpanModel<E>>(q: Seq<E>, u: Seq<Seq<E>>, v: Seq<Seq<E>>)
    requires
        u.to_multiset() == v.to_multiset(),
        is_common_span::<E, M>(q, u),
    ensures
        (is_common_span::<E, M>(q, v)),
{
    broadcast use vstd::seq_lib::group_to_multiset_ensures;

    assert forall|i: int| 0 <= i < v.len() implies M::span_of(q, #[trigger] v[i]) by {
        assert(v.contains(v[i]));
        assert(v.to_multiset().count(v[i]) > 0);
        assert(u.contains(v[i]));
        let j = choose|j: int| 0 <= j < u.len() && u[j] == v[i];
        assert(M::span_of(q, u[j]));
    }
}

/// A text result never splits a multi-byte encoding unit: when every element
/// of the collection is valid UTF-8, a present common prefix is itself valid
/// UTF-8.
pub proof fn lemma_prefix_boundary_correct(elems: Seq<Seq<u8>>)
    requires
        elems.len() > 0,
        forall|i: int| 0 <= i < elems.len() ==> valid_utf8(#[trigger] elems[i]),
    ensures
        (span_all::<u8, StringPrefix>(elems) matches Some(p) ==> valid_utf8(p)),
{
    lemma_span_all_ok::<u8, StringPrefix>(elems);
}

/// A text result never splits a multi-byte encoding unit: when every element
/// of the collection is valid UTF-8, a present common suffix is itself valid
/// UTF-8.
pub proof fn lemma_suffix_boundary_correct(elems: Seq<Seq<u8>>)
    requires
        elems.len() > 0,
        forall|i: int| 0 <= i < elems.len() ==> valid_utf8(#[trigger] elems[i]),
    ensures
        (span_all::<u8, StringSuffix>(elems) matches Some(p) ==> valid_utf8(p)),
{
    lemma_span_all_ok::<u8, StringSuffix>(elems);
}

/// Every byte of the sequence is ASCII.
pub open spec fn ascii_bytes(s: Seq<u8>) -> bool {
    forall|j: int| 0 <= j < s.len() ==> s[j] < 0x80
}

/// Every element of the collection is pure ASCII.
pub open spec fn all_ascii(elems: Seq<Seq<u8>>) -> bool {
    forall|i: int| 0 <= i < elems.len() ==> ascii_bytes(#[trigger] elems[i])
}

/// Byte-reversal of every element of the collection.
pub open spec fn reverse_all(elems: Seq<Seq<u8>>) -> Seq<Seq<u8>> {
    elems.map_values(|s: Seq<u8>| s.reverse())
}

/// A pure-ASCII byte sequence is valid UTF-8.
proof fn lemma_ascii_valid_utf8(s: Seq<u8>)
    requires
        ascii_bytes(s),
    ensures
        valid_utf8(s),
{
    assert forall|i: int| 0 <= i < s.len() implies is_leading_byte_width_1(#[trigger] s[i]) by {}
    assert(s.subrange(0, 0) =~= Seq::<u8>::empty());
    assert(partial_valid_utf8(s, 0));
    partial_valid_utf8_extend_ascii_block(s, 0, s.len() as int);
    assert(s.subrange(0, s.len() as int) =~= s);
}

/// Reversal is an involution.
proof fn lemma_reverse_involutes(s: Seq<u8>)
    ensures
        s.reverse().reverse() == s,
{
    assert(s.reverse().reverse() =~= s);
}

/// A sequence is a suffix of another exactly when its reversal is a prefix
/// of the other's reversal.
proof fn lemma_suffix_reverse(q: Seq<u8>, x: Seq<u8>)
    ensures
        q.is_suffix_of(x) <==> q.reverse().is_prefix_of(x.reverse()),
{
    if q.is_suffix_of(x) {
        assert forall|i: int| 0 <= i < q.len() implies q.reverse()[i] == x.reverse().subrange(
            0,
            q.len() as int,
        )[i] by {
            assert(q[q.len() - 1 - i] == x.subrange(x.len() - q.len(), x.len() as int)[q.len() - 1
                - i]);
        }
        assert(q.reverse() =~= x.reverse().subrange(0, q.reverse().len() as int));
    }
    if q.reverse().is_prefix_of(x.reverse()) {
        assert forall|i: int| 0 <= i < q.len() implies q[i] == x.subrange(
            x.len() - q.len(),
            x.len() as int,
        )[i] by {
            assert(q.reverse()[q.len() - 1 - i] == x.reverse().subrange(0, q.len() as int)[q.len()
                - 1 - i]);
            assert(q.reverse()[q.len() - 1 - i] == q[i]);
            assert(x.reverse()[q.len() - 1 - i] == x[x.len() - q.len() + i]);
        }
        assert(q =~= x.subrange(x.len() - q.len(), x.len() as int));
    }
}

/// A span of an ASCII sequence is ASCII, and so is its reversal.
proof fn lemma_ascii_closure(q: Seq<u8>, x: Seq<u8>)
    requires
        ascii_bytes(x),
        q.is_suffix_of(x) || q.is_prefix_of(x),
    ensures
        ascii_bytes(q),
        ascii_bytes(q.reverse()),
{
    if q.is_suffix_of(x) {
        assert forall|j: int| 0 <= j < q.len() implies q[j] < 0x80 by {
            assert(q[j] == x.subrange(x.len() - q.len(), x.len() as int)[j]);
        }
    } else {
        assert forall|j: int| 0 <= j < q.len() implies q[j] < 0x80 by {
            assert(q[j] == x.subrange(0, q.len() as int)[j]);
        }
    }
}

/// For pure-ASCII content, the collection-wide common suffix is the reversal
/// of the collection-wide common prefix of the element-wise reversed
/// collection.
pub proof fn lemma_suffix_is_reversed_prefix(elems: Seq<Seq<u8>>)
    requires
        elems.len() > 0,
        all_ascii(elems),
    ensures
        match (span_all::<u8, StringSuffix>(elems), span_all::<u8, StringPrefix>(
            reverse_all(elems),
        )) {
            (None, None) => true,
            (Some(s), Some(p)) => s == p.reverse(),
            _ => false,
        },
{
    let relems = reverse_all(elems);
    assert(relems.len() == elems.len());
    assert forall|i: int| 0 <= i < elems.len() implies StringSuffix::admissible(
        #[trigger] elems[i],
    ) by {
        lemma_ascii_valid_utf8(elems[i]);
    }
    assert forall|i: int| 0 <= i < relems.len() implies StringPrefix::admissible(
        #[trigger] relems[i],
    ) && relems[i] == elems[i].reverse() by {
        lemma_ascii_closure(elems[i], elems[i]);
        lemma_ascii_valid_utf8(elems[i].reverse());
    }
    lemma_span_all_ok::<u8, StringSuffix>(elems);
    lemma_span_all_ok::<u8, StringPrefix>(relems);
    // A common suffix of the collection corresponds, reversed, to a common
    // prefix of the reversed collection.
    assert forall|q: Seq<u8>|
        #[trigger] is_common_span::<u8, StringSuffix>(q, elems) implies is_common_span::<
        u8,
        StringPrefix,
    >(q.reverse(), relems) by {
        lemma_ascii_closure(q, elems[0]);
        lemma_ascii_valid_utf8(q.reverse());
        assert forall|i: int| 0 <= i < relems.len() implies q.reverse().is_prefix_of(
            #[trigger] relems[i],
        ) by {
            assert(q.is_suffix_of(elems[i]));
            lemma_suffix_reverse(q, elems[i]);
        }
    }
    match span_all::<u8, StringPrefix>(relems) {
        None => {
            assert forall|q: Seq<u8>|
                #[trigger] is_common_span::<u8, StringSuffix>(q, elems) implies q.len() == 0 by {
                assert(is_common_span::<u8, StringPrefix>(q.reverse(), relems));
            }
            lemma_span_result_unique::<u8, StringSuffix>(
                elems,
                span_all::<u8, StringSuffix>(elems),
                None,
            );
        },
        Some(p) => {
            let c = p.reverse();
            assert(c.len() == p.len());
            lemma_ascii_closure(p, relems[0]);
            lemma_ascii_valid_utf8(c);
            lemma_reverse_involutes(p);
            assert forall|i: int| 0 <= i < elems.len() implies c.is_suffix_of(
                #[trigger] elems[i],
            ) by {
                assert(p.is_prefix_of(relems[i]));
                lemma_suffix_reverse(c, elems[i]);
            }
            assert(is_common_span::<u8, StringSuffix>(c, elems));
            assert forall|q: Seq<u8>|
                #[trigger] is_common_span::<u8, StringSuffix>(q, elems) implies q.len()
                <= c.len() by {
                assert(is_common_span::<u8, StringPrefix>(q.reverse(), relems));
                assert(q.reverse().len() <= p.len());
            }
            lemma_span_result_unique::<u8, StringSuffix>(
                elems,
                span_all::<u8, StringSuffix>(elems),
                Some(c),
            );
        },
    }
}

/// Appending one more element can only shrink the common span or remove it,
/// never grow it: the new result, when present, is a span of the old one and
/// no longer.
pub proof fn lemma_monotonic_shrink<E, M: SpanModel<E>>(elems: Seq<Seq<E>>, extra: Seq<E>)
    requires
        elems.len() > 0,
        all_admissible::<E, M>(elems),
        M::admissible(extra),
    ensures
        match (span_all::<E, M>(elems), span_all::<E, M>(elems.push(extra))) {
            (None, after) => after is None,
            (Some(before), None) => true,
            (Some(before), Some(after)) => after.len() <= before.len() && M::span_of(
                after,
                before,
            ),
        },
{
    let pushed = elems.push(extra);
    assert(pushed.drop_last() =~= elems);
    assert(pushed.last() == extra);
    match span_all::<E, M>(elems) {
        None => {
            assert(span_all::<E, M>(pushed) is None);
        },
        Some(before) => {
            lemma_span_all_ok::<E, M>(elems);
            assert(span_all::<E, M>(pushed) == M::pair(before, extra));
            M::lemma_pair_charac(before, extra);
            match M::pair(before, extra) {
                None => {},
                Some(after) => {
                    M::lemma_span_laws(after, after, before);
                },
            }
        },
    }
}

} // verus!
