//! Sorting of texts.

use crate::text::texts;
use vstd::prelude::*;
use vstd::relations::{sorted_by, total_ordering};
use vstd::utf8::encode_utf8;

verus! {

/// The lexicographic order of byte strings.
pub open spec fn bytes_le(a: Seq<u8>, b: Seq<u8>) -> bool
    decreases a.len(),
{
    if a.len() == 0 {
        true
    } else if b.len() == 0 {
        false
    } else if a[0] == b[0] {
        bytes_le(a.skip(1), b.skip(1))
    } else {
        a[0] < b[0]
    }
}

/// The order of texts: lexicographic, by their bytes.
pub open spec fn text_order() -> spec_fn(Seq<char>, Seq<char>) -> bool {
    |a: Seq<char>, b: Seq<char>| bytes_le(encode_utf8(a), encode_utf8(b))
}

/// The texts in ascending order.
pub open spec fn sorted(parts: Seq<Seq<char>>) -> Seq<Seq<char>> {
    parts.sort_by(text_order())
}

/// `<[String]>::sort` puts the strings in ascending order: it keeps the
/// strings, and none comes before a lesser one. Strings compare by their bytes.
#[verifier::external_body]
fn sort_strings(v: &mut Vec<String>)
    ensures
        texts(final(v)@).to_multiset() == texts(old(v)@).to_multiset(),
        sorted_by(texts(final(v)@), text_order()),
{
    v.sort();
}

/// Sorts the strings in ascending order.
pub fn sort(v: &mut Vec<String>)
    ensures
        texts(final(v)@) == sorted(texts(old(v)@)),
{
    let ghost before = texts(v@);
    sort_strings(v);
    proof {
        lemma_text_order();
        before.lemma_sort_by_ensures(text_order());
        vstd::seq_lib::lemma_sorted_unique(texts(v@), sorted(before), text_order());
    }
}

proof fn lemma_bytes_le_reflexive(a: Seq<u8>)
    ensures
        bytes_le(a, a),
    decreases a.len(),
{
    if a.len() > 0 {
        lemma_bytes_le_reflexive(a.skip(1));
    }
}

proof fn lemma_bytes_le_antisymmetric(a: Seq<u8>, b: Seq<u8>)
    requires
        bytes_le(a, b),
        bytes_le(b, a),
    ensures
        a == b,
    decreases a.len(),
{
    if a.len() > 0 && b.len() > 0 {
        lemma_bytes_le_antisymmetric(a.skip(1), b.skip(1));
        assert(a =~= seq![a[0]] + a.skip(1));
        assert(b =~= seq![b[0]] + b.skip(1));
    } else {
        assert(a =~= b);
    }
}

proof fn lemma_bytes_le_transitive(a: Seq<u8>, b: Seq<u8>, c: Seq<u8>)
    requires
        bytes_le(a, b),
        bytes_le(b, c),
    ensures
        bytes_le(a, c),
    decreases a.len(),
{
    if a.len() > 0 && b.len() > 0 && c.len() > 0 && a[0] == b[0] && b[0] == c[0] {
        lemma_bytes_le_transitive(a.skip(1), b.skip(1), c.skip(1));
    }
}

proof fn lemma_bytes_le_total(a: Seq<u8>, b: Seq<u8>)
    ensures
        bytes_le(a, b) || bytes_le(b, a),
    decreases a.len(),
{
    if a.len() > 0 && b.len() > 0 {
        lemma_bytes_le_total(a.skip(1), b.skip(1));
    }
}

/// The order of texts is total.
proof fn lemma_text_order()
    ensures
        total_ordering(text_order()),
{
    let r = text_order();
    assert forall|x: Seq<char>| #[trigger] r(x, x) by {
        lemma_bytes_le_reflexive(encode_utf8(x));
    }
    assert forall|x: Seq<char>, y: Seq<char>| #[trigger] r(x, y) && #[trigger] r(y, x) implies x
        == y by {
        lemma_bytes_le_antisymmetric(encode_utf8(x), encode_utf8(y));
        vstd::utf8::encode_utf8_decode_utf8(x);
        vstd::utf8::encode_utf8_decode_utf8(y);
    }
    assert forall|x: Seq<char>, y: Seq<char>, z: Seq<char>| #[trigger]
        r(x, y) && #[trigger] r(y, z) implies r(x, z) by {
        lemma_bytes_le_transitive(encode_utf8(x), encode_utf8(y), encode_utf8(z));
    }
    assert forall|x: Seq<char>, y: Seq<char>| #[trigger] r(x, y) || #[trigger] r(y, x) by {
        lemma_bytes_le_total(encode_utf8(x), encode_utf8(y));
    }
}

/// Sorting forgets the order in which the texts came.
pub proof fn law_sorted_order_free(a: Seq<Seq<char>>, b: Seq<Seq<char>>)
    requires
        a.to_multiset() == b.to_multiset(),
    ensures
        sorted(a) == sorted(b),
{
    lemma_text_order();
    a.lemma_sort_by_ensures(text_order());
    b.lemma_sort_by_ensures(text_order());
    vstd::seq_lib::lemma_sorted_unique(sorted(a), sorted(b), text_order());
}

/// Sorting keeps the texts, and no text comes before a lesser one.
pub proof fn law_sorted(a: Seq<Seq<char>>)
    ensures
        sorted(a).to_multiset() == a.to_multiset(),
        sorted(a).len() == a.len(),
        sorted_by(sorted(a), text_order()),
{
    lemma_text_order();
    a.lemma_sort_by_ensures(text_order());
    a.to_multiset_ensures();
    sorted(a).to_multiset_ensures();
}

/// Taking an item out of a list takes what it maps to out of the result.
proof fn lemma_filter_map_remove<A, B>(s: Seq<A>, f: spec_fn(A) -> Option<B>, i: int)
    requires
        0 <= i < s.len(),
    ensures
        s.filter_map(f).to_multiset() == (match f(s[i]) {
            Some(b) => s.remove(i).filter_map(f).to_multiset().insert(b),
            None => s.remove(i).filter_map(f).to_multiset(),
        }),
    decreases s.len(),
{
    broadcast use vstd::multiset::group_multiset_axioms;

    let front = s.drop_last();
    let rest = s.remove(i);
    if i == s.len() - 1 {
        assert(rest =~= front);
        if let Some(b) = f(s.last()) {
            vstd::seq_lib::to_multiset_build(front.filter_map(f), b);
            assert(front.filter_map(f) + seq![b] =~= front.filter_map(f).push(b));
        }
    } else {
        lemma_filter_map_remove(front, f, i);
        assert(rest.drop_last() =~= front.remove(i));
        assert(rest.last() == s.last());
        if let Some(b) = f(s.last()) {
            vstd::seq_lib::to_multiset_build(front.filter_map(f), b);
            assert(front.filter_map(f) + seq![b] =~= front.filter_map(f).push(b));
            vstd::seq_lib::to_multiset_build(front.remove(i).filter_map(f), b);
            assert(front.remove(i).filter_map(f) + seq![b] =~= front.remove(i).filter_map(f).push(
                b,
            ));
            if let Some(c) = f(s[i]) {
                let m = front.remove(i).filter_map(f).to_multiset();
                assert(m.insert(c).insert(b) =~= m.insert(b).insert(c));
            }
        }
    }
}

/// Lists with the same items map to lists with the same items.
pub proof fn lemma_filter_map_permuted<A, B>(a: Seq<A>, b: Seq<A>, f: spec_fn(A) -> Option<B>)
    requires
        a.to_multiset() == b.to_multiset(),
    ensures
        a.filter_map(f).to_multiset() == b.filter_map(f).to_multiset(),
    decreases a.len(),
{
    vstd::seq_lib::to_multiset_len(a);
    vstd::seq_lib::to_multiset_len(b);
    if a.len() > 0 {
        let k = a.len() - 1;
        let x = a[k];
        vstd::seq_lib::to_multiset_contains(a, x);
        vstd::seq_lib::to_multiset_contains(b, x);
        assert(a.contains(x));
        let i = choose|i: int| 0 <= i < b.len() && b[i] == x;
        vstd::seq_lib::to_multiset_remove(a, k);
        vstd::seq_lib::to_multiset_remove(b, i);
        lemma_filter_map_permuted(a.remove(k), b.remove(i), f);
        lemma_filter_map_remove(a, f, k);
        lemma_filter_map_remove(b, f, i);
    }
}

/// Mapping every item is a special case of mapping some of them.
pub proof fn lemma_map_is_filter_map<A, B>(s: Seq<A>, f: spec_fn(A) -> B)
    ensures
        s.map_values(f) == s.filter_map(|x: A| Some(f(x))),
    decreases s.len(),
{
    let g = |x: A| Some(f(x));
    if s.len() > 0 {
        lemma_map_is_filter_map(s.drop_last(), f);
        assert(s.map_values(f) =~= s.drop_last().map_values(f) + seq![f(s.last())]);
    } else {
        assert(s.map_values(f) =~= s.filter_map(g));
    }
}

/// What an item of a list maps to is in the result.
pub proof fn lemma_filter_map_keeps<A, B>(s: Seq<A>, f: spec_fn(A) -> Option<B>, i: int)
    requires
        0 <= i < s.len(),
        f(s[i]) is Some,
    ensures
        s.filter_map(f).contains(f(s[i])->0),
{
    lemma_filter_map_remove(s, f, i);
    let b = f(s[i])->0;
    vstd::seq_lib::to_multiset_contains(s.filter_map(f), b);
    broadcast use vstd::multiset::group_multiset_axioms;

}

/// One byte string comes before another if it is the beginning of the other, or
/// if it is less in the first byte in which they differ.
pub proof fn law_bytes_order(a: Seq<u8>, b: Seq<u8>)
    ensures
        bytes_le(a, b) <==> a.is_prefix_of(b) || exists|i: int|
            0 <= i < a.len() && i < b.len() && #[trigger] a[i] < b[i] && a.take(i) == b.take(i),
    decreases a.len(),
{
    if a.len() == 0 {
        assert(a =~= b.subrange(0, 0));
    } else if b.len() > 0 {
        let x = a.skip(1);
        let y = b.skip(1);
        law_bytes_order(x, y);
        if a[0] == b[0] {
            assert(a =~= seq![a[0]] + x);
            assert(b =~= seq![b[0]] + y);
            if x.is_prefix_of(y) {
                assert(a =~= b.subrange(0, a.len() as int)) by {
                    assert forall|k: int| 0 <= k < a.len() implies a[k] == b[k] by {
                        if k > 0 {
                            assert(y.subrange(0, x.len() as int)[k - 1] == y[k - 1]);
                            assert(x[k - 1] == a[k]);
                        }
                    }
                }
            }
            if a.is_prefix_of(b) {
                assert(x =~= y.subrange(0, x.len() as int)) by {
                    assert forall|k: int| 0 <= k < x.len() implies x[k] == y[k] by {
                        assert(b.subrange(0, a.len() as int)[k + 1] == a[k + 1]);
                    }
                }
            }
            if exists|i: int|
                0 <= i < x.len() && i < y.len() && #[trigger] x[i] < y[i] && x.take(i) == y.take(
                    i,
                ) {
                let i = choose|i: int|
                    0 <= i < x.len() && i < y.len() && #[trigger] x[i] < y[i] && x.take(i)
                        == y.take(i);
                assert(a[i + 1] < b[i + 1]);
                assert(a.take(i + 1) =~= seq![a[0]] + x.take(i));
                assert(b.take(i + 1) =~= seq![b[0]] + y.take(i));
            }
            if exists|i: int|
                0 <= i < a.len() && i < b.len() && #[trigger] a[i] < b[i] && a.take(i) == b.take(
                    i,
                ) {
                let i = choose|i: int|
                    0 <= i < a.len() && i < b.len() && #[trigger] a[i] < b[i] && a.take(i)
                        == b.take(i);
                assert(i > 0);
                assert(x[i - 1] < y[i - 1]);
                assert(x.take(i - 1) =~= a.take(i).skip(1));
                assert(y.take(i - 1) =~= b.take(i).skip(1));
            }
        } else {
            if a.is_prefix_of(b) {
                assert(b.subrange(0, a.len() as int)[0] == a[0]);
            }
            if a[0] < b[0] {
                assert(a.take(0) =~= b.take(0));
            }
            if exists|i: int|
                0 <= i < a.len() && i < b.len() && #[trigger] a[i] < b[i] && a.take(i) == b.take(
                    i,
                ) {
                let i = choose|i: int|
                    0 <= i < a.len() && i < b.len() && #[trigger] a[i] < b[i] && a.take(i)
                        == b.take(i);
                if i > 0 {
                    assert(a.take(i)[0] == b.take(i)[0]);
                }
            }
        }
    } else {
        assert(!a.is_prefix_of(b));
    }
}

/// Of two texts in a sorted list, the bytes of the later one do not come before
/// those of the earlier one.
pub proof fn law_sorted_by_bytes(a: Seq<Seq<char>>, i: int, j: int)
    requires
        0 <= i <= j < a.len(),
    ensures
        bytes_le(encode_utf8(sorted(a)[i]), encode_utf8(sorted(a)[j])),
{
    law_sorted(a);
    lemma_bytes_le_reflexive(encode_utf8(sorted(a)[i]));
    if i < j {
        assert(text_order()(sorted(a)[i], sorted(a)[j]));
    }
}

} // verus!
