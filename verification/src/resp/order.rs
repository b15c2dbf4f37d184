//! The order of map keys, and why a map's encoding does not depend on the
//! order in which its entries were inserted.
use crate::resp::wire::{
    encode_frame, key_less, key_less_at, key_position, key_position_from, keys_sorted, map_insert,
    map_of_pairs, Frame,
};
use vstd::prelude::*;

verus! {

/// No key stands before itself.
pub proof fn lemma_key_less_irreflexive(a: Seq<u8>)
    ensures
        !key_less(a, a),
{
}

/// The order of keys is transitive.
pub proof fn lemma_key_less_transitive(a: Seq<u8>, b: Seq<u8>, c: Seq<u8>)
    requires
        key_less(a, b),
        key_less(b, c),
    ensures
        key_less(a, c),
{
    let k1 = choose|k: int| key_less_at(a, b, k);
    let k2 = choose|k: int| key_less_at(b, c, k);
    if k1 <= k2 {
        assert(a.take(k1) =~= c.take(k1)) by {
            assert forall|i: int| 0 <= i < k1 implies a.take(k1)[i] == c.take(k1)[i] by {
                assert(a.take(k1)[i] == b.take(k1)[i]);
                assert(b.take(k2)[i] == c.take(k2)[i]);
            }
        }
        if k1 < a.len() {
            if k1 < k2 {
                assert(b.take(k2)[k1] == c.take(k2)[k1]);
            }
        }
        assert(key_less_at(a, c, k1));
    } else {
        assert(a.take(k2) =~= c.take(k2)) by {
            assert forall|i: int| 0 <= i < k2 implies a.take(k2)[i] == c.take(k2)[i] by {
                assert(a.take(k1)[i] == b.take(k1)[i]);
                assert(b.take(k2)[i] == c.take(k2)[i]);
            }
        }
        assert(a.take(k1)[k2] == b.take(k1)[k2]);
        assert(key_less_at(a, c, k2));
    }
}

/// Of two keys that agree on their first `k` bytes and are not the same, one
/// stands before the other.
proof fn lemma_key_order_from(a: Seq<u8>, b: Seq<u8>, k: int)
    requires
        0 <= k <= a.len(),
        k <= b.len(),
        a.take(k) =~= b.take(k),
        a != b,
    ensures
        key_less(a, b) || key_less(b, a),
    decreases a.len() - k,
{
    if k == a.len() {
        if k == b.len() {
            assert(a.take(k) =~= a);
            assert(b.take(k) =~= b);
        } else {
            assert(key_less_at(a, b, k));
        }
    } else if k == b.len() {
        assert(key_less_at(b, a, k));
    } else if a[k] < b[k] {
        assert(key_less_at(a, b, k));
    } else if b[k] < a[k] {
        assert(key_less_at(b, a, k));
    } else {
        assert(a.take(k + 1) =~= a.take(k).push(a[k]));
        assert(b.take(k + 1) =~= b.take(k).push(b[k]));
        lemma_key_order_from(a, b, k + 1);
    }
}

/// Of two different keys, one stands before the other.
pub proof fn lemma_key_order_total(a: Seq<u8>, b: Seq<u8>)
    requires
        a != b,
    ensures
        key_less(a, b) || key_less(b, a),
{
    assert(a.take(0) =~= b.take(0));
    lemma_key_order_from(a, b, 0);
}

/// In a map whose keys rise, the place of a key parts the entries: those
/// before it have smaller keys, those from it on have not.
pub proof fn lemma_key_position(m: Seq<(Seq<u8>, Frame)>, key: Seq<u8>, from: int)
    requires
        keys_sorted(m),
        0 <= from <= m.len(),
        forall|j: int| 0 <= j < from ==> key_less(#[trigger] m[j].0, key),
    ensures
        from <= key_position_from(m, key, from) <= m.len(),
        forall|j: int|
            0 <= j < key_position_from(m, key, from) ==> key_less(#[trigger] m[j].0, key),
        forall|j: int|
            key_position_from(m, key, from) <= j < m.len() ==> !key_less(#[trigger] m[j].0, key),
    decreases m.len() - from,
{
    if from < m.len() && key_less(m[from].0, key) {
        lemma_key_position(m, key, from + 1);
    } else {
        assert forall|j: int| from <= j < m.len() implies !key_less(#[trigger] m[j].0, key) by {
            if j > from && key_less(m[j].0, key) {
                lemma_key_less_transitive(m[from].0, m[j].0, key);
            }
        }
    }
}

/// Inserting into a map whose keys rise gives a map whose keys rise.
pub proof fn lemma_insert_keeps_order(m: Seq<(Seq<u8>, Frame)>, key: Seq<u8>, value: Frame)
    requires
        keys_sorted(m),
    ensures
        keys_sorted(map_insert(m, key, value)),
{
    let p = key_position(m, key);
    lemma_key_position(m, key, 0);
    let n = map_insert(m, key, value);
    if p < m.len() && m[p].0 == key {
        assert forall|i: int, j: int| 0 <= i < j < n.len() implies key_less(
            #[trigger] n[i].0,
            #[trigger] n[j].0,
        ) by {
            assert(n[i].0 == m[i].0);
            assert(n[j].0 == m[j].0);
        }
    } else {
        assert forall|i: int, j: int| 0 <= i < j < n.len() implies key_less(
            #[trigger] n[i].0,
            #[trigger] n[j].0,
        ) by {
            if j < p {
                assert(n[i] == m[i] && n[j] == m[j]);
            } else if j == p {
                assert(n[i] == m[i]);
            } else {
                assert(n[j] == m[j - 1]);
                assert(!key_less(m[j - 1].0, key));
                assert(!key_less(m[p].0, key));
                lemma_key_order_total(key, m[p].0);
                if j - 1 > p {
                    lemma_key_less_transitive(key, m[p].0, m[j - 1].0);
                }
                if i < p {
                    assert(n[i] == m[i]);
                } else if i == p {
                } else {
                    assert(n[i] == m[i - 1]);
                }
            }
        }
    }
}

/// What a map holds after an insertion: the new entry, and the entries under
/// other keys.
pub proof fn lemma_insert_entries(
    m: Seq<(Seq<u8>, Frame)>,
    key: Seq<u8>,
    value: Frame,
    e: (Seq<u8>, Frame),
)
    requires
        keys_sorted(m),
    ensures
        map_insert(m, key, value).contains(e) <==> (e == (key, value) || (m.contains(e) && e.0
            != key)),
{
    let p = key_position(m, key);
    lemma_key_position(m, key, 0);
    let n = map_insert(m, key, value);
    if p < m.len() && m[p].0 == key {
        if n.contains(e) {
            let i = choose|i: int| 0 <= i < n.len() && n[i] == e;
            if i != p {
                assert(m[i] == e);
                if e.0 == key {
                    lemma_key_less_irreflexive(key);
                    if i < p {
                        assert(key_less(m[i].0, m[p].0));
                    } else {
                        assert(key_less(m[p].0, m[i].0));
                    }
                }
            }
        }
        if e == (key, value) {
            assert(n[p] == e);
        }
        if m.contains(e) && e.0 != key {
            let i = choose|i: int| 0 <= i < m.len() && m[i] == e;
            assert(n[i] == e);
        }
    } else {
        if n.contains(e) {
            let i = choose|i: int| 0 <= i < n.len() && n[i] == e;
            if i < p {
                assert(m[i] == e);
                if e.0 == key {
                    lemma_key_less_irreflexive(key);
                }
            } else if i > p {
                assert(m[i - 1] == e);
                if e.0 == key {
                    lemma_key_less_irreflexive(key);
                    if i - 1 > p {
                        assert(!key_less(m[p].0, key));
                        assert(key_less(m[p].0, m[i - 1].0));
                    }
                }
            }
        }
        if e == (key, value) {
            assert(n[p] == e);
        }
        if m.contains(e) && e.0 != key {
            let i = choose|i: int| 0 <= i < m.len() && m[i] == e;
            if i < p {
                assert(n[i] == e);
            } else {
                assert(n[i + 1] == e);
            }
        }
    }
}

/// Two maps whose keys rise and that hold the same entries agree on their
/// first `i` entries.
proof fn lemma_same_prefix(m1: Seq<(Seq<u8>, Frame)>, m2: Seq<(Seq<u8>, Frame)>, i: int)
    requires
        keys_sorted(m1),
        keys_sorted(m2),
        forall|e: (Seq<u8>, Frame)| m1.contains(e) <==> m2.contains(e),
        0 <= i <= m1.len(),
        i <= m2.len(),
    ensures
        forall|j: int| 0 <= j < i ==> m1[j] == m2[j],
    decreases i,
{
    if i > 0 {
        lemma_same_prefix(m1, m2, i - 1);
        let a = m1[i - 1];
        let b = m2[i - 1];
        assert(m1.contains(a));
        assert(m2.contains(b));
        let ja = choose|j: int| 0 <= j < m2.len() && m2[j] == a;
        let jb = choose|j: int| 0 <= j < m1.len() && m1[j] == b;
        lemma_key_less_irreflexive(a.0);
        lemma_key_less_irreflexive(b.0);
        if ja < i - 1 {
            assert(m1[ja] == m2[ja]);
            assert(key_less(m1[ja].0, m1[i - 1].0));
        } else if ja > i - 1 {
            assert(key_less(m2[i - 1].0, m2[ja].0));
            if jb < i - 1 {
                assert(m1[jb] == m2[jb]);
                assert(key_less(m2[jb].0, m2[i - 1].0));
            } else if jb > i - 1 {
                assert(key_less(m1[i - 1].0, m1[jb].0));
                lemma_key_less_transitive(b.0, a.0, b.0);
            }
        }
    }
}

/// A map is fixed by what it holds: two maps whose keys rise and that hold
/// the same entries are the same sequence of entries.
pub proof fn lemma_sorted_maps_equal(m1: Seq<(Seq<u8>, Frame)>, m2: Seq<(Seq<u8>, Frame)>)
    requires
        keys_sorted(m1),
        keys_sorted(m2),
        forall|e: (Seq<u8>, Frame)| m1.contains(e) <==> m2.contains(e),
    ensures
        m1 == m2,
{
    if m1.len() < m2.len() {
        lemma_same_prefix(m1, m2, m1.len() as int);
        let b = m2[m1.len() as int];
        assert(m2.contains(b));
        let j = choose|j: int| 0 <= j < m1.len() && m1[j] == b;
        assert(m2[j] == b);
        assert(key_less(m2[j].0, m2[m1.len() as int].0));
        lemma_key_less_irreflexive(b.0);
    } else if m2.len() < m1.len() {
        lemma_same_prefix(m1, m2, m2.len() as int);
        let a = m1[m2.len() as int];
        assert(m1.contains(a));
        let j = choose|j: int| 0 <= j < m2.len() && m2[j] == a;
        assert(m1[j] == a);
        assert(key_less(m1[j].0, m1[m2.len() as int].0));
        lemma_key_less_irreflexive(a.0);
    } else {
        lemma_same_prefix(m1, m2, m1.len() as int);
        assert(m1 =~= m2);
    }
}

/// Two entries under different keys, inserted in either order into a map
/// whose keys rise, give the same map and so the same bytes.
pub proof fn law_inserts_under_different_keys_commute(
    m: Seq<(Seq<u8>, Frame)>,
    k1: Seq<u8>,
    v1: Frame,
    k2: Seq<u8>,
    v2: Frame,
)
    requires
        keys_sorted(m),
        k1 != k2,
    ensures
        map_insert(map_insert(m, k1, v1), k2, v2) == map_insert(map_insert(m, k2, v2), k1, v1),
        encode_frame(Frame::RespMap(map_insert(map_insert(m, k1, v1), k2, v2))) == encode_frame(
            Frame::RespMap(map_insert(map_insert(m, k2, v2), k1, v1)),
        ),
{
    let a1 = map_insert(m, k1, v1);
    let a2 = map_insert(a1, k2, v2);
    let b1 = map_insert(m, k2, v2);
    let b2 = map_insert(b1, k1, v1);
    lemma_insert_keeps_order(m, k1, v1);
    lemma_insert_keeps_order(a1, k2, v2);
    lemma_insert_keeps_order(m, k2, v2);
    lemma_insert_keeps_order(b1, k1, v1);
    assert forall|e: (Seq<u8>, Frame)| a2.contains(e) <==> b2.contains(e) by {
        lemma_insert_entries(m, k1, v1, e);
        lemma_insert_entries(a1, k2, v2, e);
        lemma_insert_entries(m, k2, v2, e);
        lemma_insert_entries(b1, k1, v1, e);
    }
    lemma_sorted_maps_equal(a2, b2);
}

/// Whether no key stands twice in `pairs`.
pub open spec fn keys_differ(pairs: Seq<(Seq<u8>, Frame)>) -> bool {
    forall|i: int, j: int|
        0 <= i < j < pairs.len() ==> (#[trigger] pairs[i]).0 != (#[trigger] pairs[j]).0
}

/// The map made of pairs under different keys holds those pairs and no
/// other, and its keys rise.
pub proof fn lemma_map_of_different_keys(pairs: Seq<(Seq<u8>, Frame)>)
    requires
        keys_differ(pairs),
    ensures
        keys_sorted(map_of_pairs(pairs)),
        forall|e: (Seq<u8>, Frame)| map_of_pairs(pairs).contains(e) <==> pairs.contains(e),
    decreases pairs.len(),
{
    if pairs.len() == 0 {
        assert forall|e: (Seq<u8>, Frame)| !map_of_pairs(pairs).contains(e) by {}
    } else {
        let front = pairs.drop_last();
        let last = pairs.last();
        assert(keys_differ(front)) by {
            assert forall|i: int, j: int| 0 <= i < j < front.len() implies (#[trigger] front[i]).0
                != (#[trigger] front[j]).0 by {
                assert(front[i] == pairs[i] && front[j] == pairs[j]);
            }
        }
        lemma_map_of_different_keys(front);
        lemma_insert_keeps_order(map_of_pairs(front), last.0, last.1);
        assert forall|e: (Seq<u8>, Frame)| map_of_pairs(pairs).contains(e) <==> pairs.contains(
            e,
        ) by {
            lemma_insert_entries(map_of_pairs(front), last.0, last.1, e);
            if front.contains(e) {
                let i = choose|i: int| 0 <= i < front.len() && front[i] == e;
                assert(pairs[i] == e);
                assert(pairs[i].0 != pairs[pairs.len() - 1].0);
            }
            if pairs.contains(e) {
                let i = choose|i: int| 0 <= i < pairs.len() && pairs[i] == e;
                if i < pairs.len() - 1 {
                    assert(front[i] == e);
                }
            }
            if e == last {
                assert(pairs[pairs.len() - 1] == e);
            }
        }
    }
}

/// The encoding of a map does not depend on the order of insertion: the same
/// pairs, each under a key of its own, inserted in one order or in another,
/// give the same map and so the same bytes.
pub proof fn law_map_encoding_ignores_insertion_order(
    p1: Seq<(Seq<u8>, Frame)>,
    p2: Seq<(Seq<u8>, Frame)>,
)
    requires
        keys_differ(p1),
        keys_differ(p2),
        forall|e: (Seq<u8>, Frame)| p1.contains(e) <==> p2.contains(e),
    ensures
        map_of_pairs(p1) == map_of_pairs(p2),
        encode_frame(Frame::RespMap(map_of_pairs(p1))) == encode_frame(
            Frame::RespMap(map_of_pairs(p2)),
        ),
{
    lemma_map_of_different_keys(p1);
    lemma_map_of_different_keys(p2);
    assert forall|e: (Seq<u8>, Frame)|
        map_of_pairs(p1).contains(e) <==> map_of_pairs(p2).contains(e) by {
        assert(map_of_pairs(p1).contains(e) <==> p1.contains(e));
        assert(p1.contains(e) <==> p2.contains(e));
        assert(map_of_pairs(p2).contains(e) <==> p2.contains(e));
    }
    lemma_sorted_maps_equal(map_of_pairs(p1), map_of_pairs(p2));
}

/// Two maps that hold the same entries have the same encoding, however each
/// was built.
pub proof fn law_map_encoding_is_canonical(m1: Seq<(Seq<u8>, Frame)>, m2: Seq<(Seq<u8>, Frame)>)
    requires
        keys_sorted(m1),
        keys_sorted(m2),
        forall|e: (Seq<u8>, Frame)| m1.contains(e) <==> m2.contains(e),
    ensures
        encode_frame(Frame::RespMap(m1)) == encode_frame(Frame::RespMap(m2)),
{
    lemma_sorted_maps_equal(m1, m2);
}

/// Keys that rise from each entry to the next rise throughout.
pub proof fn lemma_sorted_by_neighbours(m: Seq<(Seq<u8>, Frame)>, n: int)
    requires
        0 <= n <= m.len(),
        forall|i: int| 0 < i < n ==> key_less(#[trigger] m[i - 1].0, m[i].0),
    ensures
        keys_sorted(m.take(n)),
    decreases n,
{
    if n > 0 {
        lemma_sorted_by_neighbours(m, n - 1);
        let a = m.take(n - 1);
        let b = m.take(n);
        assert forall|i: int, j: int| 0 <= i < j < b.len() implies key_less(
            #[trigger] b[i].0,
            #[trigger] b[j].0,
        ) by {
            if j < n - 1 {
                assert(key_less(a[i].0, a[j].0));
            } else {
                assert(key_less(m[j - 1].0, m[j].0));
                if i < j - 1 {
                    assert(key_less(a[i].0, a[j - 1].0));
                    lemma_key_less_transitive(m[i].0, m[j - 1].0, m[j].0);
                }
            }
        }
    }
}

} // verus!
