//! What holds of the commands, taken one after the other on one store.
use crate::backend::Store;
use crate::cmd::model::{executed, key_at, key_frame, ok_reply, pair_from, value_at, Request};
use crate::resp::map::lemma_same_bytes;
use crate::resp::wire::Frame;
use vstd::prelude::*;

verus! {

/// After SET of a key to a frame, GET of that key replies with that frame,
/// whatever the frame is.
pub proof fn law_set_then_get(
    s0: Store,
    s1: Store,
    s2: Store,
    key: Seq<char>,
    value: Frame,
    r1: Frame,
    r2: Frame,
)
    requires
        executed(Request::SetCmd { key, value }, s0, s1, r1),
        executed(Request::Get { key }, s1, s2, r2),
    ensures
        r1 == ok_reply(),
        r2 == value,
        s2 == s1,
{
}

/// SET of one key leaves what GET replies for any other key.
pub proof fn law_set_keeps_other_keys(
    s0: Store,
    s1: Store,
    key: Seq<char>,
    value: Frame,
    other: Seq<char>,
    r1: Frame,
)
    requires
        executed(Request::SetCmd { key, value }, s0, s1, r1),
        other != key,
    ensures
        s1.get(other) == s0.get(other),
{
}

/// After HSET of a field, HGET of that field replies with the frame.
pub proof fn law_hset_then_hget(
    s0: Store,
    s1: Store,
    s2: Store,
    key: Seq<char>,
    field: Seq<char>,
    value: Frame,
    r1: Frame,
    r2: Frame,
)
    requires
        executed(Request::HSet { key, field, value }, s0, s1, r1),
        executed(Request::HGet { key, field }, s1, s2, r2),
    ensures
        r1 == ok_reply(),
        r2 == value,
        s2 == s1,
{
}

/// After HSET of a field, HGET of another field that the hash did not hold
/// replies with the null frame.
pub proof fn law_hset_then_hget_other(
    s0: Store,
    s1: Store,
    s2: Store,
    key: Seq<char>,
    field: Seq<char>,
    value: Frame,
    other: Seq<char>,
    r1: Frame,
    r2: Frame,
)
    requires
        executed(Request::HSet { key, field, value }, s0, s1, r1),
        executed(Request::HGet { key, field: other }, s1, s2, r2),
        other != field,
        s0.hget(key, other) is None,
    ensures
        r2 == Frame::Null,
{
}

/// After HSET of a field, the reply to HGETALL holds the field and its
/// frame as one of its pairs.
pub proof fn law_hset_then_hgetall(
    s0: Store,
    s1: Store,
    s2: Store,
    key: Seq<char>,
    field: Seq<char>,
    value: Frame,
    r1: Frame,
    r2: Frame,
)
    requires
        executed(Request::HSet { key, field, value }, s0, s1, r1),
        executed(Request::HGetAll { key }, s1, s2, r2),
    ensures
        r2 matches Frame::Array(Some(items)) && exists|i: int|
            0 <= i < items.len() / 2 && #[trigger] key_at(items, i) == key_frame(field)
                && value_at(items, i) == value,
{
    let items = r2->Array_0->0;
    let h = s1.hgetall(key)->0;
    assert(h.contains_key(field));
    let i = choose|i: int|
        0 <= i < items.len() / 2 && #[trigger] key_at(items, i) == key_frame(field);
    assert(pair_from(items, i, h));
    let k = choose|k: Seq<char>| #[trigger]
        h.contains_key(k) && key_at(items, i) == key_frame(k) && value_at(items, i) == h[k];
    lemma_same_bytes(k, field);
}

/// SADD of a frame that the set does not hold replies 1, SADD of it once
/// more replies 0, and SISMEMBER replies 1 after either.
pub proof fn law_sadd_twice(
    s0: Store,
    s1: Store,
    s2: Store,
    s3: Store,
    key: Seq<char>,
    member: Frame,
    r1: Frame,
    r2: Frame,
    r3: Frame,
)
    requires
        !s0.sismember(member),
        executed(Request::SAdd { key, value: member }, s0, s1, r1),
        executed(Request::SAdd { key, value: member }, s1, s2, r2),
        executed(Request::SIsmember { key, value: member }, s2, s3, r3),
    ensures
        r1 == Frame::Integer(1),
        r2 == Frame::Integer(0),
        r3 == Frame::Integer(1),
        s2 == s1,
{
    assert(s1.set.insert(member) =~= s1.set);
}

/// GET of a key that the store does not hold replies with the null frame.
pub proof fn law_get_missing(s0: Store, s1: Store, key: Seq<char>, r: Frame)
    requires
        !s0.map.contains_key(key),
        executed(Request::Get { key }, s0, s1, r),
    ensures
        r == Frame::Null,
        s1 == s0,
{
}

/// HGETALL of a key under which there is no hash replies with the empty
/// array.
pub proof fn law_hgetall_missing(s0: Store, s1: Store, key: Seq<char>, r: Frame)
    requires
        !s0.hmap.contains_key(key),
        executed(Request::HGetAll { key }, s0, s1, r),
    ensures
        r == Frame::Array(Some(Seq::empty())),
        s1 == s0,
{
}

/// SET of two different keys comes to the same store in either order: no
/// binding is lost.
pub proof fn law_sets_of_distinct_keys_commute(
    s: Store,
    k1: Seq<char>,
    v1: Frame,
    k2: Seq<char>,
    v2: Frame,
)
    requires
        k1 != k2,
    ensures
        s.set(k1, v1).set(k2, v2) == s.set(k2, v2).set(k1, v1),
        s.set(k1, v1).set(k2, v2).get(k1) == Some(v1),
        s.set(k1, v1).set(k2, v2).get(k2) == Some(v2),
{
    assert(s.map.insert(k1, v1).insert(k2, v2) =~= s.map.insert(k2, v2).insert(k1, v1));
}

/// HSET of two different fields of one hash comes to the same store in
/// either order, and the hash holds both fields.
pub proof fn law_hsets_of_distinct_fields_commute(
    s: Store,
    key: Seq<char>,
    f1: Seq<char>,
    v1: Frame,
    f2: Seq<char>,
    v2: Frame,
)
    requires
        f1 != f2,
    ensures
        s.hset(key, f1, v1).hset(key, f2, v2) == s.hset(key, f2, v2).hset(key, f1, v1),
        s.hset(key, f1, v1).hset(key, f2, v2).hget(key, f1) == Some(v1),
        s.hset(key, f1, v1).hset(key, f2, v2).hget(key, f2) == Some(v2),
{
    let a = s.hset(key, f1, v1).hset(key, f2, v2);
    let b = s.hset(key, f2, v2).hset(key, f1, v1);
    assert(a.hmap[key] =~= b.hmap[key]);
    assert(a.hmap =~= b.hmap);
}

/// The store after SET of each of `pairs`, one after the other.
pub open spec fn set_all(s: Store, pairs: Seq<(Seq<char>, Frame)>) -> Store
    decreases pairs.len(),
{
    if pairs.len() == 0 {
        s
    } else {
        set_all(s, pairs.drop_last()).set(pairs.last().0, pairs.last().1)
    }
}

/// The store after HSET of each of `pairs` as field and frame of the hash
/// under `key`, one after the other.
pub open spec fn hset_all(s: Store, key: Seq<char>, pairs: Seq<(Seq<char>, Frame)>) -> Store
    decreases pairs.len(),
{
    if pairs.len() == 0 {
        s
    } else {
        hset_all(s, key, pairs.drop_last()).hset(key, pairs.last().0, pairs.last().1)
    }
}

/// Whether no key stands twice in `pairs`.
pub open spec fn distinct_keys(pairs: Seq<(Seq<char>, Frame)>) -> bool {
    forall|i: int, j: int|
        0 <= i < j < pairs.len() ==> (#[trigger] pairs[i]).0 != (#[trigger] pairs[j]).0
}

/// SET of any number of different keys, one after the other, loses none:
/// afterwards each key is bound to its frame.
pub proof fn law_sets_of_distinct_keys_keep_all(
    s: Store,
    pairs: Seq<(Seq<char>, Frame)>,
    i: int,
)
    requires
        distinct_keys(pairs),
        0 <= i < pairs.len(),
    ensures
        set_all(s, pairs).get(pairs[i].0) == Some(pairs[i].1),
    decreases pairs.len(),
{
    let front = pairs.drop_last();
    if i < pairs.len() - 1 {
        assert(front[i] == pairs[i]);
        assert forall|a: int, b: int| 0 <= a < b < front.len() implies (#[trigger] front[a]).0 != (
        #[trigger] front[b]).0 by {
            assert(front[a] == pairs[a] && front[b] == pairs[b]);
        }
        law_sets_of_distinct_keys_keep_all(s, front, i);
        assert(pairs[i].0 != pairs[pairs.len() - 1].0);
    }
}

/// HSET of any number of different fields of one hash, one after the other,
/// loses none: afterwards the hash holds each field with its frame.
pub proof fn law_hsets_of_distinct_fields_keep_all(
    s: Store,
    key: Seq<char>,
    pairs: Seq<(Seq<char>, Frame)>,
    i: int,
)
    requires
        distinct_keys(pairs),
        0 <= i < pairs.len(),
    ensures
        hset_all(s, key, pairs).hget(key, pairs[i].0) == Some(pairs[i].1),
    decreases pairs.len(),
{
    let front = pairs.drop_last();
    if i < pairs.len() - 1 {
        assert(front[i] == pairs[i]);
        assert forall|a: int, b: int| 0 <= a < b < front.len() implies (#[trigger] front[a]).0 != (
        #[trigger] front[b]).0 by {
            assert(front[a] == pairs[a] && front[b] == pairs[b]);
        }
        law_hsets_of_distinct_fields_keep_all(s, key, front, i);
        assert(pairs[i].0 != pairs[pairs.len() - 1].0);
    }
}

} // verus!
