//! The sharded maps of `dashmap`, as far as the backend uses them. Each map
//! is held by one owner here, so a call sees what the calls before it left.
use crate::resp::frame::RespFrame;
use crate::resp::wire::Frame;
use dashmap::{DashMap, DashSet};
use dashmap::mapref::one::Ref;
use vstd::prelude::*;

verus! {

/// `dashmap::DashMap`, a hash map in shards. Nothing of its inside is known
/// here: what it holds goes by the names `map_entries` and `hash_entries`.
#[verifier::external_type_specification]
#[verifier::external_body]
#[verifier::reject_recursive_types(K)]
#[verifier::reject_recursive_types(V)]
#[verifier::reject_recursive_types(S)]
pub struct ExDashMap<K, V, S>(DashMap<K, V, S>);

/// `dashmap::DashSet`, a hash set in shards. What it holds goes by the name
/// `set_members`.
#[verifier::external_type_specification]
#[verifier::external_body]
#[verifier::reject_recursive_types(K)]
#[verifier::reject_recursive_types(S)]
pub struct ExDashSet<K, S>(DashSet<K, S>);

/// `dashmap::mapref::one::Ref`, the guard that `DashMap::get` hands out for
/// one entry. While it lives, the map it came from is borrowed.
#[verifier::external_type_specification]
#[verifier::external_body]
#[verifier::reject_recursive_types(K)]
#[verifier::reject_recursive_types(V)]
#[verifier::reject_recursive_types(S)]
pub struct ExRef<'a, K, V, S>(Ref<'a, K, V, S>);

/// Frames by key.
pub type Entries = Map<Seq<char>, Frame>;

/// Hashes by key: each a map from field to frame.
pub type Hashes = Map<Seq<char>, Entries>;

/// What a map of frames holds: the frame under each key.
pub uninterp spec fn map_entries(m: DashMap<String, RespFrame>) -> Entries;

/// What a map of hashes holds: under each key, the frames by field.
pub uninterp spec fn hash_entries(m: DashMap<String, DashMap<String, RespFrame>>) -> Hashes;

/// What the hash holds to which a guard gives access.
pub uninterp spec fn guarded(g: Ref<'_, String, DashMap<String, RespFrame>>) -> Entries;

/// What a set of frames holds.
pub uninterp spec fn set_members(s: DashSet<RespFrame>) -> Set<Frame>;

/// `DashMap::new`: a map that holds nothing.
#[verifier::external_body]
pub(crate) fn new_map() -> (m: DashMap<String, RespFrame>)
    ensures
        map_entries(m) == Entries::empty(),
{
    DashMap::new()
}

/// `DashMap::new`, for the map of hashes: a map that holds nothing.
#[verifier::external_body]
pub(crate) fn new_hashes() -> (m: DashMap<String, DashMap<String, RespFrame>>)
    ensures
        hash_entries(m) == Hashes::empty(),
{
    DashMap::new()
}

/// `DashSet::new`: a set that holds nothing.
#[verifier::external_body]
pub(crate) fn new_set() -> (s: DashSet<RespFrame>)
    ensures
        set_members(s) == Set::<Frame>::empty(),
{
    DashSet::new()
}

/// `DashMap::get`, with the value cloned out of the guard: the frame under
/// `key`, where the map holds the key.
#[verifier::external_body]
pub(crate) fn map_get(m: &DashMap<String, RespFrame>, key: &str) -> (r: Option<RespFrame>)
    ensures
        r is Some <==> map_entries(*m).contains_key(key@),
        r matches Some(f) ==> f@ == map_entries(*m)[key@],
{
    m.get(key).map(|v| v.value().clone())
}

/// `DashMap::insert`: binds `key` to `value`, in place of what the key held.
#[verifier::external_body]
pub(crate) fn map_insert(m: &mut DashMap<String, RespFrame>, key: String, value: RespFrame)
    ensures
        map_entries(*final(m)) == map_entries(*old(m)).insert(key@, value@),
{
    m.insert(key, value);
}

/// `DashMap::get` on the map of hashes: a guard for the hash under `key`,
/// where there is one.
#[verifier::external_body]
pub(crate) fn hash_guard<'a>(
    m: &'a DashMap<String, DashMap<String, RespFrame>>,
    key: &str,
) -> (r: Option<Ref<'a, String, DashMap<String, RespFrame>>>)
    ensures
        r is Some <==> hash_entries(*m).contains_key(key@),
        r matches Some(g) ==> guarded(g) == hash_entries(*m)[key@],
{
    m.get(key)
}

/// `Ref::value`: the hash to which the guard gives access.
#[verifier::external_body]
pub(crate) fn guard_hash<'a, 'b>(
    g: &'b Ref<'a, String, DashMap<String, RespFrame>>,
) -> (h: &'b DashMap<String, RespFrame>)
    ensures
        map_entries(*h) == guarded(*g),
{
    g.value()
}

/// `DashMap::remove` on the map of hashes: takes the hash under `key` out
/// of the map and hands it over, where there is one.
#[verifier::external_body]
pub(crate) fn hash_take(
    m: &mut DashMap<String, DashMap<String, RespFrame>>,
    key: &str,
) -> (r: Option<DashMap<String, RespFrame>>)
    ensures
        r is Some <==> hash_entries(*old(m)).contains_key(key@),
        r matches Some(h) ==> map_entries(h) == hash_entries(*old(m))[key@],
        hash_entries(*final(m)) == hash_entries(*old(m)).remove(key@),
{
    m.remove(key).map(|entry| entry.1)
}

/// `DashMap::insert` on the map of hashes: puts `hash` under `key`, in
/// place of what the key held.
#[verifier::external_body]
pub(crate) fn hash_put(
    m: &mut DashMap<String, DashMap<String, RespFrame>>,
    key: String,
    hash: DashMap<String, RespFrame>,
)
    ensures
        hash_entries(*final(m)) == hash_entries(*old(m)).insert(key@, map_entries(hash)),
{
    m.insert(key, hash);
}

/// `DashMap::clone`: a map of its own that holds what `m` holds.
#[verifier::external_body]
pub(crate) fn map_copy(m: &DashMap<String, RespFrame>) -> (r: DashMap<String, RespFrame>)
    ensures
        map_entries(r) == map_entries(*m),
{
    m.clone()
}

/// `DashMap::iter`, each entry cloned: the entries of the map, each once,
/// in the order in which the shards are walked, which nothing fixes.
#[verifier::external_body]
pub(crate) fn map_list(m: &DashMap<String, RespFrame>) -> (r: Vec<(String, RespFrame)>)
    ensures
        lists(r@, map_entries(*m)),
{
    m.iter().map(|e| (e.key().clone(), e.value().clone())).collect()
}

/// `DashSet::insert`: adds `member`, and tells whether it was new. The set
/// tells its members apart by the equality and the hash that are derived
/// for frames, which go part by part, as the equality of their models does.
#[verifier::external_body]
pub(crate) fn set_insert(s: &mut DashSet<RespFrame>, member: RespFrame) -> (added: bool)
    ensures
        set_members(*final(s)) == set_members(*old(s)).insert(member@),
        added == !set_members(*old(s)).contains(member@),
{
    s.insert(member)
}

/// `DashSet::contains`: whether the set holds `member`.
#[verifier::external_body]
pub(crate) fn set_contains(s: &DashSet<RespFrame>, member: &RespFrame) -> (found: bool)
    ensures
        found == set_members(*s).contains(member@),
{
    s.contains(member)
}

/// The fields of the hash under `key`; none where there is no such hash.
pub open spec fn fields_of(hashes: Hashes, key: Seq<char>) -> Entries {
    if hashes.contains_key(key) {
        hashes[key]
    } else {
        Entries::empty()
    }
}

/// `hashes` with `field` bound to `value` in the hash under `key`, which is
/// made where it is not there.
pub open spec fn with_field(
    hashes: Hashes,
    key: Seq<char>,
    field: Seq<char>,
    value: Frame,
) -> Hashes {
    hashes.insert(key, fields_of(hashes, key).insert(field, value))
}

/// Whether `v` lists the entries of `entries`: each key once, with its
/// frame, and no other.
pub open spec fn lists(v: Seq<(String, RespFrame)>, entries: Entries) -> bool {
    &&& forall|i: int|
        0 <= i < v.len() ==> entries.contains_key((#[trigger] v[i]).0@) && entries[v[i].0@]
            == v[i].1@
    &&& forall|i: int, j: int| 0 <= i < j < v.len() ==> (#[trigger] v[i]).0@ != (#[trigger] v[j]).0@
    &&& forall|k: Seq<char>|
        entries.contains_key(k) ==> exists|i: int|
            0 <= i < v.len() && (#[trigger] v[i]).0@ == k
}

} // verus!
