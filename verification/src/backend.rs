//! The store behind the commands: a map of frames, a map of hashes, and a
//! set of frames.
pub mod store;

use crate::backend::store::{
    guard_hash, hash_entries, hash_guard, hash_put, hash_take, lists, map_copy, map_entries,
    map_get, map_insert, map_list, new_hashes, new_map, new_set, set_contains, set_insert,
    set_members, with_field, Entries, Hashes,
};
use crate::resp::bulk_string::BulkString;
use crate::resp::frame::RespFrame;
use crate::resp::wire::Frame;
use dashmap::{DashMap, DashSet};
use vstd::prelude::*;
use vstd::string::{StringSliceAdditionalSpecFns, StrSliceExecFns};
use vstd::utf8::encode_utf8;

verus! {

/// What a backend holds.
pub struct Store {
    /// The flat store: a frame under each key.
    pub map: Entries,
    /// The hash store: under each key, a frame under each field.
    pub hmap: Hashes,
    /// The set of frames.
    pub set: Set<Frame>,
}

/// The three collections of a backend.
#[derive(Debug)]
pub struct BackendInner {
    pub map: DashMap<String, RespFrame>,
    pub hmap: DashMap<String, DashMap<String, RespFrame>>,
    pub set: DashSet<RespFrame>,
}

/// The store that the commands read and change.
#[derive(Debug)]
pub struct Backend(pub BackendInner);

/// What adding to the set came to.
#[derive(Debug, Clone, Copy, PartialEq, Eq)]
pub enum SAddOutcome {
    /// The member is new.
    Added,
    /// The set held the member already.
    Existed,
    /// Kept for a set that refuses a member; this store never does.
    Error,
}

impl View for Backend {
    type V = Store;

    open spec fn view(&self) -> Store {
        Store {
            map: map_entries(self.0.map),
            hmap: hash_entries(self.0.hmap),
            set: set_members(self.0.set),
        }
    }
}

impl Store {
    /// A store that holds nothing.
    pub open spec fn empty() -> Store {
        Store { map: Entries::empty(), hmap: Hashes::empty(), set: Set::empty() }
    }

    /// The frame under `key`, if any.
    pub open spec fn get(self, key: Seq<char>) -> Option<Frame> {
        if self.map.contains_key(key) {
            Some(self.map[key])
        } else {
            None
        }
    }

    /// The store with `key` bound to `value`.
    pub open spec fn set(self, key: Seq<char>, value: Frame) -> Store {
        Store { map: self.map.insert(key, value), ..self }
    }

    /// The frame under `field` of the hash under `key`, if both are there.
    pub open spec fn hget(self, key: Seq<char>, field: Seq<char>) -> Option<Frame> {
        if self.hmap.contains_key(key) && self.hmap[key].contains_key(field) {
            Some(self.hmap[key][field])
        } else {
            None
        }
    }

    /// The store with `field` bound to `value` in the hash under `key`.
    pub open spec fn hset(self, key: Seq<char>, field: Seq<char>, value: Frame) -> Store {
        Store { hmap: with_field(self.hmap, key, field, value), ..self }
    }

    /// The hash under `key`, if any.
    pub open spec fn hgetall(self, key: Seq<char>) -> Option<Entries> {
        if self.hmap.contains_key(key) {
            Some(self.hmap[key])
        } else {
            None
        }
    }

    /// The store with `member` in the set.
    pub open spec fn sadd(self, member: Frame) -> Store {
        Store { set: self.set.insert(member), ..self }
    }

    /// Whether the set holds `member`.
    pub open spec fn sismember(self, member: Frame) -> bool {
        self.set.contains(member)
    }
}

impl Backend {
    /// A backend that holds nothing.
    pub fn new() -> (r: Self)
        ensures
            r@ == Store::empty(),
    {
        Backend::default()
    }

    /// The frame under `key`, if any.
    pub fn get(&self, key: &str) -> (r: Option<RespFrame>)
        ensures
            r is Some <==> self@.get(key@) is Some,
            r matches Some(f) ==> Some(f@) == self@.get(key@),
    {
        map_get(&self.0.map, key)
    }

    /// Binds `key` to `value`; what the key held is dropped.
    pub fn set(&mut self, key: String, value: RespFrame)
        ensures
            final(self)@ == old(self)@.set(key@, value@),
    {
        map_insert(&mut self.0.map, key, value);
    }

    /// The frame under `field` of the hash under `key`, if both are there.
    pub fn hget(&self, key: &str, field: &str) -> (r: Option<RespFrame>)
        ensures
            r is Some <==> self@.hget(key@, field@) is Some,
            r matches Some(f) ==> Some(f@) == self@.hget(key@, field@),
    {
        match hash_guard(&self.0.hmap, key) {
            Some(guard) => map_get(guard_hash(&guard), field),
            None => None,
        }
    }

    /// Binds `field` to `value` in the hash under `key`, which is made where
    /// it is not there.
    pub fn hset(&mut self, key: String, field: String, value: RespFrame)
        ensures
            final(self)@ == old(self)@.hset(key@, field@, value@),
    {
        let mut hash = match hash_take(&mut self.0.hmap, key.as_str()) {
            Some(hash) => hash,
            None => new_map(),
        };
        map_insert(&mut hash, field, value);
        hash_put(&mut self.0.hmap, key, hash);
        assert(self@.hmap =~= with_field(old(self)@.hmap, key@, field@, value@));
    }

    /// The hash under `key`, as a map of its own; `None` where there is no
    /// such hash.
    pub fn hgetall(&self, key: &str) -> (r: Option<DashMap<String, RespFrame>>)
        ensures
            r is Some <==> self@.hgetall(key@) is Some,
            r matches Some(h) ==> Some(map_entries(h)) == self@.hgetall(key@),
    {
        match hash_guard(&self.0.hmap, key) {
            Some(guard) => Some(map_copy(guard_hash(&guard))),
            None => None,
        }
    }

    /// The entries of the hash under `key`, each once and in no fixed order;
    /// `None` where there is no such hash.
    pub fn hash_listing(&self, key: &str) -> (r: Option<Vec<(String, RespFrame)>>)
        ensures
            r is Some <==> self@.hgetall(key@) is Some,
            r matches Some(v) ==> lists(v@, self@.hgetall(key@)->0),
    {
        match hash_guard(&self.0.hmap, key) {
            Some(guard) => Some(map_list(guard_hash(&guard))),
            None => None,
        }
    }

    /// Adds `member` to the set. The set is one for all keys: `key` names no
    /// set of its own.
    pub fn sadd(&mut self, key: String, member: RespFrame) -> (r: SAddOutcome)
        ensures
            final(self)@ == old(self)@.sadd(member@),
            r == (if old(self)@.sismember(member@) {
                SAddOutcome::Existed
            } else {
                SAddOutcome::Added
            }),
    {
        if set_insert(&mut self.0.set, member) {
            SAddOutcome::Added
        } else {
            SAddOutcome::Existed
        }
    }

    /// Whether the set holds `member`, whatever `key` is.
    pub fn sismember(&self, key: String, member: &RespFrame) -> (r: bool)
        ensures
            r == self@.sismember(member@),
    {
        set_contains(&self.0.set, member)
    }

    /// The bulk string of the bytes of `value`.
    pub fn echo(&self, value: &str) -> (r: RespFrame)
        ensures
            r@ == Frame::BulkString(Some(encode_utf8(value@))),
    {
        RespFrame::BulkString(BulkString(Some(value.as_bytes_vec())))
    }
}

impl Default for BackendInner {
    fn default() -> (r: Self)
        ensures
            map_entries(r.map) == Entries::empty(),
            hash_entries(r.hmap) == Hashes::empty(),
            set_members(r.set) == Set::<Frame>::empty(),
    {
        BackendInner { map: new_map(), hmap: new_hashes(), set: new_set() }
    }
}

impl Default for Backend {
    fn default() -> (r: Self)
        ensures
            r@ == Store::empty(),
    {
        Backend(BackendInner::default())
    }
}

} // verus!
