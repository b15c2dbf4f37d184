//! Maps, kept in the order of their keys.
use bytes::BytesMut;
use crate::resp::buffer::{buffer_advance, buffer_bytes};
use crate::resp::frame::{entries_model, lemma_frame_model, write_frame, RespFrame};
use crate::resp::order::lemma_insert_keeps_order;
use crate::resp::reader::{map_expect_length, map_parse};
use crate::resp::{RespDecode, RespEncode, RespError};
use crate::resp::wire::{
    encode_frame, key_less, key_less_at, key_position, key_position_from, keys_sorted, map_insert,
    map_span, map_value, Fault, Frame,
};
use vstd::prelude::*;
use vstd::string::{StringSliceAdditionalSpecFns, StrSliceExecFns};
use vstd::utf8::encode_utf8;

verus! {

/// A map from text keys to frames, kept as its entries in key order.
#[derive(Debug, PartialEq, Eq, PartialOrd, Hash)]
pub struct RespMap(pub Vec<(String, RespFrame)>);

impl View for RespMap {
    type V = Seq<(Seq<u8>, Frame)>;

    open spec fn view(&self) -> Seq<(Seq<u8>, Frame)> {
        entries_model(self.0@)
    }
}

/// Whether the key `a` stands before the key `b`: byte by byte, a prefix
/// before what extends it.
pub fn bytes_less(a: &[u8], b: &[u8]) -> (r: bool)
    ensures
        r == key_less(a@, b@),
{
    let mut k: usize = 0;
    while k < a.len() && k < b.len() && a[k] == b[k]
        invariant
            k <= a@.len(),
            k <= b@.len(),
            a@.take(k as int) =~= b@.take(k as int),
        decreases a@.len() - k,
    {
        assert(a@.take(k + 1) =~= a@.take(k as int).push(a@[k as int]));
        assert(b@.take(k + 1) =~= b@.take(k as int).push(b@[k as int]));
        k += 1;
    }
    let r = k < b.len() && (k == a.len() || a[k] < b[k]);
    proof {
        if r {
            assert(key_less_at(a@, b@, k as int));
        } else {
            assert forall|j: int| !key_less_at(a@, b@, j) by {
                if key_less_at(a@, b@, j) {
                    if j < k {
                        assert(a@.take(k as int)[j] == b@.take(k as int)[j]);
                    } else if j > k {
                        assert(a@.take(j)[k as int] == b@.take(j)[k as int]);
                    }
                }
            }
        }
    }
    r
}

/// Two strings with the same bytes are the same text.
pub proof fn lemma_same_bytes(a: Seq<char>, b: Seq<char>)
    requires
        encode_utf8(a) == encode_utf8(b),
    ensures
        a == b,
{
    vstd::utf8::encode_utf8_decode_utf8(a);
    vstd::utf8::encode_utf8_decode_utf8(b);
}

impl RespMap {
    /// A map without entries.
    pub fn new() -> (r: Self)
        ensures
            r@ == Seq::<(Seq<u8>, Frame)>::empty(),
    {
        let r = RespMap(Vec::new());
        assert(r@ =~= Seq::<(Seq<u8>, Frame)>::empty());
        r
    }

    /// The frame under `key`, if any.
    pub fn get(&self, key: &str) -> (r: Option<&RespFrame>)
        ensures
            match r {
                Some(f) => exists|i: int|
                    0 <= i < self@.len() && #[trigger] self@[i] == (encode_utf8(key@), f@),
                None => forall|i: int|
                    0 <= i < self@.len() ==> (#[trigger] self@[i]).0 != encode_utf8(key@),
            },
    {
        let mut i: usize = 0;
        while i < self.0.len()
            invariant
                i <= self.0@.len(),
                forall|j: int| 0 <= j < i ==> (#[trigger] self@[j]).0 != encode_utf8(key@),
            decreases self.0@.len() - i,
        {
            if self.0[i].0.as_str().as_bytes_vec() == key.as_bytes_vec() {
                assert(self@[i as int] == (encode_utf8(key@), self.0@[i as int].1@));
                return Some(&self.0[i].1);
            }
            i += 1;
        }
        None
    }

    /// The number of entries.
    pub fn len(&self) -> (n: usize)
        ensures
            n == self@.len(),
    {
        self.0.len()
    }

    /// Binds `key` to `value`: in place of the value that the key had, or as
    /// a new entry at the place that keeps the keys in order.
    pub fn insert(&mut self, key: String, value: RespFrame)
        ensures
            final(self)@ == map_insert(old(self)@, encode_utf8(key@), value@),
            keys_sorted(old(self)@) ==> keys_sorted(final(self)@),
    {
        proof {
            if keys_sorted(self@) {
                lemma_insert_keeps_order(self@, encode_utf8(key@), value@);
            }
        }
        let ghost before = self@;
        let ghost k = encode_utf8(key@);
        let mut p: usize = 0;
        while p < self.0.len() && bytes_less(
            self.0[p].0.as_str().as_bytes(),
            key.as_str().as_bytes(),
        )
            invariant
                p <= self.0@.len(),
                self@ == before,
                k == encode_utf8(key@),
                key_position(before, k) == key_position_from(before, k, p as int),
            decreases self.0@.len() - p,
        {
            p += 1;
        }
        assert(key_position(before, k) == p);
        if p < self.0.len() && self.0[p].0 == key {
            self.0.set(p, (key, value));
            assert(self@ =~= before.update(p as int, (k, value@)));
        } else {
            proof {
                if p < before.len() && before[p as int].0 == k {
                    lemma_same_bytes(self.0@[p as int].0@, key@);
                }
            }
            self.0.insert(p, (key, value));
            assert(self@ =~= before.take(p as int) + seq![(k, value@)] + before.skip(p as int));
        }
    }
}

impl RespEncode for RespMap {
    open spec fn frame(&self) -> Frame {
        Frame::RespMap(self@)
    }

    fn encode(self) -> (bytes: Vec<u8>) {
        let mut out: Vec<u8> = Vec::new();
        let ghost model = Frame::RespMap(self@);
        let f = RespFrame::RespMap(self);
        proof {
            lemma_frame_model(f);
        }
        write_frame(&f, &mut out);
        assert(out@ =~= encode_frame(model));
        out
    }
}

impl RespDecode for RespMap {
    open spec fn span(s: Seq<u8>) -> Result<nat, Fault> {
        map_span(s)
    }

    open spec fn value(s: Seq<u8>) -> Result<(Frame, nat), Fault> {
        map_value(s)
    }

    fn decode(buf: &mut BytesMut) -> (r: Result<Self, RespError>) {
        let data = buffer_bytes(buf);
        let len = data.len();
        let span = match Self::expect_length(data) {
            Ok(n) => n,
            Err(e) => {
                return Err(e);
            },
        };
        if span > len {
            return Err(RespError::NotComplete);
        }
        match map_parse(data) {
            Ok((v, used)) => {
                buffer_advance(buf, used);
                Ok(v)
            },
            Err(e) => Err(e),
        }
    }

    fn expect_length(buf: &[u8]) -> (r: Result<usize, RespError>) {
        map_expect_length(buf)
    }
}

impl Default for RespMap {
    fn default() -> (r: Self)
        ensures
            r@ == Seq::<(Seq<u8>, Frame)>::empty(),
    {
        RespMap::new()
    }
}

} // verus!
