//! Bulk strings.
use bytes::BytesMut;
use crate::resp::buffer::{buffer_advance, buffer_bytes};
use crate::resp::frame::write_bulk;
use crate::resp::reader::{bulk_expect_length, bulk_parse};
use crate::resp::{RespDecode, RespEncode, RespError};
use crate::resp::source::IntoPayload;
use crate::resp::wire::{bulk_span, bulk_value, encode_frame, Fault, Frame};
use vstd::prelude::*;
use vstd::slice::slice_to_vec;

verus! {

/// A bulk string: any bytes, or the null bulk string.
#[derive(Debug, PartialEq, Eq, PartialOrd, Ord, Hash)]
pub struct BulkString(pub Option<Vec<u8>>);

impl View for BulkString {
    type V = Option<Seq<u8>>;

    open spec fn view(&self) -> Option<Seq<u8>> {
        match self.0 {
            Some(v) => Some(v@),
            None => None,
        }
    }
}

impl BulkString {
    /// The bulk string of the bytes that `b` gives.
    pub fn new<T: IntoPayload>(b: T) -> (r: Self)
        ensures
            r@ == Some(b.payload()),
    {
        BulkString(Some(b.into_payload()))
    }

    /// The null bulk string.
    pub fn null() -> (r: Self)
        ensures
            r@ == None::<Seq<u8>>,
    {
        BulkString(None)
    }

    /// The payload; empty for the null bulk string.
    pub fn as_bytes(&self) -> (r: &[u8])
        ensures
            r@ == (match self@ {
                Some(b) => b,
                None => Seq::empty(),
            }),
    {
        match &self.0 {
            Some(data) => data.as_slice(),
            None => &[],
        }
    }
}

impl Clone for BulkString {
    fn clone(&self) -> (r: Self)
        ensures
            r@ == self@,
    {
        match &self.0 {
            Some(data) => BulkString(Some(slice_to_vec(data.as_slice()))),
            None => BulkString(None),
        }
    }
}

impl RespEncode for BulkString {
    open spec fn frame(&self) -> Frame {
        Frame::BulkString(self@)
    }

    fn encode(self) -> (bytes: Vec<u8>) {
        let mut out: Vec<u8> = Vec::new();
        write_bulk(&self, &mut out);
        assert(out@ =~= encode_frame(Frame::BulkString(self@)));
        out
    }
}

impl RespDecode for BulkString {
    open spec fn span(s: Seq<u8>) -> Result<nat, Fault> {
        bulk_span(s)
    }

    open spec fn value(s: Seq<u8>) -> Result<(Frame, nat), Fault> {
        bulk_value(s)
    }

    fn decode(buf: &mut BytesMut) -> (r: Result<Self, RespError>) {
        let data = buffer_bytes(buf);
        let len = data.len();
        let span = match Self::expect_length(data) {
            Ok(n) => n,
            Err(e) => {
                return Err(e);
            },
        };
        if span > len {
            return Err(RespError::NotComplete);
        }
        match bulk_parse(data) {
            Ok((v, used)) => {
                buffer_advance(buf, used);
                Ok(v)
            },
            Err(e) => Err(e),
        }
    }

    fn expect_length(buf: &[u8]) -> (r: Result<usize, RespError>) {
        bulk_expect_length(buf)
    }
}

impl AsRef<[u8]> for BulkString {
    /// The payload; empty for the null bulk string.
    fn as_ref(&self) -> (r: &[u8])
        ensures
            r@ == (match self@ {
                Some(b) => b,
                None => Seq::empty(),
            }),
    {
        self.as_bytes()
    }
}

impl core::ops::Deref for BulkString {
    type Target = [u8];

    /// The payload; empty for the null bulk string.
    fn deref(&self) -> (r: &[u8])
        ensures
            r@ == (match self@ {
                Some(b) => b,
                None => Seq::empty(),
            }),
    {
        self.as_bytes()
    }
}

} // verus!
