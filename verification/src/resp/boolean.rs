//! Booleans.
use bytes::BytesMut;
use crate::resp::buffer::{buffer_advance, buffer_bytes};
use crate::resp::frame::{write_frame, RespFrame};
use crate::resp::reader::boolean_parse;
use crate::resp::{RespDecode, RespEncode, RespError};
use crate::resp::wire::{boolean_span, boolean_value, encode_frame, Fault, Frame};
use vstd::prelude::*;

verus! {

impl RespEncode for bool {
    open spec fn frame(&self) -> Frame {
        Frame::Boolean(*self)
    }

    fn encode(self) -> (bytes: Vec<u8>) {
        let mut out: Vec<u8> = Vec::new();
        write_frame(&RespFrame::Boolean(self), &mut out);
        assert(out@ =~= encode_frame(Frame::Boolean(self)));
        out
    }
}

impl RespDecode for bool {
    open spec fn span(s: Seq<u8>) -> Result<nat, Fault> {
        boolean_span()
    }

    open spec fn value(s: Seq<u8>) -> Result<(Frame, nat), Fault> {
        boolean_value(s)
    }

    fn decode(buf: &mut BytesMut) -> (r: Result<Self, RespError>) {
        let data = buffer_bytes(buf);
        let len = data.len();
        let span = match Self::expect_length(data) {
            Ok(n) => n,
            Err(e) => {
                return Err(e);
            },
        };
        if span > len {
            return Err(RespError::NotComplete);
        }
        match boolean_parse(data) {
            Ok((v, used)) => {
                buffer_advance(buf, used);
                Ok(v)
            },
            Err(e) => Err(e),
        }
    }

    fn expect_length(buf: &[u8]) -> (r: Result<usize, RespError>) {
        Ok(4)
    }
}

} // verus!
