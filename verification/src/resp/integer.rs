//! Integers.
use bytes::BytesMut;
use crate::resp::buffer::{buffer_advance, buffer_bytes};
use crate::resp::frame::{write_frame, RespFrame};
use crate::resp::reader::{integer_parse, line_expect_length};
use crate::resp::{RespDecode, RespEncode, RespError};
use crate::resp::wire::{encode_frame, integer_value, line_span, Fault, Frame, INTEGER_TAG};
use vstd::prelude::*;

verus! {

impl RespEncode for i64 {
    open spec fn frame(&self) -> Frame {
        Frame::Integer(*self)
    }

    fn encode(self) -> (bytes: Vec<u8>) {
        let mut out: Vec<u8> = Vec::new();
        write_frame(&RespFrame::Integer(self), &mut out);
        assert(out@ =~= encode_frame(Frame::Integer(self)));
        out
    }
}

impl RespDecode for i64 {
    open spec fn span(s: Seq<u8>) -> Result<nat, Fault> {
        line_span(s, seq![INTEGER_TAG])
    }

    open spec fn value(s: Seq<u8>) -> Result<(Frame, nat), Fault> {
        integer_value(s)
    }

    fn decode(buf: &mut BytesMut) -> (r: Result<Self, RespError>) {
        let data = buffer_bytes(buf);
        let len = data.len();
        let span = match Self::expect_length(data) {
            Ok(n) => n,
            Err(e) => {
                return Err(e);
            },
        };
        if span > len {
            return Err(RespError::NotComplete);
        }
        match integer_parse(data) {
            Ok((v, used)) => {
                buffer_advance(buf, used);
                Ok(v)
            },
            Err(e) => Err(e),
        }
    }

    fn expect_length(buf: &[u8]) -> (r: Result<usize, RespError>) {
        let tag = [INTEGER_TAG];
        assert(tag@ =~= seq![INTEGER_TAG]);
        line_expect_length(buf, tag.as_slice())
    }
}

} // verus!
