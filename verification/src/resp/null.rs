//! The null frame.
use bytes::BytesMut;
use crate::resp::buffer::{buffer_advance, buffer_bytes};
use crate::resp::frame::{write_frame, RespFrame};
use crate::resp::reader::null_parse;
use crate::resp::{RespDecode, RespEncode, RespError};
use crate::resp::wire::{encode_frame, null_span, null_value, Fault, Frame};
use vstd::prelude::*;

verus! {

/// The null frame.
#[derive(Debug, Clone, Copy, PartialEq, Eq, PartialOrd, Ord, Hash)]
pub struct RespNull;

impl RespEncode for RespNull {
    open spec fn frame(&self) -> Frame {
        Frame::Null
    }

    fn encode(self) -> (bytes: Vec<u8>) {
        let mut out: Vec<u8> = Vec::new();
        write_frame(&RespFrame::Null(self), &mut out);
        assert(out@ =~= encode_frame(Frame::Null));
        out
    }
}

impl RespDecode for RespNull {
    open spec fn span(s: Seq<u8>) -> Result<nat, Fault> {
        null_span()
    }

    open spec fn value(s: Seq<u8>) -> Result<(Frame, nat), Fault> {
        null_value(s)
    }

    fn decode(buf: &mut BytesMut) -> (r: Result<Self, RespError>) {
        let data = buffer_bytes(buf);
        let len = data.len();
        let span = match Self::expect_length(data) {
            Ok(n) => n,
            Err(e) => {
                return Err(e);
            },
        };
        if span > len {
            return Err(RespError::NotComplete);
        }
        match null_parse(data) {
            Ok((v, used)) => {
                buffer_advance(buf, used);
                Ok(v)
            },
            Err(e) => Err(e),
        }
    }

    fn expect_length(buf: &[u8]) -> (r: Result<usize, RespError>) {
        Ok(3)
    }
}

} // verus!
