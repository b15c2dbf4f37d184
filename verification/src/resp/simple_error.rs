//! Simple errors.
use bytes::BytesMut;
use crate::resp::buffer::{buffer_advance, buffer_bytes};
use crate::resp::frame::{write_frame, RespFrame};
use crate::resp::reader::{line_expect_length, simple_error_parse};
use crate::resp::{RespDecode, RespEncode, RespError};
use crate::resp::source::IntoText;
use crate::resp::wire::{encode_frame, line_span, simple_error_value, Fault, Frame, ERROR_TAG};
use vstd::prelude::*;
use vstd::utf8::encode_utf8;

verus! {

/// A simple error: one line of text that reports a failure.
#[derive(Debug, PartialEq, Eq, PartialOrd, Ord, Hash)]
pub struct SimpleError(pub String);

impl View for SimpleError {
    type V = Seq<u8>;

    /// The UTF-8 bytes of the text.
    open spec fn view(&self) -> Seq<u8> {
        encode_utf8(self.0@)
    }
}

impl SimpleError {
    /// The simple error of the text that `e` gives.
    pub fn new<T: IntoText>(e: T) -> (r: Self)
        ensures
            r.0@ == e.text(),
    {
        SimpleError(e.into_text())
    }
}

impl Clone for SimpleError {
    fn clone(&self) -> (r: Self)
        ensures
            r == *self,
    {
        SimpleError(self.0.clone())
    }
}

impl RespEncode for SimpleError {
    open spec fn frame(&self) -> Frame {
        Frame::Error(self@)
    }

    fn encode(self) -> (bytes: Vec<u8>) {
        let mut out: Vec<u8> = Vec::new();
        write_frame(&RespFrame::Error(self), &mut out);
        assert(out@ =~= encode_frame(Frame::Error(self@)));
        out
    }
}

impl RespDecode for SimpleError {
    open spec fn span(s: Seq<u8>) -> Result<nat, Fault> {
        line_span(s, seq![ERROR_TAG])
    }

    open spec fn value(s: Seq<u8>) -> Result<(Frame, nat), Fault> {
        simple_error_value(s)
    }

    fn decode(buf: &mut BytesMut) -> (r: Result<Self, RespError>) {
        let data = buffer_bytes(buf);
        let len = data.len();
        let span = match Self::expect_length(data) {
            Ok(n) => n,
            Err(e) => {
                return Err(e);
            },
        };
        if span > len {
            return Err(RespError::NotComplete);
        }
        match simple_error_parse(data) {
            Ok((v, used)) => {
                buffer_advance(buf, used);
                Ok(v)
            },
            Err(e) => Err(e),
        }
    }

    fn expect_length(buf: &[u8]) -> (r: Result<usize, RespError>) {
        let tag = [ERROR_TAG];
        assert(tag@ =~= seq![ERROR_TAG]);
        line_expect_length(buf, tag.as_slice())
    }
}

impl core::ops::Deref for SimpleError {
    type Target = String;

    fn deref(&self) -> (r: &String)
        ensures
            *r == self.0,
    {
        &self.0
    }
}

} // verus!
