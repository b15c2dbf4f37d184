//! Sets.
use bytes::BytesMut;
use crate::resp::buffer::{buffer_advance, buffer_bytes};
use crate::resp::frame::{frames_model, lemma_frame_model, write_frame, RespFrame};
use crate::resp::reader::{set_expect_length, set_parse};
use crate::resp::{RespDecode, RespEncode, RespError};
use crate::resp::source::IntoFrames;
use crate::resp::wire::{encode_frame, set_span, set_value, Fault, Frame};
use vstd::prelude::*;

verus! {

/// A set of frames, kept in the order in which they were given.
#[derive(Debug, PartialEq, Eq, PartialOrd, Hash)]
pub struct RespSet(pub Vec<RespFrame>);

impl View for RespSet {
    type V = Seq<Frame>;

    open spec fn view(&self) -> Seq<Frame> {
        frames_model(self.0@)
    }
}

impl RespSet {
    /// The set of the frames that `s` gives, in their order.
    pub fn new<T: IntoFrames>(s: T) -> (r: Self)
        ensures
            r@ == s.frames(),
    {
        RespSet(s.into_frames())
    }
}

impl RespEncode for RespSet {
    open spec fn frame(&self) -> Frame {
        Frame::RespSet(self@)
    }

    fn encode(self) -> (bytes: Vec<u8>) {
        let mut out: Vec<u8> = Vec::new();
        let ghost model = Frame::RespSet(self@);
        let f = RespFrame::RespSet(self);
        proof {
            lemma_frame_model(f);
        }
        write_frame(&f, &mut out);
        assert(out@ =~= encode_frame(model));
        out
    }
}

impl RespDecode for RespSet {
    open spec fn span(s: Seq<u8>) -> Result<nat, Fault> {
        set_span(s)
    }

    open spec fn value(s: Seq<u8>) -> Result<(Frame, nat), Fault> {
        set_value(s)
    }

    fn decode(buf: &mut BytesMut) -> (r: Result<Self, RespError>) {
        let data = buffer_bytes(buf);
        let len = data.len();
        let span = match Self::expect_length(data) {
            Ok(n) => n,
            Err(e) => {
                return Err(e);
            },
        };
        if span > len {
            return Err(RespError::NotComplete);
        }
        match set_parse(data) {
            Ok((v, used)) => {
                buffer_advance(buf, used);
                Ok(v)
            },
            Err(e) => Err(e),
        }
    }

    fn expect_length(buf: &[u8]) -> (r: Result<usize, RespError>) {
        set_expect_length(buf)
    }
}

impl core::ops::Deref for RespSet {
    type Target = Vec<RespFrame>;

    fn deref(&self) -> (r: &Vec<RespFrame>)
        ensures
            *r == self.0,
    {
        &self.0
    }
}

} // verus!
