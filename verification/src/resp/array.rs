//! Arrays.
use bytes::BytesMut;
use crate::resp::buffer::{buffer_advance, buffer_bytes};
use crate::resp::frame::{frames_model, lemma_frame_model, write_frame, RespFrame};
use crate::resp::reader::{array_expect_length, array_parse};
use crate::resp::{RespDecode, RespEncode, RespError};
use crate::resp::source::IntoFrames;
use crate::resp::wire::{array_span, array_value, encode_frame, Fault, Frame};
use vstd::prelude::*;

verus! {

/// An array of frames, or the null array.
#[derive(Debug, PartialEq, Eq, PartialOrd, Hash)]
pub struct RespArray(pub Option<Vec<RespFrame>>);

impl View for RespArray {
    type V = Option<Seq<Frame>>;

    open spec fn view(&self) -> Option<Seq<Frame>> {
        match self.0 {
            Some(v) => Some(frames_model(v@)),
            None => None,
        }
    }
}

impl RespArray {
    /// The array of the frames that `a` gives.
    pub fn new<T: IntoFrames>(a: T) -> (r: Self)
        ensures
            r@ == Some(a.frames()),
    {
        RespArray(Some(a.into_frames()))
    }

    /// The null array.
    pub fn null() -> (r: Self)
        ensures
            r.0 == None::<Vec<RespFrame>>,
    {
        RespArray(None)
    }
}

impl RespEncode for RespArray {
    open spec fn frame(&self) -> Frame {
        Frame::Array(self@)
    }

    fn encode(self) -> (bytes: Vec<u8>) {
        let mut out: Vec<u8> = Vec::new();
        let ghost model = Frame::Array(self@);
        let f = RespFrame::Array(self);
        proof {
            lemma_frame_model(f);
        }
        write_frame(&f, &mut out);
        assert(out@ =~= encode_frame(model));
        out
    }
}

impl RespDecode for RespArray {
    open spec fn span(s: Seq<u8>) -> Result<nat, Fault> {
        array_span(s)
    }

    open spec fn value(s: Seq<u8>) -> Result<(Frame, nat), Fault> {
        array_value(s)
    }

    fn decode(buf: &mut BytesMut) -> (r: Result<Self, RespError>) {
        let data = buffer_bytes(buf);
        let len = data.len();
        let span = match Self::expect_length(data) {
            Ok(n) => n,
            Err(e) => {
                return Err(e);
            },
        };
        if span > len {
            return Err(RespError::NotComplete);
        }
        match array_parse(data) {
            Ok((v, used)) => {
                buffer_advance(buf, used);
                Ok(v)
            },
            Err(e) => Err(e),
        }
    }

    fn expect_length(buf: &[u8]) -> (r: Result<usize, RespError>) {
        array_expect_length(buf)
    }
}

impl core::ops::Deref for RespArray {
    type Target = [RespFrame];

    /// The frames of the array; none for the null array.
    fn deref(&self) -> (r: &[RespFrame])
        ensures
            r@ == (match self.0 {
                Some(v) => v@,
                None => Seq::empty(),
            }),
    {
        match &self.0 {
            Some(data) => data.as_slice(),
            None => &[],
        }
    }
}

} // verus!
