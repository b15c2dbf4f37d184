//! The values that a frame can be made of: texts for simple strings, bytes
//! for bulk strings, frames for arrays and sets.
use crate::resp::frame::{frames_model, RespFrame};
use crate::resp::wire::Frame;
use vstd::prelude::*;
use vstd::slice::slice_to_vec;
use vstd::string::{StringExecFns, StringSliceAdditionalSpecFns, StrSliceExecFns};
use vstd::utf8::encode_utf8;

verus! {

/// A value that gives the text of a simple string or of a simple error.
pub trait IntoText: Sized {
    /// The text that the value gives.
    spec fn text(&self) -> Seq<char>;

    /// The text, as a string.
    fn into_text(self) -> (r: String)
        ensures
            r@ == self.text(),
    ;
}

impl IntoText for String {
    open spec fn text(&self) -> Seq<char> {
        self@
    }

    fn into_text(self) -> (r: String) {
        self
    }
}

impl IntoText for &str {
    open spec fn text(&self) -> Seq<char> {
        self@
    }

    fn into_text(self) -> (r: String) {
        String::from_str(self)
    }
}

/// A value that gives the payload of a bulk string.
pub trait IntoPayload: Sized {
    /// The bytes that the value gives; for a text, its UTF-8 bytes.
    spec fn payload(&self) -> Seq<u8>;

    /// The bytes, as a vector.
    fn into_payload(self) -> (r: Vec<u8>)
        ensures
            r@ == self.payload(),
    ;
}

impl IntoPayload for Vec<u8> {
    open spec fn payload(&self) -> Seq<u8> {
        self@
    }

    fn into_payload(self) -> (r: Vec<u8>) {
        self
    }
}

impl IntoPayload for String {
    open spec fn payload(&self) -> Seq<u8> {
        encode_utf8(self@)
    }

    fn into_payload(self) -> (r: Vec<u8>) {
        self.as_str().as_bytes_vec()
    }
}

impl IntoPayload for &str {
    open spec fn payload(&self) -> Seq<u8> {
        encode_utf8(self@)
    }

    fn into_payload(self) -> (r: Vec<u8>) {
        self.as_bytes_vec()
    }
}

impl IntoPayload for &[u8] {
    open spec fn payload(&self) -> Seq<u8> {
        self@
    }

    fn into_payload(self) -> (r: Vec<u8>) {
        slice_to_vec(self)
    }
}

impl<const N: usize> IntoPayload for &[u8; N] {
    open spec fn payload(&self) -> Seq<u8> {
        self@
    }

    fn into_payload(self) -> (r: Vec<u8>) {
        slice_to_vec(self.as_slice())
    }
}

/// A value that gives the frames of an array or of a set.
pub trait IntoFrames: Sized {
    /// The frames that the value gives, in order.
    spec fn frames(&self) -> Seq<Frame>;

    /// The frames, as a vector.
    fn into_frames(self) -> (r: Vec<RespFrame>)
        ensures
            frames_model(r@) == self.frames(),
    ;
}

impl IntoFrames for Vec<RespFrame> {
    open spec fn frames(&self) -> Seq<Frame> {
        frames_model(self@)
    }

    fn into_frames(self) -> (r: Vec<RespFrame>) {
        self
    }
}

impl<const N: usize> IntoFrames for [RespFrame; N] {
    open spec fn frames(&self) -> Seq<Frame> {
        frames_model(self@)
    }

    fn into_frames(self) -> (r: Vec<RespFrame>) {
        let mut out: Vec<RespFrame> = Vec::new();
        let mut i: usize = 0;
        while i < N
            invariant
                i <= N,
                self@.len() == N,
                out@.len() == i,
                forall|j: int| 0 <= j < i ==> (#[trigger] out@[j])@ == self@[j]@,
            decreases N - i,
        {
            out.push(self[i].clone());
            i += 1;
        }
        assert(frames_model(out@) =~= frames_model(self@));
        out
    }
}

} // verus!
