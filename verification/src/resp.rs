//! The RESP3 codec: frames, their encoding, and the streaming decoder.
pub mod array;
pub mod boolean;
pub mod buffer;
pub mod bulk_string;
pub mod convert;
pub mod cut;
pub mod double;
pub mod frame;
pub mod integer;
pub mod laws;
pub mod lines;
pub mod map;
pub mod message;
pub mod null;
pub mod order;
pub mod passes;
pub mod reader;
pub mod round_trip;
pub mod set;
pub mod simple_error;
pub mod simple_string;
pub mod source;
pub mod steps;
pub mod unicode;
pub mod wire;

pub use crate::resp::reader::calc_total_length;

use bytes::BytesMut;
use crate::resp::buffer::{buffer_advance, buffer_bytes, buffered};
use crate::resp::message::{expected_message, wrong_tag_message};
use crate::resp::wire::{
    declared_length, encode_frame, fixed_value, has_line_end, is_crlf_at, is_line_end, line_end,
    line_header, sized, starts_with, Fault, Frame,
};
use crate::text::parse_usize;
use vstd::prelude::*;
use vstd::slice::slice_subrange;
use vstd::string::{StringExecFns, StringSliceAdditionalSpecFns};

verus! {

/// Why a frame could not be decoded.
#[derive(Debug, PartialEq, Eq)]
pub enum RespError {
    /// The bytes do not begin with the tag that was expected.
    InvalidFrame(String),
    /// The bytes begin with no tag of the protocol, or are not the fixed
    /// frame that was expected.
    InvalidFrameType(String),
    /// The payload does not end where the declared length says.
    InvalidFrameLength(String),
    /// More bytes are needed.
    NotComplete,
    /// A length or an integer does not read as one.
    ParseIntError,
    /// Bytes that had to be UTF-8 are not.
    Utf8Error,
    /// A double does not read as one.
    ParseFloatError,
}

impl View for RespError {
    type V = Fault;

    open spec fn view(&self) -> Fault {
        match self {
            RespError::InvalidFrame(m) => Fault::InvalidFrame(m@),
            RespError::InvalidFrameType(m) => Fault::InvalidFrameType(m@),
            RespError::InvalidFrameLength(m) => Fault::InvalidFrameLength(m@),
            RespError::NotComplete => Fault::NotComplete,
            RespError::ParseIntError => Fault::ParseIntError,
            RespError::Utf8Error => Fault::Utf8Error,
            RespError::ParseFloatError => Fault::ParseFloatError,
        }
    }
}

impl Fault {
    /// The text that describes the fault.
    pub open spec fn message(self) -> Seq<char> {
        match self {
            Fault::InvalidFrame(m) => "Invalid frame: "@ + m,
            Fault::InvalidFrameType(m) => "Invalid frame type: "@ + m,
            Fault::InvalidFrameLength(m) => "Invalid frame length: "@ + m,
            Fault::NotComplete => "Frame is not complete"@,
            Fault::ParseIntError => "Parse error: invalid integer"@,
            Fault::Utf8Error => "Utf8 error: invalid utf-8 sequence"@,
            Fault::ParseFloatError => "Parse error: invalid float"@,
        }
    }
}

impl RespError {
    /// The text that describes the error.
    pub fn message(&self) -> (m: String)
        ensures
            m@ == self@.message(),
    {
        match self {
            RespError::InvalidFrame(text) => {
                let mut m = String::from_str("Invalid frame: ");
                m.append(text.as_str());
                m
            },
            RespError::InvalidFrameType(text) => {
                let mut m = String::from_str("Invalid frame type: ");
                m.append(text.as_str());
                m
            },
            RespError::InvalidFrameLength(text) => {
                let mut m = String::from_str("Invalid frame length: ");
                m.append(text.as_str());
                m
            },
            RespError::NotComplete => String::from_str("Frame is not complete"),
            RespError::ParseIntError => String::from_str("Parse error: invalid integer"),
            RespError::Utf8Error => String::from_str("Utf8 error: invalid utf-8 sequence"),
            RespError::ParseFloatError => String::from_str("Parse error: invalid float"),
        }
    }
}

/// A value that has a place among the frames and can be written to the wire.
pub trait RespEncode: Sized {
    /// The frame that this value stands for.
    spec fn frame(&self) -> Frame;

    /// The bytes that stand for this value on the wire.
    fn encode(self) -> (bytes: Vec<u8>)
        ensures
            bytes@ == encode_frame(self.frame()),
    ;
}

/// A value that can be read from the front of a buffer.
pub trait RespDecode: RespEncode {
    /// The size pass of this kind of frame on the bytes `s`.
    spec fn span(s: Seq<u8>) -> Result<nat, Fault>;

    /// The value pass of this kind of frame on the bytes `s`: the frame and
    /// the number of bytes it takes.
    spec fn value(s: Seq<u8>) -> Result<(Frame, nat), Fault>;

    /// Reads one value from the front of `buf`. On success its bytes leave the
    /// buffer; on any error the buffer stays as it was.
    fn decode(buf: &mut BytesMut) -> (r: Result<Self, RespError>)
        ensures
            decoding(
                buffered(*old(buf)),
                buffered(*final(buf)),
                sized(
                    Self::span(buffered(*old(buf))),
                    buffered(*old(buf)).len(),
                    Self::value(buffered(*old(buf))),
                ),
                r,
            ),
    ;

    /// The number of bytes that the first frame of `buf` spans, consuming
    /// nothing.
    fn expect_length(buf: &[u8]) -> (r: Result<usize, RespError>)
        ensures
            measured(Self::span(buf@), r),
    ;
}

/// How the result `r` of a size pass stands to the span `span`: the same
/// number or the same error; a span beyond `usize` is reported as not
/// complete, since no buffer holds as much.
pub open spec fn measured(span: Result<nat, Fault>, r: Result<usize, RespError>) -> bool {
    match span {
        Ok(n) => if n <= usize::MAX {
            r matches Ok(k) && k == n
        } else {
            r matches Err(e) && e@ == Fault::NotComplete
        },
        Err(f) => r matches Err(e) && e@ == f,
    }
}

/// How a call of the decoder stands to what decoding makes of the bytes: the
/// buffer held `before`, holds `after`, and the call returned `r`.
pub open spec fn decoding<T: RespEncode>(
    before: Seq<u8>,
    after: Seq<u8>,
    outcome: Result<(Frame, nat), Fault>,
    r: Result<T, RespError>,
) -> bool {
    match outcome {
        Ok((f, n)) => r matches Ok(v) && v.frame() == f && n <= before.len() && after
            == before.skip(n as int),
        Err(e) => r matches Err(x) && x@ == e && after == before,
    }
}

/// How the result `r` of a value pass stands to `outcome`.
pub open spec fn parsed<T: RespEncode>(
    len: nat,
    outcome: Result<(Frame, nat), Fault>,
    r: Result<(T, usize), RespError>,
) -> bool {
    match outcome {
        Ok((f, n)) => r matches Ok((v, k)) && v.frame() == f && k == n && n <= len,
        Err(e) => r matches Err(x) && x@ == e,
    }
}

/// The number of CRLFs of `s` at the indices from 1 up to `upto`, `upto`
/// left out.
pub open spec fn crlf_count(s: Seq<u8>, upto: int) -> nat
    decreases upto,
{
    if upto <= 1 {
        0
    } else {
        crlf_count(s, upto - 1) + if is_crlf_at(s, upto - 1) {
            1nat
        } else {
            0nat
        }
    }
}

/// The index of the `nth` CRLF of `buf`, counted from 1 and looked for behind
/// the first byte.
pub fn find_crlf(buf: &[u8], nth: usize) -> (r: Option<usize>)
    ensures
        match r {
            Some(i) => 1 <= i && is_crlf_at(buf@, i as int) && crlf_count(buf@, i as int) + 1
                == nth,
            None => nth == 0 || crlf_count(buf@, buf@.len() as int) < nth,
        },
        nth == 1 ==> match r {
            Some(i) => is_line_end(buf@, i as int),
            None => !has_line_end(buf@),
        },
{
    if buf.len() < 2 {
        assert(crlf_count(buf@, buf@.len() as int) == 0) by {
            reveal_with_fuel(crlf_count, 2);
        }
        assert(forall|e: int| !is_line_end(buf@, e));
        return None;
    }
    let mut count: usize = 0;
    let mut i: usize = 1;
    while i < buf.len() - 1
        invariant
            1 <= i < buf.len(),
            buf.len() == buf@.len(),
            count == crlf_count(buf@, i as int),
            count <= i,
            nth == 0 || count < nth,
            count == 0 ==> forall|j: int| 1 <= j < i ==> !is_crlf_at(buf@, j),
        decreases buf@.len() - i,
    {
        if buf[i] == 13 && buf[i + 1] == 10 {
            count += 1;
            if count == nth {
                return Some(i);
            }
        }
        i += 1;
    }
    proof {
        assert(!is_crlf_at(buf@, i as int));
        assert(crlf_count(buf@, buf@.len() as int) == crlf_count(buf@, i as int));
        if nth == 1 {
            assert forall|e: int| !is_line_end(buf@, e) by {
                if is_line_end(buf@, e) {
                    assert(is_crlf_at(buf@, e));
                    assert(1 <= e < i);
                }
            }
        }
    }
    None
}

/// Whether `buf` begins with the bytes `prefix`.
pub fn has_prefix(buf: &[u8], prefix: &[u8]) -> (r: bool)
    ensures
        r == starts_with(buf@, prefix@),
{
    if prefix.len() > buf.len() {
        return false;
    }
    let mut i: usize = 0;
    while i < prefix.len()
        invariant
            i <= prefix@.len() <= buf@.len(),
            forall|j: int| 0 <= j < i ==> buf@[j] == prefix@[j],
        decreases prefix@.len() - i,
    {
        if buf[i] != prefix[i] {
            proof {
                assert(buf@.take(prefix@.len() as int)[i as int] != prefix@[i as int]);
            }
            return false;
        }
        i += 1;
    }
    true
}

/// Where the header line of `buf` ends, for a frame that begins with the
/// bytes `prefix`.
pub fn header_end(buf: &[u8], prefix: &[u8]) -> (r: Result<usize, RespError>)
    ensures
        match line_header(buf@, prefix@) {
            Ok(end) => r matches Ok(e) && e == end && is_line_end(buf@, e as int),
            Err(f) => r matches Err(e) && e@ == f,
        },
{
    if buf.len() < 3 {
        return Err(RespError::NotComplete);
    }
    if !has_prefix(buf, prefix) {
        return Err(RespError::InvalidFrame(wrong_tag_message(buf)));
    }
    match find_crlf(buf, 1) {
        Some(end) => {
            proof {
                lemma_line_end(buf@, end as int);
            }
            Ok(end)
        },
        None => Err(RespError::NotComplete),
    }
}

/// Where the header line of `buf` ends, for a frame that begins with
/// `prefix`.
pub fn extract_simple_frame_data(buf: &[u8], prefix: &str) -> (r: Result<Option<usize>, RespError>)
    ensures
        match line_header(buf@, prefix.spec_bytes()) {
            Ok(end) => r matches Ok(Some(e)) && e == end,
            Err(f) => r matches Err(e) && e@ == f,
        },
{
    match header_end(buf, prefix.as_bytes()) {
        Ok(end) => Ok(Some(end)),
        Err(e) => Err(e),
    }
}

/// The end of the first line is where any line end stands.
pub proof fn lemma_line_end(s: Seq<u8>, e: int)
    requires
        is_line_end(s, e),
    ensures
        has_line_end(s),
        line_end(s) == e,
{
    let c = line_end(s);
    assert(is_line_end(s, c));
    if c < e {
        assert(!is_crlf_at(s, c));
    }
    if e < c {
        assert(!is_crlf_at(s, e));
    }
}

/// The end of the header line of `buf` and the length that it declares, for
/// a frame that begins with the bytes `prefix`.
pub fn header_length(buf: &[u8], prefix: &[u8]) -> (r: Result<(usize, usize), RespError>)
    ensures
        match declared_length(buf@, prefix@) {
            Ok((end, n)) => r matches Ok((e, k)) && e == end && k == n && is_line_end(
                buf@,
                e as int,
            ),
            Err(f) => r matches Err(e) && e@ == f,
        },
{
    let end = match header_end(buf, prefix) {
        Ok(end) => end,
        Err(e) => {
            return Err(e);
        },
    };
    let from = prefix.len();
    let parsed = if from <= end {
        parse_usize(slice_subrange(buf, from, end))
    } else {
        let empty: [u8; 0] = [];
        assert(empty@ =~= Seq::<u8>::empty());
        parse_usize(empty.as_slice())
    };
    match parsed {
        Some(n) => Ok((end, n)),
        None => Err(RespError::ParseIntError),
    }
}

/// The end of the header line of `buf` and the length that it declares.
pub fn parse_length(buf: &[u8], prefix: &str) -> (r: Result<(usize, usize), RespError>)
    ensures
        match declared_length(buf@, prefix.spec_bytes()) {
            Ok((end, n)) => r matches Ok((e, k)) && e == end && k == n,
            Err(f) => r matches Err(e) && e@ == f,
        },
{
    header_length(buf, prefix.as_bytes())
}

/// Checks that `buf` begins with the bytes of `expect` and takes them from
/// the buffer. `expect_type` names what was expected.
pub fn extract_fixed_data(buf: &mut BytesMut, expect: &str, expect_type: &str) -> (r: Result<
    (),
    RespError,
>)
    ensures
        match fixed_value(buffered(*old(buf)), expect.spec_bytes(), expect_type@) {
            Ok(n) => r is Ok && buffered(*final(buf)) == buffered(*old(buf)).skip(n as int),
            Err(f) => r matches Err(e) && e@ == f && buffered(*final(buf)) == buffered(*old(buf)),
        },
{
    let data = buffer_bytes(buf);
    let wanted = expect.as_bytes();
    if data.len() < wanted.len() {
        return Err(RespError::NotComplete);
    }
    if !has_prefix(data, wanted) {
        return Err(RespError::InvalidFrameType(expected_message(expect_type, data)));
    }
    buffer_advance(buf, wanted.len());
    Ok(())
}

} // verus!
