//! The frame: its model, its encoder, and the check of its invariants.
use bytes::BytesMut;
use crate::resp::array::RespArray;
use crate::resp::buffer::{buffer_advance, buffer_bytes};
use crate::resp::bulk_string::BulkString;
use crate::resp::double::{is_double, RespDouble};
use crate::resp::map::{bytes_less, RespMap};
use crate::resp::null::RespNull;
use crate::resp::order::lemma_sorted_by_neighbours;
use crate::resp::reader::{frame_expect_length, frame_parse};
use crate::resp::{RespDecode, RespEncode, RespError};
use crate::resp::set::RespSet;
use crate::resp::simple_error::SimpleError;
use crate::resp::simple_string::SimpleString;
use crate::resp::wire::{
    encode_entries, encode_frame, encode_frames, frame_span, frame_value, is_line_text, key_less,
    keys_sorted, line, no_line_break, null_array, null_bulk, null_frame, Fault, Frame, ARRAY_TAG,
    BOOLEAN_TAG, BULK_TAG, CR, DOUBLE_TAG, ERROR_TAG, INTEGER_TAG, LF, MAP_TAG, NULL_TAG, SET_TAG,
    SIMPLE_STRING_TAG,
};
use crate::text::{decimal, push_decimal, push_signed_decimal};
use vstd::prelude::*;
use vstd::string::StringSliceAdditionalSpecFns;
use vstd::utf8::{encode_utf8, encode_utf8_valid_utf8};

verus! {

/// A RESP3 value.
#[derive(Debug, PartialEq, Eq, PartialOrd, Hash)]
pub enum RespFrame {
    SimpleString(SimpleString),
    Error(SimpleError),
    Integer(i64),
    BulkString(BulkString),
    Array(RespArray),
    Null(RespNull),
    Boolean(bool),
    Double(RespDouble),
    RespMap(RespMap),
    RespSet(RespSet),
}

/// The frame that `f` stands for. The items of an aggregate are taken by
/// index; the test on the index is there to show that the recursion ends, and
/// `lemma_frame_model` states the result without it.
pub open spec fn frame_model(f: RespFrame) -> Frame
    decreases f,
{
    match f {
        RespFrame::SimpleString(s) => Frame::SimpleString(encode_utf8(s.0@)),
        RespFrame::Error(e) => Frame::Error(encode_utf8(e.0@)),
        RespFrame::Integer(n) => Frame::Integer(n),
        RespFrame::BulkString(b) => Frame::BulkString(b@),
        RespFrame::Array(RespArray(Some(v))) => Frame::Array(
            Some(
                Seq::new(
                    v@.len(),
                    |i: int|
                        if 0 <= i < v@.len() {
                            frame_model(v@[i])
                        } else {
                            Frame::Null
                        },
                ),
            ),
        ),
        RespFrame::Array(RespArray(None)) => Frame::Array(None),
        RespFrame::Null(_) => Frame::Null,
        RespFrame::Boolean(b) => Frame::Boolean(b),
        RespFrame::Double(d) => Frame::Double(d@),
        RespFrame::RespMap(RespMap(m)) => Frame::RespMap(
            Seq::new(
                m@.len(),
                |i: int|
                    if 0 <= i < m@.len() {
                        (encode_utf8(m@[i].0@), frame_model(m@[i].1))
                    } else {
                        (Seq::empty(), Frame::Null)
                    },
            ),
        ),
        RespFrame::RespSet(RespSet(v)) => Frame::RespSet(
            Seq::new(
                v@.len(),
                |i: int|
                    if 0 <= i < v@.len() {
                        frame_model(v@[i])
                    } else {
                        Frame::Null
                    },
            ),
        ),
    }
}

/// The frames that the items of `v` stand for.
pub open spec fn frames_model(v: Seq<RespFrame>) -> Seq<Frame> {
    Seq::new(v.len(), |i: int| frame_model(v[i]))
}

/// The map entries that the items of `m` stand for.
pub open spec fn entries_model(m: Seq<(String, RespFrame)>) -> Seq<(Seq<u8>, Frame)> {
    Seq::new(m.len(), |i: int| (encode_utf8(m[i].0@), frame_model(m[i].1)))
}

impl View for RespFrame {
    type V = Frame;

    open spec fn view(&self) -> Frame {
        frame_model(*self)
    }
}

/// The model of an aggregate is made of the models of its items.
pub proof fn lemma_frame_model(f: RespFrame)
    ensures
        f matches RespFrame::Array(RespArray(Some(v))) ==> f@ == Frame::Array(
            Some(frames_model(v@)),
        ),
        f matches RespFrame::RespSet(RespSet(v)) ==> f@ == Frame::RespSet(frames_model(v@)),
        f matches RespFrame::RespMap(RespMap(m)) ==> f@ == Frame::RespMap(entries_model(m@)),
{
    match f {
        RespFrame::Array(RespArray(Some(v))) => {
            assert(f@->Array_0->0 =~= frames_model(v@));
        },
        RespFrame::RespSet(RespSet(v)) => {
            assert(f@->RespSet_0 =~= frames_model(v@));
        },
        RespFrame::RespMap(RespMap(m)) => {
            assert(f@->RespMap_0 =~= entries_model(m@));
        },
        _ => {},
    }
}

impl Clone for RespFrame {
    fn clone(&self) -> (r: Self)
        ensures
            r@ == self@,
        decreases self,
    {
        match self {
            RespFrame::SimpleString(s) => RespFrame::SimpleString(s.clone()),
            RespFrame::Error(e) => RespFrame::Error(e.clone()),
            RespFrame::Integer(n) => RespFrame::Integer(*n),
            RespFrame::BulkString(b) => RespFrame::BulkString(b.clone()),
            RespFrame::Array(RespArray(Some(v))) => {
                let mut out: Vec<RespFrame> = Vec::new();
                let mut i: usize = 0;
                while i < v.len()
                    invariant
                        i <= v.len(),
                        decreases_to!(self => v),
                        out@.len() == i,
                        forall|j: int| 0 <= j < i ==> out@[j]@ == v@[j]@,
                    decreases v.len() - i,
                {
                    out.push(v[i].clone());
                    i += 1;
                }
                let r = RespFrame::Array(RespArray(Some(out)));
                proof {
                    lemma_frame_model(r);
                    lemma_frame_model(*self);
                    assert(frames_model(out@) =~= frames_model(v@));
                }
                r
            },
            RespFrame::Array(RespArray(None)) => RespFrame::Array(RespArray(None)),
            RespFrame::Null(_) => RespFrame::Null(RespNull),
            RespFrame::Boolean(b) => RespFrame::Boolean(*b),
            RespFrame::Double(d) => RespFrame::Double(d.clone()),
            RespFrame::RespMap(RespMap(m)) => {
                let mut out: Vec<(String, RespFrame)> = Vec::new();
                let mut i: usize = 0;
                while i < m.len()
                    invariant
                        i <= m.len(),
                        decreases_to!(self => m),
                        out@.len() == i,
                        forall|j: int|
                            0 <= j < i ==> out@[j].0@ == m@[j].0@ && out@[j].1@ == m@[j].1@,
                    decreases m.len() - i,
                {
                    let key = m[i].0.clone();
                    let value = m[i].1.clone();
                    out.push((key, value));
                    i += 1;
                }
                let r = RespFrame::RespMap(RespMap(out));
                proof {
                    lemma_frame_model(r);
                    lemma_frame_model(*self);
                    assert(entries_model(out@) =~= entries_model(m@));
                }
                r
            },
            RespFrame::RespSet(RespSet(v)) => {
                let mut out: Vec<RespFrame> = Vec::new();
                let mut i: usize = 0;
                while i < v.len()
                    invariant
                        i <= v.len(),
                        decreases_to!(self => v),
                        out@.len() == i,
                        forall|j: int| 0 <= j < i ==> out@[j]@ == v@[j]@,
                    decreases v.len() - i,
                {
                    out.push(v[i].clone());
                    i += 1;
                }
                let r = RespFrame::RespSet(RespSet(out));
                proof {
                    lemma_frame_model(r);
                    lemma_frame_model(*self);
                    assert(frames_model(out@) =~= frames_model(v@));
                }
                r
            },
        }
    }
}

/// Appends `bytes` to `out`.
pub fn push_bytes(out: &mut Vec<u8>, bytes: &[u8])
    ensures
        final(out)@ == old(out)@ + bytes@,
{
    let mut i: usize = 0;
    while i < bytes.len()
        invariant
            i <= bytes@.len(),
            out@ == old(out)@ + bytes@.take(i as int),
        decreases bytes@.len() - i,
    {
        out.push(bytes[i]);
        assert(out@ =~= old(out)@ + bytes@.take(i + 1));
        i += 1;
    }
    assert(bytes@.take(bytes@.len() as int) =~= bytes@);
}

/// Appends a line: the tag, the payload, CRLF.
pub fn push_line(out: &mut Vec<u8>, tag: u8, payload: &[u8])
    ensures
        final(out)@ == old(out)@ + line(tag, payload@),
{
    out.push(tag);
    push_bytes(out, payload);
    out.push(CR);
    out.push(LF);
    assert(out@ =~= old(out)@ + line(tag, payload@));
}

/// Appends the header line of an aggregate or of a bulk string: the tag, the
/// count in decimal, CRLF.
pub fn push_header(out: &mut Vec<u8>, tag: u8, count: usize)
    ensures
        final(out)@ == old(out)@ + line(tag, decimal(count as nat)),
{
    out.push(tag);
    push_decimal(out, count as u64);
    out.push(CR);
    out.push(LF);
    assert(out@ =~= old(out)@ + line(tag, decimal(count as nat)));
}

/// Appends the encoding of a bulk string's payload, or the null bulk string.
pub fn write_bulk(b: &BulkString, out: &mut Vec<u8>)
    ensures
        final(out)@ == old(out)@ + encode_frame(Frame::BulkString(b@)),
{
    match &b.0 {
        Some(data) => {
            push_header(out, BULK_TAG, data.len());
            push_bytes(out, data.as_slice());
            out.push(CR);
            out.push(LF);
            assert(out@ =~= old(out)@ + encode_frame(Frame::BulkString(b@)));
        },
        None => {
            out.push(BULK_TAG);
            out.push(ERROR_TAG);
            out.push(49);
            out.push(CR);
            out.push(LF);
            assert(out@ =~= old(out)@ + null_bulk());
        },
    }
}

/// Appends the encoding of `f` to `out`.
pub fn write_frame(f: &RespFrame, out: &mut Vec<u8>)
    ensures
        final(out)@ == old(out)@ + encode_frame(f@),
    decreases f,
{
    match f {
        RespFrame::SimpleString(s) => {
            push_line(out, SIMPLE_STRING_TAG, s.0.as_str().as_bytes());
        },
        RespFrame::Error(e) => {
            push_line(out, ERROR_TAG, e.0.as_str().as_bytes());
        },
        RespFrame::Integer(n) => {
            out.push(INTEGER_TAG);
            push_signed_decimal(out, *n);
            out.push(CR);
            out.push(LF);
            assert(out@ =~= old(out)@ + encode_frame(f@));
        },
        RespFrame::BulkString(b) => {
            write_bulk(b, out);
        },
        RespFrame::Array(RespArray(Some(v))) => {
            proof {
                lemma_frame_model(*f);
            }
            push_header(out, ARRAY_TAG, v.len());
            write_frames(v, out);
            assert(out@ =~= old(out)@ + encode_frame(f@));
        },
        RespFrame::Array(RespArray(None)) => {
            out.push(ARRAY_TAG);
            out.push(ERROR_TAG);
            out.push(49);
            out.push(CR);
            out.push(LF);
            assert(out@ =~= old(out)@ + null_array());
        },
        RespFrame::Null(_) => {
            out.push(NULL_TAG);
            out.push(CR);
            out.push(LF);
            assert(out@ =~= old(out)@ + null_frame());
        },
        RespFrame::Boolean(b) => {
            out.push(BOOLEAN_TAG);
            if *b {
                out.push(116);
            } else {
                out.push(102);
            }
            out.push(CR);
            out.push(LF);
            assert(out@ =~= old(out)@ + encode_frame(f@));
        },
        RespFrame::Double(d) => {
            push_line(out, DOUBLE_TAG, d.0.as_slice());
        },
        RespFrame::RespMap(RespMap(m)) => {
            proof {
                lemma_frame_model(*f);
            }
            push_header(out, MAP_TAG, m.len());
            write_entries(m, out);
            assert(out@ =~= old(out)@ + encode_frame(f@));
        },
        RespFrame::RespSet(RespSet(v)) => {
            proof {
                lemma_frame_model(*f);
            }
            push_header(out, SET_TAG, v.len());
            write_frames(v, out);
            assert(out@ =~= old(out)@ + encode_frame(f@));
        },
    }
}

/// Appends the encodings of the frames of `v`, in order.
pub fn write_frames(v: &Vec<RespFrame>, out: &mut Vec<u8>)
    ensures
        final(out)@ == old(out)@ + encode_frames(frames_model(v@)),
    decreases v,
{
    let ghost models = frames_model(v@);
    let mut i: usize = 0;
    while i < v.len()
        invariant
            i <= v.len(),
            models == frames_model(v@),
            out@ == old(out)@ + encode_frames(models.take(i as int)),
        decreases v.len() - i,
    {
        write_frame(&v[i], out);
        proof {
            let next = models.take(i + 1);
            assert(next.drop_last() =~= models.take(i as int));
            assert(next.last() == v[i as int]@);
            assert(out@ =~= old(out)@ + encode_frames(next));
        }
        i += 1;
    }
    assert(models.take(v.len() as int) =~= models);
}

/// Appends the encodings of the entries of `m`, in order: each key as a
/// simple string, then its value.
pub fn write_entries(m: &Vec<(String, RespFrame)>, out: &mut Vec<u8>)
    ensures
        final(out)@ == old(out)@ + encode_entries(entries_model(m@)),
    decreases m,
{
    let ghost models = entries_model(m@);
    let mut i: usize = 0;
    while i < m.len()
        invariant
            i <= m.len(),
            models == entries_model(m@),
            out@ == old(out)@ + encode_entries(models.take(i as int)),
        decreases m.len() - i,
    {
        push_line(out, SIMPLE_STRING_TAG, m[i].0.as_str().as_bytes());
        write_frame(&m[i].1, out);
        proof {
            let next = models.take(i + 1);
            assert(next.drop_last() =~= models.take(i as int));
            assert(next.last() == models[i as int]);
            assert(out@ =~= old(out)@ + encode_entries(next));
        }
        i += 1;
    }
    assert(models.take(m.len() as int) =~= models);
}

impl RespEncode for RespFrame {
    open spec fn frame(&self) -> Frame {
        self@
    }

    fn encode(self) -> (bytes: Vec<u8>) {
        let mut out: Vec<u8> = Vec::new();
        write_frame(&self, &mut out);
        assert(out@ =~= encode_frame(self@));
        out
    }
}

impl RespDecode for RespFrame {
    open spec fn span(s: Seq<u8>) -> Result<nat, Fault> {
        frame_span(s)
    }

    open spec fn value(s: Seq<u8>) -> Result<(Frame, nat), Fault> {
        frame_value(s)
    }

    fn decode(buf: &mut BytesMut) -> (r: Result<Self, RespError>) {
        let data = buffer_bytes(buf);
        let len = data.len();
        let span = match Self::expect_length(data) {
            Ok(n) => n,
            Err(e) => {
                return Err(e);
            },
        };
        if span > len {
            return Err(RespError::NotComplete);
        }
        match frame_parse(data) {
            Ok((v, used)) => {
                buffer_advance(buf, used);
                Ok(v)
            },
            Err(e) => Err(e),
        }
    }

    fn expect_length(buf: &[u8]) -> (r: Result<usize, RespError>) {
        frame_expect_length(buf)
    }
}

/// Whether `bytes` hold neither a carriage return nor a line feed.
pub fn has_no_line_break(bytes: &[u8]) -> (r: bool)
    ensures
        r == no_line_break(bytes@),
{
    let mut i: usize = 0;
    while i < bytes.len()
        invariant
            i <= bytes@.len(),
            forall|j: int| 0 <= j < i ==> #[trigger] bytes@[j] != CR && bytes@[j] != LF,
        decreases bytes@.len() - i,
    {
        if bytes[i] == CR || bytes[i] == LF {
            return false;
        }
        i += 1;
    }
    true
}

/// Whether `text` can stand in a simple string: it holds no line break.
pub fn is_line(text: &str) -> (r: bool)
    ensures
        r == is_line_text(encode_utf8(text@)),
{
    proof {
        encode_utf8_valid_utf8(text@);
    }
    has_no_line_break(text.as_bytes())
}

/// Whether every frame of `v` is well formed.
pub fn all_well_formed(v: &Vec<RespFrame>) -> (r: bool)
    ensures
        r == (forall|i: int| 0 <= i < v@.len() ==> (#[trigger] frames_model(v@)[i]).wf()),
    decreases v,
{
    let mut i: usize = 0;
    while i < v.len()
        invariant
            i <= v.len(),
            forall|j: int| 0 <= j < i ==> (#[trigger] frames_model(v@)[j]).wf(),
        decreases v.len() - i,
    {
        if !v[i].is_well_formed() {
            assert(!frames_model(v@)[i as int].wf());
            return false;
        }
        i += 1;
    }
    true
}

/// Whether the entries of `m` are those of a well-formed map: the keys are
/// lines and rise strictly, the values are well formed.
pub fn entries_well_formed(m: &Vec<(String, RespFrame)>) -> (r: bool)
    ensures
        r == (keys_sorted(entries_model(m@)) && forall|i: int|
            0 <= i < m@.len() ==> is_line_text((#[trigger] entries_model(m@)[i]).0)
                && entries_model(m@)[i].1.wf()),
    decreases m,
{
    let ghost model = entries_model(m@);
    let mut i: usize = 0;
    while i < m.len()
        invariant
            i <= m.len(),
            model == entries_model(m@),
            forall|j: int|
                0 <= j < i ==> is_line_text((#[trigger] model[j]).0) && model[j].1.wf(),
            forall|j: int| 0 < j < i ==> key_less(#[trigger] model[j - 1].0, model[j].0),
        decreases m.len() - i,
    {
        if !is_line(m[i].0.as_str()) || !m[i].1.is_well_formed() {
            assert(!(is_line_text(model[i as int].0) && model[i as int].1.wf()));
            return false;
        }
        if i > 0 && !bytes_less(m[i - 1].0.as_str().as_bytes(), m[i].0.as_str().as_bytes()) {
            assert(!key_less(model[i - 1].0, model[i as int].0));
            return false;
        }
        i += 1;
    }
    proof {
        lemma_sorted_by_neighbours(model, model.len() as int);
        assert(model.take(model.len() as int) =~= model);
    }
    true
}

impl RespFrame {
    /// Whether the frame keeps the invariants of the frame model: simple
    /// strings, errors and map keys without line breaks, doubles whose text
    /// reads as a double, maps whose keys rise strictly. Such a frame is
    /// read back from its encoding.
    pub fn is_well_formed(&self) -> (r: bool)
        ensures
            r == self@.wf(),
        decreases self,
    {
        match self {
            RespFrame::SimpleString(s) => is_line(s.0.as_str()),
            RespFrame::Error(e) => is_line(e.0.as_str()),
            RespFrame::Integer(_) => true,
            RespFrame::BulkString(b) => {
                let len = b.as_bytes().len();
                true
            },
            RespFrame::Array(RespArray(Some(v))) => {
                proof {
                    lemma_frame_model(*self);
                }
                let len = v.len();
                all_well_formed(v)
            },
            RespFrame::Array(RespArray(None)) => true,
            RespFrame::Null(_) => true,
            RespFrame::Boolean(_) => true,
            RespFrame::Double(d) => is_double(d.0.as_slice()),
            RespFrame::RespMap(RespMap(m)) => {
                proof {
                    lemma_frame_model(*self);
                }
                let len = m.len();
                entries_well_formed(m)
            },
            RespFrame::RespSet(RespSet(v)) => {
                proof {
                    lemma_frame_model(*self);
                }
                let len = v.len();
                all_well_formed(v)
            },
        }
    }
}

} // verus!
