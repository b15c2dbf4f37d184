//! The decoder on a slice of bytes: the size pass, which measures the first
//! frame without reading it, and the value pass, which reads it.
use crate::resp::array::RespArray;
use crate::resp::bulk_string::BulkString;
use crate::resp::double::{is_double, RespDouble};
use crate::resp::frame::{frames_model, lemma_frame_model, RespFrame};
use crate::resp::{has_prefix, header_end, header_length, measured, parsed, RespEncode, RespError};
use crate::resp::map::RespMap;
use crate::resp::message::{expected_message, unknown_tag_message, unterminated_message};
use crate::resp::null::RespNull;
use crate::resp::set::RespSet;
use crate::resp::simple_error::SimpleError;
use crate::resp::simple_string::SimpleString;
use crate::resp::steps::{
    lemma_entries_before, lemma_entries_span_key_fault, lemma_entries_span_unfold,
    lemma_entries_value_fault, lemma_entries_value_key_fault, lemma_entries_value_step,
    lemma_frames_before, lemma_frames_span_unfold, lemma_frames_value_fault,
    lemma_frames_value_step, lemma_map_of_pairs_push, lemma_span_before, with_entries_before,
    with_frames_before, with_span_before,
};
use crate::resp::unicode::lossy_string;
use crate::resp::wire::{
    array_span, array_value, body_span, body_value, boolean_value, bulk_span, bulk_value,
    double_value, entries_body_span, entries_span, entries_value, false_frame, frame_span,
    frame_value, frames_span, frames_value, integer_value, line_span, line_value, map_of_pairs,
    map_span, map_value, null_array, null_bulk, null_frame, null_value, set_span, set_value,
    simple_error_value, simple_string_value, total_span, true_frame, Frame, ARRAY_TAG, BOOLEAN_TAG,
    BULK_TAG, CR, DOUBLE_TAG, ERROR_TAG, INTEGER_TAG, LF, MAP_TAG, NULL_TAG, SET_TAG,
    SIMPLE_STRING_TAG,
};
use crate::text::parse_i64;
use vstd::prelude::*;
use vstd::slice::{slice_subrange, slice_to_vec};
use vstd::string::StringSliceAdditionalSpecFns;
use vstd::utf8::{decode_utf8_encode_utf8, encode_utf8, valid_utf8};

verus! {

/// The span of a frame of one line that begins with the bytes `prefix`.
pub fn line_expect_length(buf: &[u8], prefix: &[u8]) -> (r: Result<usize, RespError>)
    ensures
        measured(line_span(buf@, prefix@), r),
        r matches Ok(n) ==> n <= buf@.len(),
{
    let len = buf.len();
    match header_end(buf, prefix) {
        Ok(end) => {
            assert(end + 1 < len);
            Ok(end + 2)
        },
        Err(e) => Err(e),
    }
}

/// The span of a bulk string.
pub fn bulk_expect_length(buf: &[u8]) -> (r: Result<usize, RespError>)
    ensures
        measured(bulk_span(buf@), r),
{
    let null = [BULK_TAG, 45u8, 49u8, CR, LF];
    assert(null@ =~= null_bulk());
    if has_prefix(buf, null.as_slice()) {
        return Ok(5);
    }
    let tag = [BULK_TAG];
    assert(tag@ =~= seq![BULK_TAG]);
    let len = buf.len();
    match header_length(buf, tag.as_slice()) {
        Ok((end, n)) => {
            assert(end + 1 < len);
            match (end + 2).checked_add(n) {
                Some(total) => match total.checked_add(2) {
                    Some(total) => Ok(total),
                    None => Err(RespError::NotComplete),
                },
                None => Err(RespError::NotComplete),
            }
        },
        Err(e) => Err(e),
    }
}

/// The span of the first frame of `buf`.
pub fn frame_expect_length(buf: &[u8]) -> (r: Result<usize, RespError>)
    ensures
        measured(frame_span(buf@), r),
    decreases buf@.len(), 0nat, 3nat,
{
    if buf.len() == 0 {
        return Err(RespError::NotComplete);
    }
    let tag = buf[0];
    if tag == SIMPLE_STRING_TAG || tag == ERROR_TAG || tag == INTEGER_TAG || tag == DOUBLE_TAG {
        let prefix = [tag];
        assert(prefix@ =~= seq![buf@[0]]);
        line_expect_length(buf, prefix.as_slice())
    } else if tag == BULK_TAG {
        bulk_expect_length(buf)
    } else if tag == ARRAY_TAG {
        array_expect_length(buf)
    } else if tag == SET_TAG {
        set_expect_length(buf)
    } else if tag == MAP_TAG {
        map_expect_length(buf)
    } else if tag == NULL_TAG {
        Ok(3)
    } else if tag == BOOLEAN_TAG {
        Ok(4)
    } else {
        Err(RespError::InvalidFrameType(unknown_tag_message(buf)))
    }
}

/// The span of an array.
pub fn array_expect_length(buf: &[u8]) -> (r: Result<usize, RespError>)
    ensures
        measured(array_span(buf@), r),
    decreases buf@.len(), 0nat, 2nat,
{
    let null = [ARRAY_TAG, 45u8, 49u8, CR, LF];
    assert(null@ =~= null_array());
    if has_prefix(buf, null.as_slice()) {
        return Ok(5);
    }
    let tag = [ARRAY_TAG];
    assert(tag@ =~= seq![ARRAY_TAG]);
    match header_length(buf, tag.as_slice()) {
        Ok((end, n)) => frames_total(buf, end, n),
        Err(e) => Err(e),
    }
}

/// The span of a set.
pub fn set_expect_length(buf: &[u8]) -> (r: Result<usize, RespError>)
    ensures
        measured(set_span(buf@), r),
    decreases buf@.len(), 0nat, 2nat,
{
    let tag = [SET_TAG];
    assert(tag@ =~= seq![SET_TAG]);
    match header_length(buf, tag.as_slice()) {
        Ok((end, n)) => frames_total(buf, end, n),
        Err(e) => Err(e),
    }
}

/// The span of a map.
pub fn map_expect_length(buf: &[u8]) -> (r: Result<usize, RespError>)
    ensures
        measured(map_span(buf@), r),
    decreases buf@.len(), 0nat, 2nat,
{
    let tag = [MAP_TAG];
    assert(tag@ =~= seq![MAP_TAG]);
    match header_length(buf, tag.as_slice()) {
        Ok((end, n)) => entries_total(buf, end, n),
        Err(e) => Err(e),
    }
}

/// The span of an aggregate of `count` frames whose header line ends at
/// `end`.
pub fn frames_total(buf: &[u8], end: usize, count: usize) -> (r: Result<usize, RespError>)
    ensures
        measured(body_span(buf@, end as nat, count as nat), r),
    decreases buf@.len(), 0nat, 1nat,
{
    if end >= buf.len() || buf.len() - end < 2 {
        return Err(RespError::NotComplete);
    }
    match frames_expect_length(slice_subrange(buf, end + 2, buf.len()), count) {
        Ok(m) => Ok(end + 2 + m),
        Err(e) => Err(e),
    }
}

/// The span of a map of `count` entries whose header line ends at `end`.
pub fn entries_total(buf: &[u8], end: usize, count: usize) -> (r: Result<usize, RespError>)
    ensures
        measured(entries_body_span(buf@, end as nat, count as nat), r),
    decreases buf@.len(), 0nat, 1nat,
{
    if end >= buf.len() || buf.len() - end < 2 {
        return Err(RespError::NotComplete);
    }
    match entries_expect_length(slice_subrange(buf, end + 2, buf.len()), count) {
        Ok(m) => Ok(end + 2 + m),
        Err(e) => Err(e),
    }
}

/// The span of `count` frames at the start of `rest`.
pub fn frames_expect_length(rest: &[u8], count: usize) -> (r: Result<usize, RespError>)
    ensures
        measured(frames_span(rest@, count as nat), r),
        r matches Ok(n) ==> n <= rest@.len(),
    decreases rest@.len(), count, 0nat,
{
    let mut pos: usize = 0;
    let mut i: usize = 0;
    assert(rest@.skip(0) =~= rest@);
    while i < count
        invariant
            i <= count,
            pos <= rest@.len(),
            frames_span(rest@, count as nat) == with_span_before(
                pos as nat,
                frames_span(rest@.skip(pos as int), (count - i) as nat),
            ),
        decreases count - i,
    {
        let here = slice_subrange(rest, pos, rest.len());
        assert(here@ == rest@.skip(pos as int));
        proof {
            lemma_frames_span_unfold(here@, (count - i) as nat);
        }
        let k = match frame_expect_length(here) {
            Ok(k) => k,
            Err(e) => {
                return Err(e);
            },
        };
        if k > here.len() {
            return Err(RespError::NotComplete);
        }
        proof {
            assert(here@.skip(k as int) =~= rest@.skip(pos + k));
            lemma_span_before(
                pos as nat,
                k as nat,
                frames_span(rest@.skip(pos + k), (count - i - 1) as nat),
            );
        }
        pos = pos + k;
        i += 1;
    }
    Ok(pos)
}

/// The span of `count` map entries at the start of `rest`.
pub fn entries_expect_length(rest: &[u8], count: usize) -> (r: Result<usize, RespError>)
    ensures
        measured(entries_span(rest@, count as nat), r),
        r matches Ok(n) ==> n <= rest@.len(),
    decreases rest@.len(), count, 0nat,
{
    let mut pos: usize = 0;
    let mut i: usize = 0;
    assert(rest@.skip(0) =~= rest@);
    while i < count
        invariant
            i <= count,
            pos <= rest@.len(),
            entries_span(rest@, count as nat) == with_span_before(
                pos as nat,
                entries_span(rest@.skip(pos as int), (count - i) as nat),
            ),
        decreases count - i,
    {
        let here = slice_subrange(rest, pos, rest.len());
        assert(here@ == rest@.skip(pos as int));
        let tag = [SIMPLE_STRING_TAG];
        assert(tag@ =~= seq![SIMPLE_STRING_TAG]);
        let k = match line_expect_length(here, tag.as_slice()) {
            Ok(k) => k,
            Err(e) => {
                proof {
                    lemma_entries_span_key_fault(here@, (count - i) as nat, e@);
                }
                return Err(e);
            },
        };
        proof {
            lemma_entries_span_unfold(here@, (count - i) as nat, k as nat);
        }
        let after_key = slice_subrange(here, k, here.len());
        let v = match frame_expect_length(after_key) {
            Ok(v) => v,
            Err(e) => {
                return Err(e);
            },
        };
        if v > after_key.len() {
            return Err(RespError::NotComplete);
        }
        proof {
            assert(here@.skip((k + v) as int) =~= rest@.skip(pos + k + v));
            lemma_span_before(
                pos as nat,
                (k + v) as nat,
                entries_span(rest@.skip(pos + k + v), (count - i - 1) as nat),
            );
        }
        pos = pos + k + v;
        i += 1;
    }
    Ok(pos)
}

/// The span of an aggregate whose header line ends at `end` and declares
/// `len` items, for the tag `prefix`.
pub fn calc_total_length(buf: &[u8], end: usize, len: usize, prefix: &str) -> (r: Result<
    usize,
    RespError,
>)
    ensures
        measured(total_span(buf@, end as nat, len as nat, prefix.spec_bytes()), r),
{
    let tag = prefix.as_bytes();
    if tag.len() == 1 && (tag[0] == ARRAY_TAG || tag[0] == SET_TAG) {
        assert(tag@ =~= seq![tag@[0]]);
        frames_total(buf, end, len)
    } else if tag.len() == 1 && tag[0] == MAP_TAG {
        assert(tag@ =~= seq![MAP_TAG]);
        entries_total(buf, end, len)
    } else {
        proof {
            if tag@ == seq![ARRAY_TAG] || tag@ == seq![SET_TAG] || tag@ == seq![MAP_TAG] {
                assert(tag@.len() == 1);
                assert(tag@[0] == ARRAY_TAG || tag@[0] == SET_TAG || tag@[0] == MAP_TAG);
            }
        }
        match len.checked_add(2) {
            Some(n) => Ok(n),
            None => Err(RespError::NotComplete),
        }
    }
}

/// The text of a line that begins with the tag `tag`, and the bytes that the
/// line takes.
pub fn line_parse(buf: &[u8], tag: u8) -> (r: Result<(String, usize), RespError>)
    ensures
        match line_value(buf@, tag) {
            Ok((t, n)) => r matches Ok((text, k)) && encode_utf8(text@) == t && k == n && n
                <= buf@.len(),
            Err(f) => r matches Err(e) && e@ == f,
        },
{
    let prefix = [tag];
    assert(prefix@ =~= seq![tag]);
    let len = buf.len();
    match header_end(buf, prefix.as_slice()) {
        Ok(end) => {
            assert(1 <= end && end + 1 < len);
            let payload = slice_subrange(buf, 1, end);
            let text = lossy_string(payload);
            proof {
                if valid_utf8(payload@) {
                    decode_utf8_encode_utf8(payload@);
                }
            }
            Ok((text, end + 2))
        },
        Err(e) => Err(e),
    }
}

/// Reads a simple string.
pub fn simple_string_parse(buf: &[u8]) -> (r: Result<(SimpleString, usize), RespError>)
    ensures
        parsed(buf@.len(), simple_string_value(buf@), r),
{
    match line_parse(buf, SIMPLE_STRING_TAG) {
        Ok((text, n)) => Ok((SimpleString(text), n)),
        Err(e) => Err(e),
    }
}

/// Reads a simple error.
pub fn simple_error_parse(buf: &[u8]) -> (r: Result<(SimpleError, usize), RespError>)
    ensures
        parsed(buf@.len(), simple_error_value(buf@), r),
{
    match line_parse(buf, ERROR_TAG) {
        Ok((text, n)) => Ok((SimpleError(text), n)),
        Err(e) => Err(e),
    }
}

/// Reads an integer.
pub fn integer_parse(buf: &[u8]) -> (r: Result<(i64, usize), RespError>)
    ensures
        parsed(buf@.len(), integer_value(buf@), r),
{
    let prefix = [INTEGER_TAG];
    assert(prefix@ =~= seq![INTEGER_TAG]);
    let len = buf.len();
    match header_end(buf, prefix.as_slice()) {
        Ok(end) => {
            assert(1 <= end && end + 1 < len);
            match parse_i64(slice_subrange(buf, 1, end)) {
                Some(n) => Ok((n, end + 2)),
                None => Err(RespError::ParseIntError),
            }
        },
        Err(e) => Err(e),
    }
}

/// Reads a double: its text, checked to stand for one.
pub fn double_parse(buf: &[u8]) -> (r: Result<(RespDouble, usize), RespError>)
    ensures
        parsed(buf@.len(), double_value(buf@), r),
{
    let prefix = [DOUBLE_TAG];
    assert(prefix@ =~= seq![DOUBLE_TAG]);
    let len = buf.len();
    match header_end(buf, prefix.as_slice()) {
        Ok(end) => {
            assert(1 <= end && end + 1 < len);
            let text = slice_subrange(buf, 1, end);
            if is_double(text) {
                Ok((RespDouble(slice_to_vec(text)), end + 2))
            } else {
                Err(RespError::ParseFloatError)
            }
        },
        Err(e) => Err(e),
    }
}

/// Reads a bulk string: the null bulk string, or as many bytes as the header
/// declares and the CRLF behind them.
pub fn bulk_parse(buf: &[u8]) -> (r: Result<(BulkString, usize), RespError>)
    ensures
        parsed(buf@.len(), bulk_value(buf@), r),
{
    let null = [BULK_TAG, 45u8, 49u8, CR, LF];
    assert(null@ =~= null_bulk());
    if has_prefix(buf, null.as_slice()) {
        return Ok((BulkString(None), 5));
    }
    let tag = [BULK_TAG];
    assert(tag@ =~= seq![BULK_TAG]);
    let len = buf.len();
    match header_length(buf, tag.as_slice()) {
        Ok((end, n)) => {
            assert(end + 1 < len);
            let start = end + 2;
            let available = len - start;
            if n > available || available - n < 2 {
                return Err(RespError::NotComplete);
            }
            if buf[start + n] != CR || buf[start + n + 1] != LF {
                return Err(RespError::InvalidFrameLength(unterminated_message()));
            }
            let data = slice_to_vec(slice_subrange(buf, start, start + n));
            Ok((BulkString(Some(data)), start + n + 2))
        },
        Err(e) => Err(e),
    }
}

/// Reads the null frame.
pub fn null_parse(buf: &[u8]) -> (r: Result<(RespNull, usize), RespError>)
    ensures
        parsed(buf@.len(), null_value(buf@), r),
{
    let null = [NULL_TAG, CR, LF];
    assert(null@ =~= null_frame());
    if buf.len() < 3 {
        return Err(RespError::NotComplete);
    }
    if !has_prefix(buf, null.as_slice()) {
        return Err(RespError::InvalidFrameType(expected_message("Null", buf)));
    }
    Ok((RespNull, 3))
}

/// Reads a boolean frame.
pub fn boolean_parse(buf: &[u8]) -> (r: Result<(bool, usize), RespError>)
    ensures
        parsed(buf@.len(), boolean_value(buf@), r),
{
    let yes = [BOOLEAN_TAG, 116u8, CR, LF];
    let no = [BOOLEAN_TAG, 102u8, CR, LF];
    assert(yes@ =~= true_frame());
    assert(no@ =~= false_frame());
    if buf.len() < 4 {
        return Err(RespError::NotComplete);
    }
    if has_prefix(buf, yes.as_slice()) {
        Ok((true, 4))
    } else if has_prefix(buf, no.as_slice()) {
        Ok((false, 4))
    } else {
        Err(RespError::InvalidFrameType(expected_message("Bool", buf)))
    }
}

/// Reads the first frame of `buf` in one pass.
pub fn frame_parse(buf: &[u8]) -> (r: Result<(RespFrame, usize), RespError>)
    ensures
        parsed(buf@.len(), frame_value(buf@), r),
    decreases buf@.len(), 0nat, 3nat,
{
    if buf.len() == 0 {
        return Err(RespError::NotComplete);
    }
    let tag = buf[0];
    if tag == SIMPLE_STRING_TAG {
        match simple_string_parse(buf) {
            Ok((v, n)) => Ok((RespFrame::SimpleString(v), n)),
            Err(e) => Err(e),
        }
    } else if tag == ERROR_TAG {
        match simple_error_parse(buf) {
            Ok((v, n)) => Ok((RespFrame::Error(v), n)),
            Err(e) => Err(e),
        }
    } else if tag == INTEGER_TAG {
        match integer_parse(buf) {
            Ok((v, n)) => Ok((RespFrame::Integer(v), n)),
            Err(e) => Err(e),
        }
    } else if tag == DOUBLE_TAG {
        match double_parse(buf) {
            Ok((v, n)) => Ok((RespFrame::Double(v), n)),
            Err(e) => Err(e),
        }
    } else if tag == BULK_TAG {
        match bulk_parse(buf) {
            Ok((v, n)) => Ok((RespFrame::BulkString(v), n)),
            Err(e) => Err(e),
        }
    } else if tag == ARRAY_TAG {
        match array_parse(buf) {
            Ok((v, n)) => {
                let f = RespFrame::Array(v);
                proof {
                    lemma_frame_model(f);
                }
                Ok((f, n))
            },
            Err(e) => Err(e),
        }
    } else if tag == SET_TAG {
        match set_parse(buf) {
            Ok((v, n)) => {
                let f = RespFrame::RespSet(v);
                proof {
                    lemma_frame_model(f);
                }
                Ok((f, n))
            },
            Err(e) => Err(e),
        }
    } else if tag == MAP_TAG {
        match map_parse(buf) {
            Ok((v, n)) => {
                let f = RespFrame::RespMap(v);
                proof {
                    lemma_frame_model(f);
                }
                Ok((f, n))
            },
            Err(e) => Err(e),
        }
    } else if tag == NULL_TAG {
        match null_parse(buf) {
            Ok((v, n)) => Ok((RespFrame::Null(v), n)),
            Err(e) => Err(e),
        }
    } else if tag == BOOLEAN_TAG {
        match boolean_parse(buf) {
            Ok((v, n)) => Ok((RespFrame::Boolean(v), n)),
            Err(e) => Err(e),
        }
    } else {
        Err(RespError::InvalidFrameType(unknown_tag_message(buf)))
    }
}

/// Reads an array: the null array, or the header and as many frames as it
/// declares.
pub fn array_parse(buf: &[u8]) -> (r: Result<(RespArray, usize), RespError>)
    ensures
        parsed(buf@.len(), array_value(buf@), r),
    decreases buf@.len(), 0nat, 2nat,
{
    let null = [ARRAY_TAG, 45u8, 49u8, CR, LF];
    assert(null@ =~= null_array());
    if has_prefix(buf, null.as_slice()) {
        return Ok((RespArray(None), 5));
    }
    let tag = [ARRAY_TAG];
    assert(tag@ =~= seq![ARRAY_TAG]);
    match header_length(buf, tag.as_slice()) {
        Ok((end, n)) => match frames_body(buf, end, n) {
            Ok((v, total)) => Ok((RespArray(Some(v)), total)),
            Err(e) => Err(e),
        },
        Err(e) => Err(e),
    }
}

/// Reads a set: the header and as many frames as it declares.
pub fn set_parse(buf: &[u8]) -> (r: Result<(RespSet, usize), RespError>)
    ensures
        parsed(buf@.len(), set_value(buf@), r),
    decreases buf@.len(), 0nat, 2nat,
{
    let tag = [SET_TAG];
    assert(tag@ =~= seq![SET_TAG]);
    match header_length(buf, tag.as_slice()) {
        Ok((end, n)) => match frames_body(buf, end, n) {
            Ok((v, total)) => Ok((RespSet(v), total)),
            Err(e) => Err(e),
        },
        Err(e) => Err(e),
    }
}

/// Reads a map: the header and as many entries as it declares, inserted one
/// after the other.
pub fn map_parse(buf: &[u8]) -> (r: Result<(RespMap, usize), RespError>)
    ensures
        parsed(buf@.len(), map_value(buf@), r),
    decreases buf@.len(), 0nat, 2nat,
{
    let tag = [MAP_TAG];
    assert(tag@ =~= seq![MAP_TAG]);
    match header_length(buf, tag.as_slice()) {
        Ok((end, n)) => {
            if end >= buf.len() || buf.len() - end < 2 {
                return Err(RespError::NotComplete);
            }
            match entries_parse(slice_subrange(buf, end + 2, buf.len()), n) {
                Ok((m, used)) => Ok((m, end + 2 + used)),
                Err(e) => Err(e),
            }
        },
        Err(e) => Err(e),
    }
}

/// Reads the `count` frames of an aggregate whose header line ends at `end`.
pub fn frames_body(buf: &[u8], end: usize, count: usize) -> (r: Result<
    (Vec<RespFrame>, usize),
    RespError,
>)
    ensures
        match body_value(buf@, end as nat, count as nat) {
            Ok((v, n)) => r matches Ok((frames, k)) && frames_model(frames@) == v && k == n && n
                <= buf@.len(),
            Err(f) => r matches Err(e) && e@ == f,
        },
    decreases buf@.len(), 0nat, 1nat,
{
    if end >= buf.len() || buf.len() - end < 2 {
        return Err(RespError::NotComplete);
    }
    match frames_parse(slice_subrange(buf, end + 2, buf.len()), count) {
        Ok((v, used)) => Ok((v, end + 2 + used)),
        Err(e) => Err(e),
    }
}

/// Reads `count` frames from the start of `rest`.
pub fn frames_parse(rest: &[u8], count: usize) -> (r: Result<(Vec<RespFrame>, usize), RespError>)
    ensures
        match frames_value(rest@, count as nat) {
            Ok((v, n)) => r matches Ok((frames, k)) && frames_model(frames@) == v && k == n && n
                <= rest@.len(),
            Err(f) => r matches Err(e) && e@ == f,
        },
    decreases rest@.len(), count, 0nat,
{
    let mut frames: Vec<RespFrame> = Vec::new();
    let mut pos: usize = 0;
    let mut i: usize = 0;
    proof {
        assert(rest@.skip(0) =~= rest@);
        assert(frames_model(frames@) =~= Seq::<Frame>::empty());
        match frames_value(rest@, count as nat) {
            Ok((v, m)) => {
                assert(Seq::<Frame>::empty() + v =~= v);
            },
            Err(_) => {},
        }
    }
    while i < count
        invariant
            i <= count,
            pos <= rest@.len(),
            frames_value(rest@, count as nat) == with_frames_before(
                frames_model(frames@),
                pos as nat,
                frames_value(rest@.skip(pos as int), (count - i) as nat),
            ),
        decreases count - i,
    {
        let here = slice_subrange(rest, pos, rest.len());
        assert(here@ == rest@.skip(pos as int));
        let ghost before = frames_model(frames@);
        let (f, k) = match frame_parse(here) {
            Ok(pair) => pair,
            Err(e) => {
                proof {
                    lemma_frames_value_fault(here@, (count - i) as nat, e@);
                }
                return Err(e);
            },
        };
        proof {
            assert(here@.skip(k as int) =~= rest@.skip(pos + k));
            lemma_frames_value_step(here@, (count - i) as nat, f@, k as nat);
            lemma_frames_before(
                before,
                pos as nat,
                f@,
                k as nat,
                frames_value(rest@.skip(pos + k), (count - i - 1) as nat),
            );
        }
        frames.push(f);
        assert(frames_model(frames@) =~= before.push(f@));
        pos = pos + k;
        i += 1;
    }
    assert(frames_model(frames@) + Seq::<Frame>::empty() =~= frames_model(frames@));
    Ok((frames, pos))
}

/// Reads `count` map entries from the start of `rest` and inserts them, one
/// after the other, into an empty map.
pub fn entries_parse(rest: &[u8], count: usize) -> (r: Result<(RespMap, usize), RespError>)
    ensures
        match entries_value(rest@, count as nat) {
            Ok((pairs, n)) => r matches Ok((m, k)) && m@ == map_of_pairs(pairs) && k == n && n
                <= rest@.len(),
            Err(f) => r matches Err(e) && e@ == f,
        },
    decreases rest@.len(), count, 0nat,
{
    let mut map = RespMap::new();
    let ghost mut read: Seq<(Seq<u8>, Frame)> = Seq::empty();
    let mut pos: usize = 0;
    let mut i: usize = 0;
    proof {
        assert(rest@.skip(0) =~= rest@);
        match entries_value(rest@, count as nat) {
            Ok((v, m)) => {
                assert(read + v =~= v);
            },
            Err(_) => {},
        }
    }
    while i < count
        invariant
            i <= count,
            pos <= rest@.len(),
            map@ == map_of_pairs(read),
            entries_value(rest@, count as nat) == with_entries_before(
                read,
                pos as nat,
                entries_value(rest@.skip(pos as int), (count - i) as nat),
            ),
        decreases count - i,
    {
        let here = slice_subrange(rest, pos, rest.len());
        assert(here@ == rest@.skip(pos as int));
        let (key, k) = match line_parse(here, SIMPLE_STRING_TAG) {
            Ok(pair) => pair,
            Err(e) => {
                proof {
                    lemma_entries_value_key_fault(here@, (count - i) as nat, e@);
                }
                return Err(e);
            },
        };
        let after_key = slice_subrange(here, k, here.len());
        let (value, v) = match frame_parse(after_key) {
            Ok(pair) => pair,
            Err(e) => {
                proof {
                    lemma_entries_value_fault(
                        here@,
                        (count - i) as nat,
                        encode_utf8(key@),
                        k as nat,
                        e@,
                    );
                }
                return Err(e);
            },
        };
        proof {
            let pair = (encode_utf8(key@), value@);
            assert(here@.skip((k + v) as int) =~= rest@.skip(pos + k + v));
            lemma_entries_value_step(
                here@,
                (count - i) as nat,
                encode_utf8(key@),
                k as nat,
                value@,
                v as nat,
            );
            lemma_entries_before(
                read,
                pos as nat,
                pair,
                (k + v) as nat,
                entries_value(rest@.skip(pos + k + v), (count - i - 1) as nat),
            );
            lemma_map_of_pairs_push(read, pair);
            read = read.push(pair);
        }
        map.insert(key, value);
        pos = pos + k + v;
        i += 1;
    }
    assert(read + Seq::<(Seq<u8>, Frame)>::empty() =~= read);
    Ok((map, pos))
}

} // verus!
