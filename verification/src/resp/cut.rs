//! Why the bytes of a frame, cut short, are reported as not complete.
use crate::resp::lines::{
    lemma_concat, lemma_double_text, lemma_encode_entries_front, lemma_encode_frames_front,
    lemma_header, lemma_header_cut, lemma_line_cut, lemma_take_of_concat,
};
use crate::resp::round_trip::{lemma_frame_round_trip, lemma_line_text, reads_back};
use crate::resp::steps::{
    lemma_body_fault, lemma_entries_body_fault, lemma_entries_span_incomplete_key,
    lemma_entries_span_incomplete_value, lemma_entries_span_step, lemma_frames_span_incomplete,
    lemma_frames_span_step,
};
use crate::resp::wire::{
    array_span, body_span, bulk_span, crlf, declared_length, encode_entries, encode_frame,
    encode_frames, entries_span, frame_span, frames_span, is_crlf_at, is_line_end, is_line_text,
    line, line_span, map_span, no_line_break, null_array, null_bulk, set_span, starts_with, Fault,
    Frame, ARRAY_TAG, BOOLEAN_TAG, BULK_TAG, DOUBLE_TAG, ERROR_TAG, INTEGER_TAG, MAP_TAG, NULL_TAG,
    SET_TAG, SIMPLE_STRING_TAG,
};
use crate::text::{decimal, is_digit, lemma_signed_round_trip, signed_decimal};
use vstd::prelude::*;

verus! {

/// Whether the bytes `p` end before the frame that they begin: the size
/// pass asks for more bytes than there are.
pub open spec fn incomplete(p: Seq<u8>) -> bool {
    frame_span(p) == Err::<nat, Fault>(Fault::NotComplete) || (frame_span(p) matches Ok(n) && n
        > p.len())
}

/// A line that is cut short is a frame not complete.
pub proof fn lemma_line_frame_cut(tag: u8, payload: Seq<u8>, i: int)
    requires
        tag == SIMPLE_STRING_TAG || tag == ERROR_TAG || tag == INTEGER_TAG || tag == DOUBLE_TAG,
        no_line_break(payload),
        0 <= i < payload.len() + 3,
    ensures
        incomplete(line(tag, payload).take(i)),
{
    let p = line(tag, payload).take(i);
    if i > 0 {
        lemma_line_cut(tag, payload, i);
        assert(seq![p[0]] =~= seq![tag]);
    }
}

/// A bulk string that is cut short is a frame not complete.
pub proof fn lemma_bulk_cut(b: Seq<u8>, i: int)
    requires
        b.len() <= usize::MAX,
        0 <= i < encode_frame(Frame::BulkString(Some(b))).len(),
    ensures
        incomplete(encode_frame(Frame::BulkString(Some(b))).take(i)),
{
    let d = decimal(b.len());
    let head = line(BULK_TAG, d);
    let tail = b + crlf();
    let enc = encode_frame(Frame::BulkString(Some(b)));
    lemma_concat(head, b, crlf());
    assert(enc == head + tail);
    let p = enc.take(i);
    lemma_take_of_concat(head, tail, i);
    if i == 0 {
    } else if i < head.len() {
        lemma_header_cut(BULK_TAG, b.len(), i);
        if p.len() >= 5 {
            assert(p.take(5)[1] == p[1]);
        }
        assert(!starts_with(p, null_bulk()));
        assert(bulk_span(p) == Err::<nat, Fault>(Fault::NotComplete));
    } else {
        let rest = tail.take(i - head.len());
        lemma_header(BULK_TAG, b.len(), rest);
        if p.len() >= 5 {
            assert(p.take(5)[1] == p[1]);
        }
        assert(!starts_with(p, null_bulk()));
        assert(bulk_span(p) == Ok::<nat, Fault>(enc.len()));
    }
}

/// A frame of fixed bytes that is cut short is a frame not complete.
pub proof fn lemma_fixed_cut(f: Frame, i: int)
    requires
        f == Frame::BulkString(None) || f == Frame::Array(None) || f == Frame::Null || f
            is Boolean,
        0 <= i < encode_frame(f).len(),
    ensures
        incomplete(encode_frame(f).take(i)),
{
    let p = encode_frame(f).take(i);
    if i > 0 {
        match f {
            Frame::BulkString(_) => {
                assert(p[0] == BULK_TAG);
                if i >= 3 {
                    assert(p.take(1) =~= seq![BULK_TAG]);
                    assert forall|e: int| !is_line_end(p, e) by {
                        if is_crlf_at(p, e) && 1 <= e {
                            assert(p[e] == null_bulk()[e]);
                        }
                    }
                }
                assert(bulk_span(p) == Err::<nat, Fault>(Fault::NotComplete));
            },
            Frame::Array(_) => {
                assert(p[0] == ARRAY_TAG);
                if i >= 3 {
                    assert(p.take(1) =~= seq![ARRAY_TAG]);
                    assert forall|e: int| !is_line_end(p, e) by {
                        if is_crlf_at(p, e) && 1 <= e {
                            assert(p[e] == null_array()[e]);
                        }
                    }
                }
                assert(array_span(p) == Err::<nat, Fault>(Fault::NotComplete));
            },
            Frame::Null => {
                assert(p[0] == NULL_TAG);
            },
            Frame::Boolean(b) => {
                assert(p[0] == BOOLEAN_TAG);
            },
            _ => {},
        }
    }
}

/// An aggregate whose header line is cut short is a frame not complete.
pub proof fn lemma_aggregate_header_cut(tag: u8, n: nat, i: int)
    requires
        tag == ARRAY_TAG || tag == SET_TAG || tag == MAP_TAG,
        0 < i < decimal(n).len() + 3,
    ensures
        frame_span(line(tag, decimal(n)).take(i)) == Err::<nat, Fault>(Fault::NotComplete),
{
    let p = line(tag, decimal(n)).take(i);
    lemma_header_cut(tag, n, i);
    if tag == ARRAY_TAG {
        if p.len() >= 5 {
            assert(p.take(5)[1] == p[1]);
        }
        assert(!starts_with(p, null_array()));
        assert(array_span(p) == Err::<nat, Fault>(Fault::NotComplete));
    } else if tag == SET_TAG {
        assert(set_span(p) == Err::<nat, Fault>(Fault::NotComplete));
    } else {
        assert(map_span(p) == Err::<nat, Fault>(Fault::NotComplete));
    }
}

/// An array whose header is whole and whose items are refused is refused.
pub proof fn lemma_array_of_fault(s: Seq<u8>, end: nat, n: usize, e: Fault)
    requires
        s.len() > 1,
        s[0] == ARRAY_TAG,
        is_digit(s[1]),
        declared_length(s, seq![ARRAY_TAG]) == Ok::<(nat, usize), Fault>((end, n)),
        body_span(s, end, n as nat) == Err::<nat, Fault>(e),
    ensures
        frame_span(s) == Err::<nat, Fault>(e),
{
    if s.len() >= 5 {
        assert(s.take(5)[1] == s[1]);
    }
    assert(!starts_with(s, null_array()));
    assert(array_span(s) == Err::<nat, Fault>(e));
}

/// An array whose items are not complete is a frame not complete.
pub proof fn lemma_array_body_cut(n: nat, body: Seq<u8>)
    requires
        n <= usize::MAX,
        frames_span(body, n) == Err::<nat, Fault>(Fault::NotComplete),
    ensures
        frame_span(line(ARRAY_TAG, decimal(n)) + body) == Err::<nat, Fault>(Fault::NotComplete),
{
    let s = line(ARRAY_TAG, decimal(n)) + body;
    let end = (1 + decimal(n).len()) as nat;
    lemma_header(ARRAY_TAG, n, body);
    lemma_body_fault(s, end, n, Fault::NotComplete);
    lemma_array_of_fault(s, end, n as usize, Fault::NotComplete);
}

/// A set whose items are not complete is a frame not complete.
pub proof fn lemma_set_body_cut(n: nat, body: Seq<u8>)
    requires
        n <= usize::MAX,
        frames_span(body, n) == Err::<nat, Fault>(Fault::NotComplete),
    ensures
        frame_span(line(SET_TAG, decimal(n)) + body) == Err::<nat, Fault>(Fault::NotComplete),
{
    let s = line(SET_TAG, decimal(n)) + body;
    lemma_header(SET_TAG, n, body);
    let end = (1 + decimal(n).len()) as nat;
    lemma_body_fault(s, end, n, Fault::NotComplete);
    assert(set_span(s) == Err::<nat, Fault>(Fault::NotComplete));
}

/// A map whose entries are not complete is a frame not complete.
pub proof fn lemma_map_body_cut(n: nat, body: Seq<u8>)
    requires
        n <= usize::MAX,
        entries_span(body, n) == Err::<nat, Fault>(Fault::NotComplete),
    ensures
        frame_span(line(MAP_TAG, decimal(n)) + body) == Err::<nat, Fault>(Fault::NotComplete),
{
    let s = line(MAP_TAG, decimal(n)) + body;
    lemma_header(MAP_TAG, n, body);
    let end = (1 + decimal(n).len()) as nat;
    lemma_entries_body_fault(s, end, n, Fault::NotComplete);
    assert(map_span(s) == Err::<nat, Fault>(Fault::NotComplete));
}

/// A frame that is cut short is a frame not complete: the size pass asks for
/// more bytes, wherever the cut falls.
pub proof fn lemma_frame_cut(f: Frame, i: int)
    requires
        f.wf(),
        0 <= i < encode_frame(f).len(),
    ensures
        incomplete(encode_frame(f).take(i)),
    decreases f, 0nat,
{
    match f {
        Frame::SimpleString(t) => {
            lemma_line_frame_cut(SIMPLE_STRING_TAG, t, i);
        },
        Frame::Error(t) => {
            lemma_line_frame_cut(ERROR_TAG, t, i);
        },
        Frame::Integer(n) => {
            lemma_signed_round_trip(n as int);
            assert(no_line_break(signed_decimal(n as int)));
            lemma_line_frame_cut(INTEGER_TAG, signed_decimal(n as int), i);
        },
        Frame::Double(t) => {
            lemma_double_text(t);
            lemma_line_frame_cut(DOUBLE_TAG, t, i);
        },
        Frame::BulkString(Some(b)) => {
            lemma_bulk_cut(b, i);
        },
        Frame::BulkString(None) => {
            lemma_fixed_cut(f, i);
        },
        Frame::Array(Some(v)) => {
            let head = line(ARRAY_TAG, decimal(v.len()));
            let body = encode_frames(v);
            lemma_take_of_concat(head, body, i);
            if i == 0 {
            } else if i < head.len() {
                lemma_aggregate_header_cut(ARRAY_TAG, v.len(), i);
            } else {
                assert(v.skip(0) =~= v);
                lemma_frames_cut(v, 0, i - head.len());
                lemma_array_body_cut(v.len(), body.take(i - head.len()));
            }
        },
        Frame::Array(None) => {
            lemma_fixed_cut(f, i);
        },
        Frame::Null => {
            lemma_fixed_cut(f, i);
        },
        Frame::Boolean(b) => {
            lemma_fixed_cut(f, i);
        },
        Frame::RespMap(m) => {
            let head = line(MAP_TAG, decimal(m.len()));
            let body = encode_entries(m);
            lemma_take_of_concat(head, body, i);
            if i == 0 {
            } else if i < head.len() {
                lemma_aggregate_header_cut(MAP_TAG, m.len(), i);
            } else {
                assert(m.skip(0) =~= m);
                lemma_entries_cut(m, 0, i - head.len());
                lemma_map_body_cut(m.len(), body.take(i - head.len()));
            }
        },
        Frame::RespSet(v) => {
            let head = line(SET_TAG, decimal(v.len()));
            let body = encode_frames(v);
            lemma_take_of_concat(head, body, i);
            if i == 0 {
            } else if i < head.len() {
                lemma_aggregate_header_cut(SET_TAG, v.len(), i);
            } else {
                assert(v.skip(0) =~= v);
                lemma_frames_cut(v, 0, i - head.len());
                lemma_set_body_cut(v.len(), body.take(i - head.len()));
            }
        },
    }
}

/// Items that are cut short are not complete: those of `v` from the
/// `from`-th on, cut after `c` bytes.
pub proof fn lemma_frames_cut(v: Seq<Frame>, from: int, c: int)
    requires
        0 <= from <= v.len(),
        forall|j: int| 0 <= j < v.len() ==> (#[trigger] v[j]).wf(),
        0 <= c < encode_frames(v.skip(from)).len(),
    ensures
        frames_span(encode_frames(v.skip(from)).take(c), (v.len() - from) as nat) == Err::<
            nat,
            Fault,
        >(Fault::NotComplete),
    decreases v, v.len() - from,
{
    let tail = v.skip(from);
    if from == v.len() {
        assert(tail =~= Seq::<Frame>::empty());
    } else {
        let more = v.skip(from + 1);
        assert(tail.skip(1) =~= more);
        assert(tail[0] == v[from]);
        lemma_encode_frames_front(tail);
        let first = encode_frame(v[from]);
        let after = encode_frames(more);
        let bytes = encode_frames(tail).take(c);
        let count = (v.len() - from) as nat;
        lemma_take_of_concat(first, after, c);
        if c < first.len() {
            lemma_frame_cut(v[from], c);
            lemma_frames_span_incomplete(bytes, count);
        } else {
            let rest = after.take(c - first.len());
            lemma_frame_round_trip(v[from], rest);
            assert(reads_back(v[from], rest));
            assert(bytes.skip(first.len() as int) =~= rest);
            lemma_frames_cut(v, from + 1, c - first.len());
            lemma_frames_span_step(bytes, count, first.len());
        }
    }
}

/// The key of a map entry, cut short, has no end yet.
pub proof fn lemma_key_cut(key: Seq<u8>, c: int)
    requires
        is_line_text(key),
        0 <= c < key.len() + 3,
    ensures
        line_span(line(SIMPLE_STRING_TAG, key).take(c), seq![SIMPLE_STRING_TAG]) == Err::<
            nat,
            Fault,
        >(Fault::NotComplete),
{
    if c > 0 {
        lemma_line_cut(SIMPLE_STRING_TAG, key, c);
    }
}

/// Map entries that are cut short are not complete: those of `m` from the
/// `from`-th on, cut after `c` bytes.
pub proof fn lemma_entries_cut(m: Seq<(Seq<u8>, Frame)>, from: int, c: int)
    requires
        0 <= from <= m.len(),
        forall|j: int| 0 <= j < m.len() ==> is_line_text((#[trigger] m[j]).0) && m[j].1.wf(),
        0 <= c < encode_entries(m.skip(from)).len(),
    ensures
        entries_span(encode_entries(m.skip(from)).take(c), (m.len() - from) as nat) == Err::<
            nat,
            Fault,
        >(Fault::NotComplete),
    decreases m, m.len() - from,
{
    let tail = m.skip(from);
    if from == m.len() {
        assert(tail =~= Seq::<(Seq<u8>, Frame)>::empty());
    } else {
        let more = m.skip(from + 1);
        assert(tail.skip(1) =~= more);
        assert(tail[0] == m[from]);
        lemma_encode_entries_front(tail);
        let key = line(SIMPLE_STRING_TAG, m[from].0);
        let value = encode_frame(m[from].1);
        let after = encode_entries(more);
        lemma_concat(key, value, after);
        let bytes = encode_entries(tail).take(c);
        let count = (m.len() - from) as nat;
        lemma_take_of_concat(key, value + after, c);
        if c < key.len() {
            lemma_key_cut(m[from].0, c);
            lemma_entries_span_incomplete_key(bytes, count);
        } else {
            let c1 = c - key.len();
            lemma_take_of_concat(value, after, c1);
            let rest = (value + after).take(c1);
            lemma_line_text(m[from].0, rest);
            assert(bytes.skip(key.len() as int) =~= rest);
            if c1 < value.len() {
                lemma_frame_cut(m[from].1, c1);
                lemma_entries_span_incomplete_value(bytes, count, key.len());
            } else {
                let last = after.take(c1 - value.len());
                lemma_frame_round_trip(m[from].1, last);
                assert(reads_back(m[from].1, last));
                assert(bytes.skip((key.len() + value.len()) as int) =~= last);
                lemma_entries_cut(m, from + 1, c1 - value.len());
                lemma_entries_span_step(bytes, count, key.len(), value.len());
            }
        }
    }
}

} // verus!
