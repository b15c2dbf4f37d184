//! Why a frame that is written is read back.
use crate::resp::lines::{
    lemma_concat, lemma_double_text, lemma_encode_entries_front, lemma_encode_frames_front,
    lemma_header, lemma_line, lemma_map_of_sorted_pairs,
};
use crate::resp::steps::{
    lemma_body, lemma_entries_body, lemma_entries_span_step, lemma_entries_value_step,
    lemma_frames_span_step, lemma_frames_value_step,
};
use crate::resp::wire::{
    array_span, array_value, body_span, body_value, bulk_span, bulk_value, crlf, declared_length,
    encode_entries, encode_frame, encode_frames, entries_body_span, entries_body_value,
    entries_span, entries_value, false_frame, frame_span, frame_value, frames_span, frames_value,
    is_double_text, is_line_text, keys_sorted, line, line_span, line_value, map_of_pairs, map_span,
    map_value, no_line_break, null_array, null_bulk, null_frame, set_span, set_value, starts_with,
    true_frame, Fault, Frame, ARRAY_TAG, BULK_TAG, CR, DOUBLE_TAG, ERROR_TAG, INTEGER_TAG, LF,
    MAP_TAG, SET_TAG, SIMPLE_STRING_TAG,
};
use crate::text::{decimal, is_digit, lemma_signed_round_trip, signed_decimal};
use vstd::prelude::*;

verus! {

/// Whether the frame `f` is read back from its encoding with `rest` behind
/// it.
pub open spec fn reads_back(f: Frame, rest: Seq<u8>) -> bool {
    &&& encode_frame(f).len() >= 3
    &&& frame_span(encode_frame(f) + rest) == Ok::<nat, Fault>(encode_frame(f).len())
    &&& frame_value(encode_frame(f) + rest) == Ok::<(Frame, nat), Fault>(
        (f, encode_frame(f).len()),
    )
}

/// A simple string reads back.
pub proof fn lemma_simple_string_round_trip(t: Seq<u8>, rest: Seq<u8>)
    requires
        is_line_text(t),
    ensures
        reads_back(Frame::SimpleString(t), rest),
{
    let s = line(SIMPLE_STRING_TAG, t) + rest;
    lemma_line(SIMPLE_STRING_TAG, t, rest);
    assert(seq![s[0]] =~= seq![SIMPLE_STRING_TAG]);
}

/// A simple error reads back.
pub proof fn lemma_simple_error_round_trip(t: Seq<u8>, rest: Seq<u8>)
    requires
        is_line_text(t),
    ensures
        reads_back(Frame::Error(t), rest),
{
    let s = line(ERROR_TAG, t) + rest;
    lemma_line(ERROR_TAG, t, rest);
    assert(seq![s[0]] =~= seq![ERROR_TAG]);
}

/// An integer reads back, with the sign that the encoder wrote.
pub proof fn lemma_integer_round_trip(n: i64, rest: Seq<u8>)
    ensures
        reads_back(Frame::Integer(n), rest),
{
    lemma_signed_round_trip(n as int);
    let t = signed_decimal(n as int);
    assert(no_line_break(t));
    let s = line(INTEGER_TAG, t) + rest;
    lemma_line(INTEGER_TAG, t, rest);
    assert(seq![s[0]] =~= seq![INTEGER_TAG]);
}

/// A double reads back as the text that it is.
pub proof fn lemma_double_round_trip(t: Seq<u8>, rest: Seq<u8>)
    requires
        is_double_text(t),
    ensures
        reads_back(Frame::Double(t), rest),
{
    lemma_double_text(t);
    let s = line(DOUBLE_TAG, t) + rest;
    lemma_line(DOUBLE_TAG, t, rest);
    assert(seq![s[0]] =~= seq![DOUBLE_TAG]);
}

/// A bulk string reads back, whatever bytes it holds.
pub proof fn lemma_bulk_round_trip(b: Seq<u8>, rest: Seq<u8>)
    requires
        b.len() <= usize::MAX,
    ensures
        reads_back(Frame::BulkString(Some(b)), rest),
{
    let f = Frame::BulkString(Some(b));
    let s = encode_frame(f) + rest;
    let after = b + crlf() + rest;
    lemma_header(BULK_TAG, b.len(), after);
    let d = decimal(b.len());
    assert(s =~= line(BULK_TAG, d) + after);
    assert(s.take(5)[1] == s[1]);
    assert(!starts_with(s, null_bulk()));
    let end = 1 + d.len() as int;
    assert(s[end + 2 + b.len()] == CR);
    assert(s[end + 2 + b.len() + 1] == LF);
    assert(s.subrange(end + 2, end + 2 + b.len()) =~= b);
    assert(bulk_span(s) == Ok::<nat, Fault>(encode_frame(f).len()));
    assert(bulk_value(s) == Ok::<(Frame, nat), Fault>((f, encode_frame(f).len())));
}

/// The frames of fixed bytes read back: the two null variants, the null
/// frame and the booleans.
pub proof fn lemma_fixed_round_trip(f: Frame, rest: Seq<u8>)
    requires
        f == Frame::BulkString(None) || f == Frame::Array(None) || f == Frame::Null || f
            is Boolean,
    ensures
        reads_back(f, rest),
{
    let s = encode_frame(f) + rest;
    match f {
        Frame::BulkString(_) => {
            assert(s.take(5) =~= null_bulk());
        },
        Frame::Array(_) => {
            assert(s.take(5) =~= null_array());
        },
        Frame::Null => {
            assert(s.take(3) =~= null_frame());
        },
        Frame::Boolean(b) => {
            if b {
                assert(s.take(4) =~= true_frame());
            } else {
                assert(s.take(4) =~= false_frame());
                assert(s.take(4)[1] != true_frame()[1]);
            }
        },
        _ => {},
    }
}

/// An array, read from its header and its body.
pub proof fn lemma_array_of_body(s: Seq<u8>, end: nat, n: usize, total: nat, v: Seq<Frame>)
    requires
        s.len() > 1,
        s[0] == ARRAY_TAG,
        is_digit(s[1]),
        declared_length(s, seq![ARRAY_TAG]) == Ok::<(nat, usize), Fault>((end, n)),
        body_span(s, end, n as nat) == Ok::<nat, Fault>(total),
        body_value(s, end, n as nat) == Ok::<(Seq<Frame>, nat), Fault>((v, total)),
    ensures
        frame_span(s) == Ok::<nat, Fault>(total),
        frame_value(s) == Ok::<(Frame, nat), Fault>((Frame::Array(Some(v)), total)),
{
    if s.len() >= 5 {
        assert(s.take(5)[1] == s[1]);
    }
    assert(!starts_with(s, null_array()));
    assert(array_span(s) == Ok::<nat, Fault>(total));
    assert(array_value(s) == Ok::<(Frame, nat), Fault>((Frame::Array(Some(v)), total)));
}

/// A set, read from its header and its body.
pub proof fn lemma_set_of_body(s: Seq<u8>, end: nat, n: usize, total: nat, v: Seq<Frame>)
    requires
        s.len() > 1,
        s[0] == SET_TAG,
        declared_length(s, seq![SET_TAG]) == Ok::<(nat, usize), Fault>((end, n)),
        body_span(s, end, n as nat) == Ok::<nat, Fault>(total),
        body_value(s, end, n as nat) == Ok::<(Seq<Frame>, nat), Fault>((v, total)),
    ensures
        frame_span(s) == Ok::<nat, Fault>(total),
        frame_value(s) == Ok::<(Frame, nat), Fault>((Frame::RespSet(v), total)),
{
    assert(set_span(s) == Ok::<nat, Fault>(total));
    assert(set_value(s) == Ok::<(Frame, nat), Fault>((Frame::RespSet(v), total)));
}

/// A map, read from its header and its body.
pub proof fn lemma_map_of_body(
    s: Seq<u8>,
    end: nat,
    n: usize,
    total: nat,
    pairs: Seq<(Seq<u8>, Frame)>,
)
    requires
        s.len() > 1,
        s[0] == MAP_TAG,
        declared_length(s, seq![MAP_TAG]) == Ok::<(nat, usize), Fault>((end, n)),
        entries_body_span(s, end, n as nat) == Ok::<nat, Fault>(total),
        entries_body_value(s, end, n as nat) == Ok::<(Seq<(Seq<u8>, Frame)>, nat), Fault>(
            (pairs, total),
        ),
    ensures
        frame_span(s) == Ok::<nat, Fault>(total),
        frame_value(s) == Ok::<(Frame, nat), Fault>((Frame::RespMap(map_of_pairs(pairs)), total)),
{
    assert(map_span(s) == Ok::<nat, Fault>(total));
    assert(map_value(s) == Ok::<(Frame, nat), Fault>(
        (Frame::RespMap(map_of_pairs(pairs)), total),
    ));
}

/// Where the items of an array are read back, so is the array.
pub proof fn lemma_array_round_trip(v: Seq<Frame>, rest: Seq<u8>)
    requires
        v.len() <= usize::MAX,
        frames_span(encode_frames(v) + rest, v.len()) == Ok::<nat, Fault>(encode_frames(v).len()),
        frames_value(encode_frames(v) + rest, v.len()) == Ok::<(Seq<Frame>, nat), Fault>(
            (v, encode_frames(v).len()),
        ),
    ensures
        reads_back(Frame::Array(Some(v)), rest),
{
    let f = Frame::Array(Some(v));
    let s = encode_frame(f) + rest;
    let after = encode_frames(v) + rest;
    let d = decimal(v.len());
    let end = (1 + d.len()) as nat;
    let k = encode_frames(v).len();
    lemma_header(ARRAY_TAG, v.len(), after);
    lemma_concat(line(ARRAY_TAG, d), encode_frames(v), rest);
    assert(encode_frame(f) == line(ARRAY_TAG, d) + encode_frames(v));
    assert(encode_frame(f).len() == end + 2 + k);
    lemma_body(s, end, v.len(), k, v);
    lemma_array_of_body(s, end, v.len() as usize, end + 2 + k, v);
}

/// Where the items of a set are read back, so is the set.
pub proof fn lemma_set_round_trip(v: Seq<Frame>, rest: Seq<u8>)
    requires
        v.len() <= usize::MAX,
        frames_span(encode_frames(v) + rest, v.len()) == Ok::<nat, Fault>(encode_frames(v).len()),
        frames_value(encode_frames(v) + rest, v.len()) == Ok::<(Seq<Frame>, nat), Fault>(
            (v, encode_frames(v).len()),
        ),
    ensures
        reads_back(Frame::RespSet(v), rest),
{
    let f = Frame::RespSet(v);
    let s = encode_frame(f) + rest;
    let after = encode_frames(v) + rest;
    let d = decimal(v.len());
    let end = (1 + d.len()) as nat;
    let k = encode_frames(v).len();
    lemma_header(SET_TAG, v.len(), after);
    lemma_concat(line(SET_TAG, d), encode_frames(v), rest);
    assert(encode_frame(f) == line(SET_TAG, d) + encode_frames(v));
    assert(encode_frame(f).len() == end + 2 + k);
    lemma_body(s, end, v.len(), k, v);
    lemma_set_of_body(s, end, v.len() as usize, end + 2 + k, v);
}

/// Where the entries of a map are read back, so is the map.
pub proof fn lemma_map_round_trip(m: Seq<(Seq<u8>, Frame)>, rest: Seq<u8>)
    requires
        m.len() <= usize::MAX,
        keys_sorted(m),
        entries_span(encode_entries(m) + rest, m.len()) == Ok::<nat, Fault>(
            encode_entries(m).len(),
        ),
        entries_value(encode_entries(m) + rest, m.len()) == Ok::<
            (Seq<(Seq<u8>, Frame)>, nat),
            Fault,
        >((m, encode_entries(m).len())),
    ensures
        reads_back(Frame::RespMap(m), rest),
{
    let f = Frame::RespMap(m);
    let s = encode_frame(f) + rest;
    let after = encode_entries(m) + rest;
    let d = decimal(m.len());
    let end = (1 + d.len()) as nat;
    let k = encode_entries(m).len();
    lemma_header(MAP_TAG, m.len(), after);
    lemma_concat(line(MAP_TAG, d), encode_entries(m), rest);
    assert(encode_frame(f) == line(MAP_TAG, d) + encode_entries(m));
    assert(encode_frame(f).len() == end + 2 + k);
    lemma_entries_body(s, end, m.len(), k, m);
    lemma_map_of_body(s, end, m.len() as usize, end + 2 + k, m);
    lemma_map_of_sorted_pairs(m);
}

/// A frame that is written is read back, whatever bytes follow it: the size
/// pass finds where it ends, and the value pass gives the frame itself.
pub proof fn lemma_frame_round_trip(f: Frame, rest: Seq<u8>)
    requires
        f.wf(),
    ensures
        reads_back(f, rest),
    decreases f, 0nat,
{
    match f {
        Frame::SimpleString(t) => {
            lemma_simple_string_round_trip(t, rest);
        },
        Frame::Error(t) => {
            lemma_simple_error_round_trip(t, rest);
        },
        Frame::Integer(n) => {
            lemma_integer_round_trip(n, rest);
        },
        Frame::Double(t) => {
            lemma_double_round_trip(t, rest);
        },
        Frame::BulkString(Some(b)) => {
            lemma_bulk_round_trip(b, rest);
        },
        Frame::BulkString(None) => {
            lemma_fixed_round_trip(f, rest);
        },
        Frame::Array(Some(v)) => {
            assert(v.skip(0) =~= v);
            lemma_frames_round_trip(v, 0, rest);
            lemma_array_round_trip(v, rest);
        },
        Frame::Array(None) => {
            lemma_fixed_round_trip(f, rest);
        },
        Frame::Null => {
            lemma_fixed_round_trip(f, rest);
        },
        Frame::Boolean(b) => {
            lemma_fixed_round_trip(f, rest);
        },
        Frame::RespMap(m) => {
            assert(m.skip(0) =~= m);
            lemma_entries_round_trip(m, 0, rest);
            lemma_map_round_trip(m, rest);
        },
        Frame::RespSet(v) => {
            assert(v.skip(0) =~= v);
            lemma_frames_round_trip(v, 0, rest);
            lemma_set_round_trip(v, rest);
        },
    }
}

/// Frames that are written one after the other are read back one after the
/// other: those of `v` from the `i`-th on.
pub proof fn lemma_frames_round_trip(v: Seq<Frame>, i: int, rest: Seq<u8>)
    requires
        0 <= i <= v.len(),
        forall|j: int| 0 <= j < v.len() ==> (#[trigger] v[j]).wf(),
    ensures
        frames_span(encode_frames(v.skip(i)) + rest, (v.len() - i) as nat) == Ok::<nat, Fault>(
            encode_frames(v.skip(i)).len(),
        ),
        frames_value(encode_frames(v.skip(i)) + rest, (v.len() - i) as nat) == Ok::<
            (Seq<Frame>, nat),
            Fault,
        >((v.skip(i), encode_frames(v.skip(i)).len())),
    decreases v, v.len() - i,
{
    let tail = v.skip(i);
    if i == v.len() {
        assert(tail =~= Seq::<Frame>::empty());
    } else {
        let more = v.skip(i + 1);
        assert(tail.skip(1) =~= more);
        assert(tail[0] == v[i]);
        lemma_encode_frames_front(tail);
        let first = encode_frame(v[i]);
        let after = encode_frames(more) + rest;
        let s = encode_frames(tail) + rest;
        let count = (v.len() - i) as nat;
        lemma_concat(first, encode_frames(more), rest);
        lemma_frame_round_trip(v[i], after);
        assert(reads_back(v[i], after));
        assert(s.skip(first.len() as int) =~= after);
        lemma_frames_round_trip(v, i + 1, rest);
        lemma_frames_span_step(s, count, first.len());
        lemma_frames_value_step(s, count, v[i], first.len());
        assert(seq![v[i]] + more =~= tail);
    }
}

/// Map entries that are written one after the other are read back one after
/// the other: those of `m` from the `i`-th on.
pub proof fn lemma_entries_round_trip(m: Seq<(Seq<u8>, Frame)>, i: int, rest: Seq<u8>)
    requires
        0 <= i <= m.len(),
        forall|j: int| 0 <= j < m.len() ==> is_line_text((#[trigger] m[j]).0) && m[j].1.wf(),
    ensures
        entries_span(encode_entries(m.skip(i)) + rest, (m.len() - i) as nat) == Ok::<nat, Fault>(
            encode_entries(m.skip(i)).len(),
        ),
        entries_value(encode_entries(m.skip(i)) + rest, (m.len() - i) as nat) == Ok::<
            (Seq<(Seq<u8>, Frame)>, nat),
            Fault,
        >((m.skip(i), encode_entries(m.skip(i)).len())),
    decreases m, m.len() - i,
{
    let tail = m.skip(i);
    if i == m.len() {
        assert(tail =~= Seq::<(Seq<u8>, Frame)>::empty());
    } else {
        let more = m.skip(i + 1);
        assert(tail.skip(1) =~= more);
        assert(tail[0] == m[i]);
        lemma_encode_entries_front(tail);
        let key = line(SIMPLE_STRING_TAG, m[i].0);
        let value = encode_frame(m[i].1);
        let after = encode_entries(more) + rest;
        let s = encode_entries(tail) + rest;
        let count = (m.len() - i) as nat;
        lemma_concat(key, value, encode_entries(more));
        lemma_concat(key, value + encode_entries(more), rest);
        lemma_concat(value, encode_entries(more), rest);
        assert(s == key + (value + after));
        lemma_line_text(m[i].0, value + after);
        assert(s.skip(key.len() as int) =~= value + after);
        lemma_frame_round_trip(m[i].1, after);
        assert(reads_back(m[i].1, after));
        assert(s.skip((key.len() + value.len()) as int) =~= after);
        lemma_entries_round_trip(m, i + 1, rest);
        lemma_entries_span_step(s, count, key.len(), value.len());
        lemma_entries_value_step(s, count, m[i].0, key.len(), m[i].1, value.len());
        assert(seq![m[i]] + more =~= tail);
    }
}

/// The key of a map entry is read back: the line of a simple string.
pub proof fn lemma_line_text(key: Seq<u8>, rest: Seq<u8>)
    requires
        is_line_text(key),
    ensures
        line_span(line(SIMPLE_STRING_TAG, key) + rest, seq![SIMPLE_STRING_TAG]) == Ok::<nat, Fault>(
            line(SIMPLE_STRING_TAG, key).len(),
        ),
        line_value(line(SIMPLE_STRING_TAG, key) + rest, SIMPLE_STRING_TAG) == Ok::<
            (Seq<u8>, nat),
            Fault,
        >((key, line(SIMPLE_STRING_TAG, key).len())),
        line(SIMPLE_STRING_TAG, key).len() == key.len() + 3,
{
    lemma_line(SIMPLE_STRING_TAG, key, rest);
}

} // verus!
