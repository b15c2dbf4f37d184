//! What holds of the codec: a frame that is written is read back; bytes
//! that end in the middle of a frame are reported as not complete, and
//! the size pass alone decides that; frames fed in pieces come out whole
//! and in order.
use crate::resp::cut::{incomplete, lemma_frame_cut};
use crate::resp::lines::{lemma_encode_frames_front, lemma_take_of_concat};
use crate::resp::passes::{lemma_passes_agree, lemma_span_is_three_at_least};
use crate::resp::round_trip::{lemma_frame_round_trip, reads_back};
use crate::resp::wire::{
    decode_frame, encode_frame, encode_frames, frame_span, line, null_array, null_bulk, null_frame,
    Fault, Frame, CR, INTEGER_TAG, LF,
};
use crate::text::decimal;
use vstd::prelude::*;

verus! {

/// Round trip. Decoding the encoding of a well-formed frame gives the frame
/// back and consumes exactly its bytes, whatever bytes follow them.
pub proof fn law_round_trip(f: Frame, rest: Seq<u8>)
    requires
        f.wf(),
    ensures
        decode_frame(encode_frame(f) + rest) == Ok::<(Frame, nat), Fault>(
            (f, encode_frame(f).len()),
        ),
        decode_frame(encode_frame(f)) == Ok::<(Frame, nat), Fault>((f, encode_frame(f).len())),
{
    lemma_frame_round_trip(f, rest);
    assert(reads_back(f, rest));
    lemma_frame_round_trip(f, Seq::empty());
    assert(reads_back(f, Seq::empty()));
    assert(encode_frame(f) + Seq::<u8>::empty() =~= encode_frame(f));
}

/// The bytes of a well-formed frame, cut short anywhere, decode to "not
/// complete": never to a frame, and never to an error that would close the
/// connection.
pub proof fn law_cut_frame_is_not_complete(f: Frame, i: int)
    requires
        f.wf(),
        0 <= i < encode_frame(f).len(),
    ensures
        decode_frame(encode_frame(f).take(i)) == Err::<(Frame, nat), Fault>(Fault::NotComplete),
{
    lemma_frame_cut(f, i);
}

/// The frames that the decoder takes from the bytes `s`, one after the
/// other, until the bytes left over begin no whole frame; and those bytes.
pub open spec fn decode_all(s: Seq<u8>) -> (Seq<Frame>, Seq<u8>)
    decreases s.len(),
{
    match decode_frame(s) {
        Ok((f, n)) => if 0 < n <= s.len() {
            (seq![f] + decode_all(s.skip(n as int)).0, decode_all(s.skip(n as int)).1)
        } else {
            (Seq::empty(), s)
        },
        Err(_) => (Seq::empty(), s),
    }
}

/// The decoder takes a well-formed frame from the front of the bytes and
/// goes on with what follows it.
pub proof fn lemma_decode_all_step(f: Frame, rest: Seq<u8>)
    requires
        f.wf(),
    ensures
        decode_all(encode_frame(f) + rest) == (
            seq![f] + decode_all(rest).0,
            decode_all(rest).1,
        ),
{
    lemma_frame_round_trip(f, rest);
    assert(reads_back(f, rest));
    law_round_trip(f, rest);
    let s = encode_frame(f) + rest;
    assert(s.skip(encode_frame(f).len() as int) =~= rest);
}

/// The decoder takes nothing from the bytes of a well-formed frame that was
/// cut short.
pub proof fn lemma_decode_all_cut(f: Frame, i: int)
    requires
        f.wf(),
        0 <= i < encode_frame(f).len(),
    ensures
        decode_all(encode_frame(f).take(i)) == (Seq::<Frame>::empty(), encode_frame(f).take(i)),
{
    law_cut_frame_is_not_complete(f, i);
}

/// Well-formed frames that are written one after the other, and fed to the
/// decoder in two parts split at the index `i`: the frames taken from the
/// first part, then those taken from what the first part left over with
/// the second part behind it, are the frames that were written, in order;
/// nothing is left over in the end; and what the first part left over
/// decodes to "not complete". This holds of the frames of `fs` from the
/// `from`-th on.
pub proof fn lemma_fragmentation(fs: Seq<Frame>, from: int, i: int)
    requires
        0 <= from <= fs.len(),
        forall|j: int| 0 <= j < fs.len() ==> (#[trigger] fs[j]).wf(),
        0 <= i <= encode_frames(fs.skip(from)).len(),
    ensures
        ({
            let bytes = encode_frames(fs.skip(from));
            let first = decode_all(bytes.take(i));
            let second = decode_all(first.1 + bytes.skip(i));
            &&& first.0 + second.0 == fs.skip(from)
            &&& second.1 == Seq::<u8>::empty()
            &&& decode_frame(first.1) == Err::<(Frame, nat), Fault>(Fault::NotComplete)
        }),
    decreases fs.len() - from, encode_frames(fs.skip(from)).len() - i,
{
    let tail = fs.skip(from);
    let bytes = encode_frames(tail);
    if from == fs.len() {
        assert(tail =~= Seq::<Frame>::empty());
        assert(bytes.take(i) =~= Seq::<u8>::empty());
        assert(bytes.skip(i) =~= Seq::<u8>::empty());
        let first = decode_all(bytes.take(i));
        assert(first.1 + bytes.skip(i) =~= Seq::<u8>::empty());
        assert(first.0 + decode_all(first.1 + bytes.skip(i)).0 =~= tail);
    } else {
        let f = fs[from];
        let more = fs.skip(from + 1);
        assert(tail.skip(1) =~= more);
        assert(tail[0] == f);
        assert(seq![f] + more =~= tail);
        lemma_encode_frames_front(tail);
        let head = encode_frame(f);
        let after = encode_frames(more);
        lemma_take_of_concat(head, after, i);
        if i >= head.len() {
            let rest = after.take(i - head.len());
            lemma_decode_all_step(f, rest);
            assert(bytes.skip(i) =~= after.skip(i - head.len()));
            lemma_fragmentation(fs, from + 1, i - head.len());
            let inner = decode_all(rest);
            let second = decode_all(inner.1 + bytes.skip(i));
            assert((seq![f] + inner.0) + second.0 =~= seq![f] + (inner.0 + second.0));
        } else {
            lemma_decode_all_cut(f, i);
            law_cut_frame_is_not_complete(f, i);
            assert(bytes.take(i) + bytes.skip(i) =~= bytes);
            lemma_decode_all_step(f, after);
            assert(after.take(0) =~= Seq::<u8>::empty());
            assert(after.skip(0) =~= after);
            lemma_fragmentation(fs, from + 1, 0);
            let inner = decode_all(after.take(0));
            assert(inner.0 =~= Seq::<Frame>::empty());
            assert(inner.1 + after.skip(0) =~= after);
            assert(inner.0 + decode_all(after).0 =~= decode_all(after).0);
            let whole = decode_all(bytes);
            assert(Seq::<Frame>::empty() + whole.0 =~= whole.0);
        }
    }
}

/// Fragmentation immunity. Well-formed frames written one after the other
/// and fed to the decoder in two parts, split at any index, give the same
/// frames in the same order as the bytes fed whole; where the first part
/// ends in the middle of a frame the decoder reports "not complete" and
/// consumes nothing of that frame.
pub proof fn law_fragmentation_immunity(fs: Seq<Frame>, i: int)
    requires
        forall|j: int| 0 <= j < fs.len() ==> (#[trigger] fs[j]).wf(),
        0 <= i <= encode_frames(fs).len(),
    ensures
        decode_all(encode_frames(fs)) == (fs, Seq::<u8>::empty()),
        ({
            let bytes = encode_frames(fs);
            let first = decode_all(bytes.take(i));
            let second = decode_all(first.1 + bytes.skip(i));
            &&& first.0 + second.0 == fs
            &&& second.1 == Seq::<u8>::empty()
            &&& decode_frame(first.1) == Err::<(Frame, nat), Fault>(Fault::NotComplete)
        }),
{
    assert(fs.skip(0) =~= fs);
    lemma_fragmentation(fs, 0, i);
    lemma_fragmentation(fs, 0, 0);
    let bytes = encode_frames(fs);
    let none = decode_all(bytes.take(0));
    assert(bytes.take(0) =~= Seq::<u8>::empty());
    assert(none.0 =~= Seq::<Frame>::empty());
    assert(none.1 + bytes.skip(0) =~= bytes);
    assert(none.0 + decode_all(bytes).0 =~= decode_all(bytes).0);
}

/// The sign of an integer is always written: zero is `:+0` and minus one is
/// `:-1`, each with the line end behind it.
pub proof fn law_integer_sign_rule()
    ensures
        encode_frame(Frame::Integer(0i64)) == seq![INTEGER_TAG, 43u8, 48u8, CR, LF],
        encode_frame(Frame::Integer(-1i64)) == seq![INTEGER_TAG, 45u8, 49u8, CR, LF],
{
    assert(decimal(0) =~= seq![48u8]);
    assert(decimal(1) =~= seq![49u8]);
    assert(encode_frame(Frame::Integer(0i64)) =~= seq![INTEGER_TAG, 43u8, 48u8, CR, LF]);
    assert(encode_frame(Frame::Integer(-1i64)) =~= seq![INTEGER_TAG, 45u8, 49u8, CR, LF]);
}

/// The null bulk string and the null array are frames of their own: each
/// decodes to its own null and not to the null frame, and all three are
/// written differently.
pub proof fn law_null_variants(rest: Seq<u8>)
    ensures
        decode_frame(null_bulk() + rest) == Ok::<(Frame, nat), Fault>(
            (Frame::BulkString(None), 5),
        ),
        decode_frame(null_array() + rest) == Ok::<(Frame, nat), Fault>((Frame::Array(None), 5)),
        decode_frame(null_frame() + rest) == Ok::<(Frame, nat), Fault>((Frame::Null, 3)),
{
    law_round_trip(Frame::BulkString(None), rest);
    law_round_trip(Frame::Array(None), rest);
    law_round_trip(Frame::Null, rest);
}

/// Not complete, or malformed: the size pass alone decides which. Decoding
/// reports "not complete" exactly where the size pass asks for more bytes
/// than there are; and a frame that is decoded takes exactly the bytes that
/// the size pass counted, which are three at least.
pub proof fn law_size_pass_decides(s: Seq<u8>)
    ensures
        decode_frame(s) == Err::<(Frame, nat), Fault>(Fault::NotComplete) <==> incomplete(s),
        decode_frame(s) matches Ok((f, n)) ==> frame_span(s) == Ok::<nat, Fault>(n) && 3 <= n
            <= s.len(),
{
    lemma_passes_agree(s);
    if frame_span(s) is Ok {
        lemma_span_is_three_at_least(s);
    }
}

} // verus!
