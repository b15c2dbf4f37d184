//! The decoder's walks over the items of an aggregate, one step at a time.
use crate::resp::cut::incomplete;
use crate::resp::wire::{
    body_span, body_value, entries_body_span, entries_body_value, entries_span, entries_value,
    frame_span, frame_value, frames_span, frames_value, line_span, line_value, map_insert,
    map_of_pairs, Fault, Frame, SIMPLE_STRING_TAG,
};
use vstd::prelude::*;

verus! {

/// The result of reading items, with the items `read` and the `pos` bytes
/// that were read before them put in front.
pub open spec fn with_frames_before(
    read: Seq<Frame>,
    pos: nat,
    r: Result<(Seq<Frame>, nat), Fault>,
) -> Result<(Seq<Frame>, nat), Fault> {
    match r {
        Ok((v, m)) => Ok((read + v, pos + m)),
        Err(e) => Err(e),
    }
}

/// The result of reading entries, with the entries `read` and the `pos`
/// bytes that were read before them put in front.
pub open spec fn with_entries_before(
    read: Seq<(Seq<u8>, Frame)>,
    pos: nat,
    r: Result<(Seq<(Seq<u8>, Frame)>, nat), Fault>,
) -> Result<(Seq<(Seq<u8>, Frame)>, nat), Fault> {
    match r {
        Ok((v, m)) => Ok((read + v, pos + m)),
        Err(e) => Err(e),
    }
}

/// One step of the value pass over the items of an aggregate.
pub proof fn lemma_frames_value_step(bytes: Seq<u8>, count: nat, f: Frame, k: nat)
    requires
        count > 0,
        frame_value(bytes) == Ok::<(Frame, nat), Fault>((f, k)),
        k <= bytes.len(),
    ensures
        frames_value(bytes, count) == with_frames_before(
            seq![f],
            k,
            frames_value(bytes.skip(k as int), (count - 1) as nat),
        ),
{
}

/// An item that is refused is refused for the aggregate.
pub proof fn lemma_frames_value_fault(bytes: Seq<u8>, count: nat, e: Fault)
    requires
        count > 0,
        frame_value(bytes) == Err::<(Frame, nat), Fault>(e),
    ensures
        frames_value(bytes, count) == Err::<(Seq<Frame>, nat), Fault>(e),
{
}

/// Putting items in front, in two steps or in one.
pub proof fn lemma_frames_before(
    read: Seq<Frame>,
    pos: nat,
    f: Frame,
    k: nat,
    r: Result<(Seq<Frame>, nat), Fault>,
)
    ensures
        with_frames_before(read, pos, with_frames_before(seq![f], k, r)) == with_frames_before(
            read.push(f),
            pos + k,
            r,
        ),
{
    match r {
        Ok((v, m)) => {
            assert(read + (seq![f] + v) =~= read.push(f) + v);
        },
        Err(_) => {},
    }
}

/// One step of the value pass over the entries of a map.
pub proof fn lemma_entries_value_step(
    bytes: Seq<u8>,
    count: nat,
    key: Seq<u8>,
    k: nat,
    value: Frame,
    v: nat,
)
    requires
        count > 0,
        line_value(bytes, SIMPLE_STRING_TAG) == Ok::<(Seq<u8>, nat), Fault>((key, k)),
        k <= bytes.len(),
        frame_value(bytes.skip(k as int)) == Ok::<(Frame, nat), Fault>((value, v)),
        k + v <= bytes.len(),
    ensures
        entries_value(bytes, count) == with_entries_before(
            seq![(key, value)],
            k + v,
            entries_value(bytes.skip((k + v) as int), (count - 1) as nat),
        ),
{
}

/// A key that is refused is refused for the map.
pub proof fn lemma_entries_value_key_fault(bytes: Seq<u8>, count: nat, e: Fault)
    requires
        count > 0,
        line_value(bytes, SIMPLE_STRING_TAG) == Err::<(Seq<u8>, nat), Fault>(e),
    ensures
        entries_value(bytes, count) == Err::<(Seq<(Seq<u8>, Frame)>, nat), Fault>(e),
{
}

/// A value that is refused is refused for the map.
pub proof fn lemma_entries_value_fault(bytes: Seq<u8>, count: nat, key: Seq<u8>, k: nat, e: Fault)
    requires
        count > 0,
        line_value(bytes, SIMPLE_STRING_TAG) == Ok::<(Seq<u8>, nat), Fault>((key, k)),
        k <= bytes.len(),
        frame_value(bytes.skip(k as int)) == Err::<(Frame, nat), Fault>(e),
    ensures
        entries_value(bytes, count) == Err::<(Seq<(Seq<u8>, Frame)>, nat), Fault>(e),
{
}

/// Putting entries in front, in two steps or in one.
pub proof fn lemma_entries_before(
    read: Seq<(Seq<u8>, Frame)>,
    pos: nat,
    pair: (Seq<u8>, Frame),
    k: nat,
    r: Result<(Seq<(Seq<u8>, Frame)>, nat), Fault>,
)
    ensures
        with_entries_before(read, pos, with_entries_before(seq![pair], k, r))
            == with_entries_before(read.push(pair), pos + k, r),
{
    match r {
        Ok((v, m)) => {
            assert(read + (seq![pair] + v) =~= read.push(pair) + v);
        },
        Err(_) => {},
    }
}

/// One step of the size pass over the items of an aggregate: the first item
/// is whole, the rest decides.
pub proof fn lemma_frames_span_step(bytes: Seq<u8>, count: nat, k: nat)
    requires
        count > 0,
        frame_span(bytes) == Ok::<nat, Fault>(k),
        k <= bytes.len(),
    ensures
        frames_span(bytes, count) == (match frames_span(
            bytes.skip(k as int),
            (count - 1) as nat,
        ) {
            Ok(m) => Ok::<nat, Fault>(k + m),
            Err(e) => Err::<nat, Fault>(e),
        }),
{
}

/// Where the first item of an aggregate is not complete, neither are the
/// items.
pub proof fn lemma_frames_span_incomplete(bytes: Seq<u8>, count: nat)
    requires
        count > 0,
        incomplete(bytes),
    ensures
        frames_span(bytes, count) == Err::<nat, Fault>(Fault::NotComplete),
{
}

/// One step of the size pass over the entries of a map: the first entry is
/// whole, the rest decides.
pub proof fn lemma_entries_span_step(bytes: Seq<u8>, count: nat, k: nat, v: nat)
    requires
        count > 0,
        line_span(bytes, seq![SIMPLE_STRING_TAG]) == Ok::<nat, Fault>(k),
        k <= bytes.len(),
        frame_span(bytes.skip(k as int)) == Ok::<nat, Fault>(v),
        k + v <= bytes.len(),
    ensures
        entries_span(bytes, count) == (match entries_span(
            bytes.skip((k + v) as int),
            (count - 1) as nat,
        ) {
            Ok(m) => Ok::<nat, Fault>(k + v + m),
            Err(e) => Err::<nat, Fault>(e),
        }),
{
}

/// Where the key of the first entry is whole and its value is not complete,
/// the entries are not complete.
pub proof fn lemma_entries_span_incomplete_value(bytes: Seq<u8>, count: nat, k: nat)
    requires
        count > 0,
        line_span(bytes, seq![SIMPLE_STRING_TAG]) == Ok::<nat, Fault>(k),
        k <= bytes.len(),
        incomplete(bytes.skip(k as int)),
    ensures
        entries_span(bytes, count) == Err::<nat, Fault>(Fault::NotComplete),
{
}

/// Where the key of the first entry is not complete, the entries are not
/// complete.
pub proof fn lemma_entries_span_incomplete_key(bytes: Seq<u8>, count: nat)
    requires
        count > 0,
        line_span(bytes, seq![SIMPLE_STRING_TAG]) == Err::<nat, Fault>(Fault::NotComplete),
    ensures
        entries_span(bytes, count) == Err::<nat, Fault>(Fault::NotComplete),
{
}

/// The body of an aggregate, read from where the header line ends.
pub proof fn lemma_body(s: Seq<u8>, end: nat, count: nat, k: nat, v: Seq<Frame>)
    requires
        end + 2 <= s.len(),
        frames_span(s.skip(end as int + 2), count) == Ok::<nat, Fault>(k),
        frames_value(s.skip(end as int + 2), count) == Ok::<(Seq<Frame>, nat), Fault>((v, k)),
    ensures
        body_span(s, end, count) == Ok::<nat, Fault>(end + 2 + k),
        body_value(s, end, count) == Ok::<(Seq<Frame>, nat), Fault>((v, end + 2 + k)),
{
}

/// The body of a map, read from where the header line ends.
pub proof fn lemma_entries_body(s: Seq<u8>, end: nat, count: nat, k: nat, m: Seq<(Seq<u8>, Frame)>)
    requires
        end + 2 <= s.len(),
        entries_span(s.skip(end as int + 2), count) == Ok::<nat, Fault>(k),
        entries_value(s.skip(end as int + 2), count) == Ok::<(Seq<(Seq<u8>, Frame)>, nat), Fault>(
            (m, k),
        ),
    ensures
        entries_body_span(s, end, count) == Ok::<nat, Fault>(end + 2 + k),
        entries_body_value(s, end, count) == Ok::<(Seq<(Seq<u8>, Frame)>, nat), Fault>(
            (m, end + 2 + k),
        ),
{
}

/// Items that are refused are refused for the aggregate.
pub proof fn lemma_body_fault(s: Seq<u8>, end: nat, count: nat, e: Fault)
    requires
        end + 2 <= s.len(),
        frames_span(s.skip(end as int + 2), count) == Err::<nat, Fault>(e),
    ensures
        body_span(s, end, count) == Err::<nat, Fault>(e),
{
}

/// Entries that are refused are refused for the map.
pub proof fn lemma_entries_body_fault(s: Seq<u8>, end: nat, count: nat, e: Fault)
    requires
        end + 2 <= s.len(),
        entries_span(s.skip(end as int + 2), count) == Err::<nat, Fault>(e),
    ensures
        entries_body_span(s, end, count) == Err::<nat, Fault>(e),
{
}

/// The result of measuring items, with the `pos` bytes that were measured
/// before them put in front.
pub open spec fn with_span_before(pos: nat, r: Result<nat, Fault>) -> Result<nat, Fault> {
    match r {
        Ok(m) => Ok(pos + m),
        Err(e) => Err(e),
    }
}

/// Putting bytes in front, in two steps or in one.
pub proof fn lemma_span_before(pos: nat, k: nat, r: Result<nat, Fault>)
    ensures
        with_span_before(pos, with_span_before(k, r)) == with_span_before(pos + k, r),
{
}

/// One step of the size pass over items, whatever it comes to: the first
/// item is whole and the rest decides, or it reaches beyond the bytes, or
/// it is refused.
pub proof fn lemma_frames_span_unfold(bytes: Seq<u8>, count: nat)
    requires
        count > 0,
    ensures
        frames_span(bytes, count) == (match frame_span(bytes) {
            Ok(k) => if k > bytes.len() {
                Err::<nat, Fault>(Fault::NotComplete)
            } else {
                with_span_before(k, frames_span(bytes.skip(k as int), (count - 1) as nat))
            },
            Err(e) => Err::<nat, Fault>(e),
        }),
{
}

/// One step of the size pass over map entries, up to the key: a key that
/// is refused is refused for the entries.
pub proof fn lemma_entries_span_key_fault(bytes: Seq<u8>, count: nat, e: Fault)
    requires
        count > 0,
        line_span(bytes, seq![SIMPLE_STRING_TAG]) == Err::<nat, Fault>(e),
    ensures
        entries_span(bytes, count) == Err::<nat, Fault>(e),
{
}

/// One step of the size pass over map entries, behind a key that is whole:
/// the value is whole and the rest decides, or it reaches beyond the bytes,
/// or it is refused.
pub proof fn lemma_entries_span_unfold(bytes: Seq<u8>, count: nat, k: nat)
    requires
        count > 0,
        line_span(bytes, seq![SIMPLE_STRING_TAG]) == Ok::<nat, Fault>(k),
        k <= bytes.len(),
    ensures
        entries_span(bytes, count) == (match frame_span(bytes.skip(k as int)) {
            Ok(v) => if k + v > bytes.len() {
                Err::<nat, Fault>(Fault::NotComplete)
            } else {
                with_span_before(
                    k + v,
                    entries_span(bytes.skip((k + v) as int), (count - 1) as nat),
                )
            },
            Err(e) => Err::<nat, Fault>(e),
        }),
{
}

/// The map of pairs with one more pair behind them is the map of the pairs
/// with that pair inserted.
pub proof fn lemma_map_of_pairs_push(pairs: Seq<(Seq<u8>, Frame)>, pair: (Seq<u8>, Frame))
    ensures
        map_of_pairs(pairs.push(pair)) == map_insert(map_of_pairs(pairs), pair.0, pair.1),
{
    assert(pairs.push(pair).drop_last() =~= pairs);
}

} // verus!
