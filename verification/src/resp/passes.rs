//! Why the size pass and the value pass of the decoder agree.
use crate::resp::wire::{
    array_span, body_span, bulk_span, declared_length, entries_body_span, entries_span,
    entries_value, frame_span, frame_value, frames_span, frames_value, line_span, map_span,
    null_array, set_span, starts_with, Fault, Frame, ARRAY_TAG, BOOLEAN_TAG, BULK_TAG, DOUBLE_TAG,
    ERROR_TAG, INTEGER_TAG, MAP_TAG, NULL_TAG, SET_TAG, SIMPLE_STRING_TAG,
};
use vstd::prelude::*;

verus! {

/// Whether the value pass agrees with a size pass that found the span `n`
/// within the bytes: it does not ask for more bytes, and a frame that it
/// reads takes `n` bytes.
pub open spec fn value_agrees(value: Result<(Frame, nat), Fault>, n: nat) -> bool {
    match value {
        Ok((_, m)) => m == n,
        Err(e) => e != Fault::NotComplete,
    }
}

/// The same, for the items of an aggregate.
pub open spec fn values_agree(value: Result<(Seq<Frame>, nat), Fault>, n: nat) -> bool {
    match value {
        Ok((_, m)) => m == n,
        Err(e) => e != Fault::NotComplete,
    }
}

/// The same, for the entries of a map.
pub open spec fn entries_agree(
    value: Result<(Seq<(Seq<u8>, Frame)>, nat), Fault>,
    n: nat,
) -> bool {
    match value {
        Ok((_, m)) => m == n,
        Err(e) => e != Fault::NotComplete,
    }
}

/// Whether the two passes agree on the first frame of `s`, where the size
/// pass finds it within `s`.
pub open spec fn passes_agree(s: Seq<u8>) -> bool {
    frame_span(s) matches Ok(n) ==> (n <= s.len() ==> value_agrees(frame_value(s), n))
}

/// Whether the two passes agree on `count` items at the start of `rest`,
/// where the size pass finds them; it finds them within `rest` then.
pub open spec fn items_agree(rest: Seq<u8>, count: nat) -> bool {
    frames_span(rest, count) matches Ok(n) ==> n <= rest.len() && values_agree(
        frames_value(rest, count),
        n,
    )
}

/// Whether the two passes agree on `count` map entries at the start of
/// `rest`, where the size pass finds them.
pub open spec fn pairs_agree(rest: Seq<u8>, count: nat) -> bool {
    entries_span(rest, count) matches Ok(n) ==> n <= rest.len() && entries_agree(
        entries_value(rest, count),
        n,
    )
}

/// The passes agree on a frame of one line.
pub proof fn lemma_line_agrees(s: Seq<u8>)
    requires
        s.len() > 0,
        s[0] == SIMPLE_STRING_TAG || s[0] == ERROR_TAG || s[0] == INTEGER_TAG || s[0]
            == DOUBLE_TAG,
    ensures
        passes_agree(s),
{
    let tag = seq![s[0]];
    assert(tag =~= seq![SIMPLE_STRING_TAG] || tag =~= seq![ERROR_TAG] || tag =~= seq![INTEGER_TAG]
        || tag =~= seq![DOUBLE_TAG]);
}

/// The passes agree on a bulk string.
pub proof fn lemma_bulk_agrees(s: Seq<u8>)
    requires
        s.len() > 0,
        s[0] == BULK_TAG,
    ensures
        passes_agree(s),
{
}

/// The passes agree on the null frame and on a boolean.
pub proof fn lemma_fixed_agrees(s: Seq<u8>)
    requires
        s.len() > 0,
        s[0] == NULL_TAG || s[0] == BOOLEAN_TAG,
    ensures
        passes_agree(s),
{
}

/// The passes agree on the null array.
pub proof fn lemma_null_array_agrees(s: Seq<u8>)
    requires
        s.len() > 0,
        s[0] == ARRAY_TAG,
        starts_with(s, null_array()),
    ensures
        passes_agree(s),
{
}

/// The passes agree on an array where they agree on its items.
pub proof fn lemma_array_agrees(s: Seq<u8>, end: nat, count: usize)
    requires
        s.len() > 0,
        s[0] == ARRAY_TAG,
        !starts_with(s, null_array()),
        declared_length(s, seq![ARRAY_TAG]) == Ok::<(nat, usize), Fault>((end, count)),
        items_agree(s.skip(end as int + 2), count as nat),
    ensures
        passes_agree(s),
{
    assert(array_span(s) == body_span(s, end, count as nat));
}

/// The passes agree on a set where they agree on its items.
pub proof fn lemma_set_agrees(s: Seq<u8>, end: nat, count: usize)
    requires
        s.len() > 0,
        s[0] == SET_TAG,
        declared_length(s, seq![SET_TAG]) == Ok::<(nat, usize), Fault>((end, count)),
        items_agree(s.skip(end as int + 2), count as nat),
    ensures
        passes_agree(s),
{
    assert(set_span(s) == body_span(s, end, count as nat));
}

/// The passes agree on a map where they agree on its entries.
pub proof fn lemma_map_agrees(s: Seq<u8>, end: nat, count: usize)
    requires
        s.len() > 0,
        s[0] == MAP_TAG,
        declared_length(s, seq![MAP_TAG]) == Ok::<(nat, usize), Fault>((end, count)),
        pairs_agree(s.skip(end as int + 2), count as nat),
    ensures
        passes_agree(s),
{
    assert(map_span(s) == entries_body_span(s, end, count as nat));
}

/// The two passes agree. Where the size pass finds the first frame of `s`
/// within `s`, the value pass does not ask for more bytes, and the frame
/// that it reads takes exactly the bytes that the size pass counted.
pub proof fn lemma_passes_agree(s: Seq<u8>)
    ensures
        passes_agree(s),
    decreases s.len(), 0nat, 1nat,
{
    if s.len() > 0 {
        let tag = s[0];
        if tag == SIMPLE_STRING_TAG || tag == ERROR_TAG || tag == INTEGER_TAG || tag
            == DOUBLE_TAG {
            lemma_line_agrees(s);
        } else if tag == BULK_TAG {
            lemma_bulk_agrees(s);
        } else if tag == NULL_TAG || tag == BOOLEAN_TAG {
            lemma_fixed_agrees(s);
        } else if tag == ARRAY_TAG {
            if starts_with(s, null_array()) {
                lemma_null_array_agrees(s);
            } else if let Ok((end, count)) = declared_length(s, seq![ARRAY_TAG]) {
                if end + 2 <= s.len() {
                    lemma_frames_agree(s.skip(end as int + 2), count as nat);
                    lemma_array_agrees(s, end, count);
                }
            }
        } else if tag == SET_TAG {
            if let Ok((end, count)) = declared_length(s, seq![SET_TAG]) {
                if end + 2 <= s.len() {
                    lemma_frames_agree(s.skip(end as int + 2), count as nat);
                    lemma_set_agrees(s, end, count);
                }
            }
        } else if tag == MAP_TAG {
            if let Ok((end, count)) = declared_length(s, seq![MAP_TAG]) {
                if end + 2 <= s.len() {
                    lemma_entries_agree(s.skip(end as int + 2), count as nat);
                    lemma_map_agrees(s, end, count);
                }
            }
        }
    }
}

/// The two passes agree on the items of an aggregate.
pub proof fn lemma_frames_agree(rest: Seq<u8>, count: nat)
    ensures
        items_agree(rest, count),
    decreases rest.len(), count, 0nat,
{
    if count > 0 {
        if let Ok(k) = frame_span(rest) {
            if k <= rest.len() {
                lemma_passes_agree(rest);
                lemma_frames_agree(rest.skip(k as int), (count - 1) as nat);
            }
        }
    }
}

/// The two passes agree on the entries of a map.
pub proof fn lemma_entries_agree(rest: Seq<u8>, count: nat)
    ensures
        pairs_agree(rest, count),
    decreases rest.len(), count, 0nat,
{
    if count > 0 {
        if let Ok(k) = line_span(rest, seq![SIMPLE_STRING_TAG]) {
            if k <= rest.len() {
                if let Ok(v) = frame_span(rest.skip(k as int)) {
                    if k + v <= rest.len() {
                        lemma_passes_agree(rest.skip(k as int));
                        lemma_entries_agree(rest.skip((k + v) as int), (count - 1) as nat);
                    }
                }
            }
        }
    }
}

/// No frame spans less than three bytes.
pub proof fn lemma_span_is_three_at_least(s: Seq<u8>)
    requires
        frame_span(s) is Ok,
    ensures
        frame_span(s)->Ok_0 >= 3,
{
    let tag = s[0];
    if tag == SIMPLE_STRING_TAG || tag == ERROR_TAG || tag == INTEGER_TAG || tag == DOUBLE_TAG {
        assert(line_span(s, seq![tag]) is Ok);
    } else if tag == BULK_TAG {
        assert(bulk_span(s) is Ok);
    } else if tag == ARRAY_TAG {
        assert(array_span(s) is Ok);
        if !starts_with(s, null_array()) {
            let end = declared_length(s, seq![ARRAY_TAG])->Ok_0.0;
            let count = declared_length(s, seq![ARRAY_TAG])->Ok_0.1;
            assert(body_span(s, end, count as nat) is Ok);
        }
    } else if tag == SET_TAG {
        assert(set_span(s) is Ok);
        let end = declared_length(s, seq![SET_TAG])->Ok_0.0;
        let count = declared_length(s, seq![SET_TAG])->Ok_0.1;
        assert(body_span(s, end, count as nat) is Ok);
    } else if tag == MAP_TAG {
        assert(map_span(s) is Ok);
        let end = declared_length(s, seq![MAP_TAG])->Ok_0.0;
        let count = declared_length(s, seq![MAP_TAG])->Ok_0.1;
        assert(entries_body_span(s, end, count as nat) is Ok);
    }
}

} // verus!
