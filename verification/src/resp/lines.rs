//! Facts about lines, header lines and the texts within them, on which the
//! laws of the codec rest.
use crate::resp::lemma_line_end;
use crate::resp::wire::{
    between, decimal_number_at, declared_length, encode_entries, encode_frame, encode_frames,
    is_crlf_at, is_decimal_number, is_double_text, is_line_end, is_sign, is_word, key_less,
    key_position_from, keys_sorted, line, line_header, map_insert, map_of_pairs, no_line_break,
    to_lower, Fault, Frame, CR, LF, SIMPLE_STRING_TAG,
};
use crate::text::{decimal, is_digit, lemma_decimal, lemma_unsigned_round_trip};
use vstd::prelude::*;

verus! {

/// A line is read back: its end is found behind the payload, whatever
/// follows the line.
pub proof fn lemma_line(tag: u8, payload: Seq<u8>, rest: Seq<u8>)
    requires
        no_line_break(payload),
    ensures
        ({
            let s = line(tag, payload) + rest;
            &&& s.len() == payload.len() + 3 + rest.len()
            &&& s[0] == tag
            &&& is_line_end(s, 1 + payload.len() as int)
            &&& line_header(s, seq![tag]) == Ok::<nat, Fault>((1 + payload.len()) as nat)
            &&& between(s, 1, 1 + payload.len() as int) == payload
            &&& s.skip(payload.len() as int + 3) == rest
        }),
{
    let s = line(tag, payload) + rest;
    let e = 1 + payload.len() as int;
    assert(s[e] == CR && s[e + 1] == LF);
    assert forall|j: int| 1 <= j < e implies !is_crlf_at(s, j) by {
        assert(s[j] == payload[j - 1]);
    }
    lemma_line_end(s, e);
    assert(s.take(1) =~= seq![tag]);
    assert(between(s, 1, e) =~= payload);
    assert(s.skip(payload.len() as int + 3) =~= rest);
}

/// A line that is cut short has no end yet.
pub proof fn lemma_line_cut(tag: u8, payload: Seq<u8>, i: int)
    requires
        no_line_break(payload),
        0 < i < payload.len() + 3,
    ensures
        line_header(line(tag, payload).take(i), seq![tag]) == Err::<nat, Fault>(
            Fault::NotComplete,
        ),
        line(tag, payload).take(i)[0] == tag,
{
    let s = line(tag, payload);
    let p = s.take(i);
    if i >= 3 {
        assert(p.take(1) =~= seq![tag]);
        assert forall|e: int| !is_line_end(p, e) by {
            if is_crlf_at(p, e) && 1 <= e {
                assert(p[e] == s[e]);
                assert(s[e] == payload[e - 1]);
            }
        }
    }
}

/// The header line of a bulk string or of an aggregate is read back: its
/// end, and the length that it declares.
pub proof fn lemma_header(tag: u8, n: nat, rest: Seq<u8>)
    requires
        n <= usize::MAX,
    ensures
        ({
            let s = line(tag, decimal(n)) + rest;
            &&& s.len() == decimal(n).len() + 3 + rest.len()
            &&& s[0] == tag
            &&& is_digit(s[1])
            &&& declared_length(s, seq![tag]) == Ok::<(nat, usize), Fault>(
                ((1 + decimal(n).len()) as nat, n as usize),
            )
            &&& s.skip(decimal(n).len() as int + 3) == rest
        }),
{
    lemma_decimal(n);
    lemma_unsigned_round_trip(n);
    let d = decimal(n);
    assert(no_line_break(d)) by {
        assert forall|i: int| 0 <= i < d.len() implies #[trigger] d[i] != CR && d[i] != LF by {
            assert(is_digit(d[i]));
        }
    }
    lemma_line(tag, d, rest);
    let s = line(tag, d) + rest;
    assert(s[1] == d[0]);
    assert(is_digit(d[0]));
    assert(seq![tag].len() == 1);
}

/// A header line that is cut short has no end yet.
pub proof fn lemma_header_cut(tag: u8, n: nat, i: int)
    requires
        0 < i < decimal(n).len() + 3,
    ensures
        ({
            let p = line(tag, decimal(n)).take(i);
            &&& declared_length(p, seq![tag]) is Err
            &&& declared_length(p, seq![tag])->Err_0 == Fault::NotComplete
            &&& p[0] == tag
            &&& i > 1 ==> is_digit(p[1])
        }),
{
    lemma_decimal(n);
    let d = decimal(n);
    assert(no_line_break(d)) by {
        assert forall|i: int| 0 <= i < d.len() implies #[trigger] d[i] != CR && d[i] != LF by {
            assert(is_digit(d[i]));
        }
    }
    lemma_line_cut(tag, d, i);
    if i > 1 {
        assert(line(tag, d).take(i)[1] == d[0]);
        assert(is_digit(d[0]));
    }
}

/// A decimal number holds no line break.
pub proof fn lemma_decimal_number(s: Seq<u8>)
    requires
        is_decimal_number(s),
    ensures
        no_line_break(s),
{
    reveal(is_decimal_number);
    let (w, m, x) = choose|w: int, m: int, x: int| decimal_number_at(s, w, m, x);
    assert forall|j: int| 0 <= j < s.len() implies #[trigger] s[j] != CR && s[j] != LF by {
        if j < w {
            assert(is_digit(s[j]));
        } else if j < m {
            if j > w {
                assert(is_digit(s[j]));
            }
        } else if j >= x {
            assert(is_digit(s[j]));
        }
    }
}

/// A word in any letter case holds no line break, where the word itself
/// holds none.
pub proof fn lemma_word(s: Seq<u8>, word: Seq<u8>)
    requires
        is_word(s, word),
        no_line_break(word),
    ensures
        no_line_break(s),
{
    assert forall|j: int| 0 <= j < s.len() implies #[trigger] s[j] != CR && s[j] != LF by {
        assert(to_lower(s[j]) == word[j]);
        assert(word[j] != CR && word[j] != LF);
    }
}

/// The text of a double holds no line break.
pub proof fn lemma_double_text(t: Seq<u8>)
    requires
        is_double_text(t),
    ensures
        no_line_break(t),
{
    let body = if t.len() > 0 && is_sign(t[0]) {
        t.skip(1)
    } else {
        t
    };
    let inf = seq![105u8, 110u8, 102u8];
    let infinity = seq![105u8, 110u8, 102u8, 105u8, 110u8, 105u8, 116u8, 121u8];
    let nan = seq![110u8, 97u8, 110u8];
    if is_word(body, inf) {
        lemma_word(body, inf);
    } else if is_word(body, infinity) {
        lemma_word(body, infinity);
    } else if is_word(body, nan) {
        lemma_word(body, nan);
    } else {
        lemma_decimal_number(body);
    }
    assert forall|j: int| 0 <= j < t.len() implies #[trigger] t[j] != CR && t[j] != LF by {
        if t.len() > 0 && is_sign(t[0]) {
            if j > 0 {
                assert(body[j - 1] == t[j]);
            }
        }
    }
}

/// The encodings of frames, taken from the front: the first, then the rest.
pub proof fn lemma_encode_frames_front(v: Seq<Frame>)
    requires
        v.len() > 0,
    ensures
        encode_frames(v) == encode_frame(v[0]) + encode_frames(v.skip(1)),
    decreases v.len(),
{
    if v.len() == 1 {
        assert(v.drop_last() =~= Seq::<Frame>::empty());
        assert(v.skip(1) =~= Seq::<Frame>::empty());
        assert(encode_frames(v.drop_last()) =~= Seq::<u8>::empty());
        assert(encode_frames(v) =~= encode_frame(v[0]) + encode_frames(v.skip(1)));
    } else {
        lemma_encode_frames_front(v.drop_last());
        assert(v.drop_last().skip(1) =~= v.skip(1).drop_last());
        assert(v.skip(1).last() == v.last());
        assert(encode_frames(v) =~= encode_frame(v[0]) + encode_frames(v.skip(1)));
    }
}

/// The encodings of map entries, taken from the front.
pub proof fn lemma_encode_entries_front(m: Seq<(Seq<u8>, Frame)>)
    requires
        m.len() > 0,
    ensures
        encode_entries(m) == line(SIMPLE_STRING_TAG, m[0].0) + encode_frame(m[0].1)
            + encode_entries(m.skip(1)),
    decreases m.len(),
{
    if m.len() == 1 {
        assert(m.drop_last() =~= Seq::<(Seq<u8>, Frame)>::empty());
        assert(m.skip(1) =~= Seq::<(Seq<u8>, Frame)>::empty());
        assert(encode_entries(m.drop_last()) =~= Seq::<u8>::empty());
        assert(encode_entries(m) =~= line(SIMPLE_STRING_TAG, m[0].0) + encode_frame(m[0].1)
            + encode_entries(m.skip(1)));
    } else {
        lemma_encode_entries_front(m.drop_last());
        assert(m.drop_last().skip(1) =~= m.skip(1).drop_last());
        assert(m.skip(1).last() == m.last());
        assert(encode_entries(m) =~= line(SIMPLE_STRING_TAG, m[0].0) + encode_frame(m[0].1)
            + encode_entries(m.skip(1)));
    }
}

/// A key above all the keys of a map has its place at the end.
pub proof fn lemma_position_at_end(m: Seq<(Seq<u8>, Frame)>, key: Seq<u8>, from: int)
    requires
        0 <= from <= m.len(),
        forall|j: int| from <= j < m.len() ==> key_less(#[trigger] m[j].0, key),
    ensures
        key_position_from(m, key, from) == m.len(),
    decreases m.len() - from,
{
    if from < m.len() {
        lemma_position_at_end(m, key, from + 1);
    }
}

/// Entries that come in key order make the map that lists them in that
/// order.
pub proof fn lemma_map_of_sorted_pairs(m: Seq<(Seq<u8>, Frame)>)
    requires
        keys_sorted(m),
    ensures
        map_of_pairs(m) == m,
    decreases m.len(),
{
    if m.len() > 0 {
        let front = m.drop_last();
        lemma_map_of_sorted_pairs(front);
        let key = m.last().0;
        assert forall|j: int| 0 <= j < front.len() implies key_less(#[trigger] front[j].0, key) by {
            assert(front[j] == m[j]);
        }
        lemma_position_at_end(front, key, 0);
        assert(front.take(front.len() as int) =~= front);
        assert(front.skip(front.len() as int) =~= Seq::<(Seq<u8>, Frame)>::empty());
        assert(map_insert(front, key, m.last().1) =~= m);
    } else {
        assert(map_of_pairs(m) =~= m);
    }
}

/// Bytes put together in either grouping are the same bytes.
pub proof fn lemma_concat(a: Seq<u8>, b: Seq<u8>, c: Seq<u8>)
    ensures
        (a + b) + c == a + (b + c),
{
    assert((a + b) + c =~= a + (b + c));
}

/// The first bytes of bytes put together: of the first part alone, or the
/// first part whole and the first bytes of the second.
pub proof fn lemma_take_of_concat(a: Seq<u8>, b: Seq<u8>, c: int)
    requires
        0 <= c <= a.len() + b.len(),
    ensures
        c <= a.len() ==> (a + b).take(c) == a.take(c),
        c >= a.len() ==> (a + b).take(c) == a + b.take(c - a.len()),
{
    if c <= a.len() {
        assert((a + b).take(c) =~= a.take(c));
    }
    if c >= a.len() {
        assert((a + b).take(c) =~= a + b.take(c - a.len()));
    }
}

} // verus!
