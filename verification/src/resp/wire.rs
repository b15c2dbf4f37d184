//! The wire format as mathematics: what a frame is, which bytes stand for it,
//! and what the decoder makes of any sequence of bytes.
use crate::resp::buffer::debug_text;
use crate::resp::unicode::lossy_utf8;
use crate::text::{decimal, i64_of_text, is_digit, signed_decimal, usize_of_text};
use vstd::prelude::*;
use vstd::utf8::{encode_utf8, valid_utf8};

verus! {

/// A RESP3 value. Strings are held as their UTF-8 bytes, a double as the text
/// that stands for it on the wire, a map as its entries in key order.
pub enum Frame {
    SimpleString(Seq<u8>),
    Error(Seq<u8>),
    Integer(i64),
    BulkString(Option<Seq<u8>>),
    Array(Option<Seq<Frame>>),
    Null,
    Boolean(bool),
    Double(Seq<u8>),
    RespMap(Seq<(Seq<u8>, Frame)>),
    RespSet(Seq<Frame>),
}

/// Why the decoder did not produce a frame.
pub enum Fault {
    InvalidFrame(Seq<char>),
    InvalidFrameType(Seq<char>),
    InvalidFrameLength(Seq<char>),
    NotComplete,
    ParseIntError,
    Utf8Error,
    ParseFloatError,
}

/// The tag of a simple string, `+`.
pub const SIMPLE_STRING_TAG: u8 = 43;

/// The tag of a simple error, `-`.
pub const ERROR_TAG: u8 = 45;

/// The tag of an integer, `:`.
pub const INTEGER_TAG: u8 = 58;

/// The tag of a bulk string, `$`.
pub const BULK_TAG: u8 = 36;

/// The tag of an array, `*`.
pub const ARRAY_TAG: u8 = 42;

/// The tag of the null frame, `_`.
pub const NULL_TAG: u8 = 95;

/// The tag of a boolean, `#`.
pub const BOOLEAN_TAG: u8 = 35;

/// The tag of a double, `,`.
pub const DOUBLE_TAG: u8 = 44;

/// The tag of a map, `%`.
pub const MAP_TAG: u8 = 37;

/// The tag of a set, `~`.
pub const SET_TAG: u8 = 126;

/// The carriage return.
pub const CR: u8 = 13;

/// The line feed.
pub const LF: u8 = 10;

/// The end of a line: carriage return, line feed.
pub open spec fn crlf() -> Seq<u8> {
    seq![CR, LF]
}

/// The null bulk string, `$-1` and the line end.
pub open spec fn null_bulk() -> Seq<u8> {
    seq![BULK_TAG, 45u8, 49u8, CR, LF]
}

/// The null array, `*-1` and the line end.
pub open spec fn null_array() -> Seq<u8> {
    seq![ARRAY_TAG, 45u8, 49u8, CR, LF]
}

/// The null frame, `_` and the line end.
pub open spec fn null_frame() -> Seq<u8> {
    seq![NULL_TAG, CR, LF]
}

/// The boolean true, `#t` and the line end.
pub open spec fn true_frame() -> Seq<u8> {
    seq![BOOLEAN_TAG, 116u8, CR, LF]
}

/// The boolean false, `#f` and the line end.
pub open spec fn false_frame() -> Seq<u8> {
    seq![BOOLEAN_TAG, 102u8, CR, LF]
}

/// Whether `s` begins with the bytes `p`.
pub open spec fn starts_with(s: Seq<u8>, p: Seq<u8>) -> bool {
    p.len() <= s.len() && s.take(p.len() as int) =~= p
}

/// Whether `s` holds neither a carriage return nor a line feed.
pub open spec fn no_line_break(s: Seq<u8>) -> bool {
    forall|i: int| 0 <= i < s.len() ==> #[trigger] s[i] != CR && s[i] != LF
}

// ---------------------------------------------------------------------
// Doubles, as text
// ---------------------------------------------------------------------
/// An upper-case ASCII letter as its lower-case letter; any other byte as it
/// is.
pub open spec fn to_lower(b: u8) -> u8 {
    if 65 <= b <= 90 {
        (b + 32) as u8
    } else {
        b
    }
}

/// Whether `s`, letter case set aside, is the word `word`.
pub open spec fn is_word(s: Seq<u8>, word: Seq<u8>) -> bool {
    s.len() == word.len() && forall|i: int|
        0 <= i < s.len() ==> to_lower(#[trigger] s[i]) == word[i]
}

/// `inf`, `infinity` or `nan`, in any letter case.
pub open spec fn is_special_double(s: Seq<u8>) -> bool {
    ||| is_word(s, seq![105u8, 110u8, 102u8])
    ||| is_word(s, seq![105u8, 110u8, 102u8, 105u8, 110u8, 105u8, 116u8, 121u8])
    ||| is_word(s, seq![110u8, 97u8, 110u8])
}

/// Whether `b` is `+` or `-`.
pub open spec fn is_sign(b: u8) -> bool {
    b == 43 || b == 45
}

/// Whether the bytes of `s` from `from` up to `to` are digits.
pub open spec fn digits_between(s: Seq<u8>, from: int, to: int) -> bool {
    forall|i: int| from <= i < to ==> is_digit(#[trigger] s[i])
}

/// Whether `s` is a decimal number laid out as the three indices say: the
/// digits before the point end at `whole`; the mantissa, with the point and
/// the digits behind it where there is a point, ends at `mantissa`; the
/// digits of the exponent begin at `exponent`, behind `e` or `E` and an
/// optional sign, where the mantissa is not the whole text. The mantissa
/// holds one digit at least, and so does the exponent.
pub open spec fn decimal_number_at(s: Seq<u8>, whole: int, mantissa: int, exponent: int) -> bool {
    &&& 0 <= whole <= mantissa <= s.len()
    &&& digits_between(s, 0, whole)
    &&& mantissa > whole ==> s[whole] == 46 && digits_between(s, whole + 1, mantissa)
    &&& mantissa == whole ==> whole >= 1
    &&& mantissa > whole ==> mantissa - 1 >= 1
    &&& mantissa == s.len() ==> exponent == mantissa
    &&& mantissa < s.len() ==> {
        &&& s[mantissa] == 101 || s[mantissa] == 69
        &&& exponent == mantissa + 1 || (exponent == mantissa + 2 && is_sign(s[mantissa + 1]))
        &&& exponent < s.len()
        &&& digits_between(s, exponent, s.len() as int)
    }
}

/// A decimal number: digits with at most one point among them and at least
/// one digit in all, then an optional exponent: `e` or `E`, an optional
/// sign, digits.
#[verifier::opaque]
pub open spec fn is_decimal_number(s: Seq<u8>) -> bool {
    exists|whole: int, mantissa: int, exponent: int|
        decimal_number_at(s, whole, mantissa, exponent)
}

/// The texts that stand for a double: an optional sign, then a decimal number
/// or one of the special words. This is the syntax that Rust reads as a
/// 64-bit float.
pub open spec fn is_double_text(t: Seq<u8>) -> bool {
    let body = if t.len() > 0 && is_sign(t[0]) {
        t.skip(1)
    } else {
        t
    };
    is_special_double(body) || is_decimal_number(body)
}

// ---------------------------------------------------------------------
// Map entries, kept in key order
// ---------------------------------------------------------------------
/// `a` and `b` agree on their first `k` bytes, and there `a` ends or holds the
/// smaller byte.
pub open spec fn key_less_at(a: Seq<u8>, b: Seq<u8>, k: int) -> bool {
    &&& 0 <= k <= a.len()
    &&& k <= b.len()
    &&& a.take(k) =~= b.take(k)
    &&& k < b.len()
    &&& k < a.len() ==> a[k] < b[k]
}

/// The order of map keys: byte by byte, a prefix before what extends it.
pub open spec fn key_less(a: Seq<u8>, b: Seq<u8>) -> bool {
    exists|k: int| key_less_at(a, b, k)
}

/// Whether the keys of `m` rise strictly, so that no key stands twice.
pub open spec fn keys_sorted(m: Seq<(Seq<u8>, Frame)>) -> bool {
    forall|i: int, j: int| 0 <= i < j < m.len() ==> key_less(#[trigger] m[i].0, #[trigger] m[j].0)
}

/// The index of the first entry of `m`, from `from` on, whose key is not
/// below `key`; the length of `m` where there is none.
pub open spec fn key_position_from(m: Seq<(Seq<u8>, Frame)>, key: Seq<u8>, from: int) -> int
    decreases m.len() - from,
{
    if 0 <= from < m.len() && key_less(m[from].0, key) {
        key_position_from(m, key, from + 1)
    } else {
        from
    }
}

/// The index of the first entry of `m` whose key is not below `key`.
pub open spec fn key_position(m: Seq<(Seq<u8>, Frame)>, key: Seq<u8>) -> int {
    key_position_from(m, key, 0)
}

/// `m` with `key` bound to `value`: in place where the key is there, else
/// at the place that keeps the keys in order.
pub open spec fn map_insert(m: Seq<(Seq<u8>, Frame)>, key: Seq<u8>, value: Frame) -> Seq<
    (Seq<u8>, Frame),
> {
    let p = key_position(m, key);
    if p < m.len() && m[p].0 == key {
        m.update(p, (key, value))
    } else {
        m.take(p) + seq![(key, value)] + m.skip(p)
    }
}

/// The map that results from inserting `pairs` one after the other.
pub open spec fn map_of_pairs(pairs: Seq<(Seq<u8>, Frame)>) -> Seq<(Seq<u8>, Frame)>
    decreases pairs.len(),
{
    if pairs.len() == 0 {
        Seq::empty()
    } else {
        map_insert(map_of_pairs(pairs.drop_last()), pairs.last().0, pairs.last().1)
    }
}

// ---------------------------------------------------------------------
// Well-formed frames, and their encoding
// ---------------------------------------------------------------------
/// A line of text that can stand in a simple string: valid UTF-8 without a
/// line break.
pub open spec fn is_line_text(s: Seq<u8>) -> bool {
    valid_utf8(s) && no_line_break(s)
}

impl Frame {
    /// The invariants of the frame model: simple strings, errors and map keys
    /// are UTF-8 without a line break; a double's text reads as a double; the
    /// keys of a map rise strictly; every length fits in `usize`.
    pub open spec fn wf(self) -> bool
        decreases self,
    {
        match self {
            Frame::SimpleString(s) => is_line_text(s),
            Frame::Error(s) => is_line_text(s),
            Frame::Integer(_) => true,
            Frame::BulkString(Some(b)) => b.len() <= usize::MAX,
            Frame::BulkString(None) => true,
            Frame::Array(Some(v)) => v.len() <= usize::MAX && forall|i: int|
                0 <= i < v.len() ==> (#[trigger] v[i]).wf(),
            Frame::Array(None) => true,
            Frame::Null => true,
            Frame::Boolean(_) => true,
            Frame::Double(t) => is_double_text(t),
            Frame::RespMap(m) => m.len() <= usize::MAX && keys_sorted(m) && forall|i: int|
                0 <= i < m.len() ==> is_line_text((#[trigger] m[i]).0) && m[i].1.wf(),
            Frame::RespSet(v) => v.len() <= usize::MAX && forall|i: int|
                0 <= i < v.len() ==> (#[trigger] v[i]).wf(),
        }
    }
}

/// A line: the tag byte, the payload, CRLF.
pub open spec fn line(tag: u8, payload: Seq<u8>) -> Seq<u8> {
    seq![tag] + payload + crlf()
}

/// The bytes that stand for `f` on the wire.
pub open spec fn encode_frame(f: Frame) -> Seq<u8>
    decreases f, 0nat,
{
    match f {
        Frame::SimpleString(s) => line(SIMPLE_STRING_TAG, s),
        Frame::Error(s) => line(ERROR_TAG, s),
        Frame::Integer(n) => line(INTEGER_TAG, signed_decimal(n as int)),
        Frame::BulkString(Some(b)) => line(BULK_TAG, decimal(b.len())) + b + crlf(),
        Frame::BulkString(None) => null_bulk(),
        Frame::Array(Some(v)) => line(ARRAY_TAG, decimal(v.len())) + encode_frames(v),
        Frame::Array(None) => null_array(),
        Frame::Null => null_frame(),
        Frame::Boolean(b) => if b {
            true_frame()
        } else {
            false_frame()
        },
        Frame::Double(t) => line(DOUBLE_TAG, t),
        Frame::RespMap(m) => line(MAP_TAG, decimal(m.len())) + encode_entries(m),
        Frame::RespSet(v) => line(SET_TAG, decimal(v.len())) + encode_frames(v),
    }
}

/// The encodings of `v`, one after the other.
pub open spec fn encode_frames(v: Seq<Frame>) -> Seq<u8>
    decreases v, 1nat,
{
    if v.len() == 0 {
        Seq::empty()
    } else {
        encode_frames(v.drop_last()) + encode_frame(v.last())
    }
}

/// The entries of a map, one after the other: each key as a simple string,
/// then its value.
pub open spec fn encode_entries(m: Seq<(Seq<u8>, Frame)>) -> Seq<u8>
    decreases m, 1nat,
{
    if m.len() == 0 {
        Seq::empty()
    } else {
        encode_entries(m.drop_last()) + line(SIMPLE_STRING_TAG, m.last().0) + encode_frame(
            m.last().1,
        )
    }
}

// ---------------------------------------------------------------------
// What the decoder reports of bytes it refuses
// ---------------------------------------------------------------------
/// The character of the digit `d`.
pub open spec fn digit_char(d: nat) -> char {
    if d == 0 {
        '0'
    } else if d == 1 {
        '1'
    } else if d == 2 {
        '2'
    } else if d == 3 {
        '3'
    } else if d == 4 {
        '4'
    } else if d == 5 {
        '5'
    } else if d == 6 {
        '6'
    } else if d == 7 {
        '7'
    } else if d == 8 {
        '8'
    } else {
        '9'
    }
}

/// The decimal digits of a byte, as characters.
pub open spec fn byte_text(b: u8) -> Seq<char> {
    if b < 10 {
        seq![digit_char(b as nat)]
    } else if b < 100 {
        seq![digit_char((b / 10) as nat), digit_char((b % 10) as nat)]
    } else {
        seq![
            digit_char((b / 100) as nat),
            digit_char((b / 10 % 10) as nat),
            digit_char((b % 10) as nat),
        ]
    }
}

/// The decimal digits of `n`, as characters.
pub open spec fn number_text(n: nat) -> Seq<char>
    decreases n,
{
    if n < 10 {
        seq![digit_char(n)]
    } else {
        number_text(n / 10).push(digit_char(n % 10))
    }
}

/// The bytes of `s` as decimal numbers with `, ` between them.
pub open spec fn list_items(s: Seq<u8>) -> Seq<char>
    decreases s.len(),
{
    if s.len() == 0 {
        Seq::empty()
    } else if s.len() == 1 {
        byte_text(s[0])
    } else {
        list_items(s.drop_last()) + seq![',', ' '] + byte_text(s.last())
    }
}

/// The bytes of `s` as a list in square brackets, as Rust prints a slice of
/// bytes for debugging.
pub open spec fn list_text(s: Seq<u8>) -> Seq<char> {
    seq!['['] + list_items(s) + seq![']']
}

/// The message for bytes that are not what was expected: the name of what
/// was expected, then the bytes as `got` shows them.
pub open spec fn expected_text(kind: Seq<char>, got: Seq<char>) -> Seq<char> {
    "expect: "@ + kind + ", got: "@ + got
}

/// The message for bytes that do not begin with the tag that was expected:
/// the bytes are shown as a list of numbers. It names the simple string,
/// whatever tag was expected.
pub open spec fn wrong_tag_text(s: Seq<u8>) -> Seq<char> {
    expected_text("SimpleString(+)"@, list_text(s))
}

/// The message for bytes that are not the fixed frame `kind`: the bytes are
/// shown as the buffer prints them.
pub open spec fn wrong_frame_text(kind: Seq<char>, s: Seq<u8>) -> Seq<char> {
    expected_text(kind, debug_text(s))
}

/// The message for bytes that begin with no tag of the protocol: the bytes
/// are shown as the buffer prints them.
pub open spec fn unknown_tag_text(s: Seq<u8>) -> Seq<char> {
    "decode unknown frame type: "@ + debug_text(s)
}

/// The message for a bulk string whose payload is not followed by CRLF.
pub open spec fn unterminated_text() -> Seq<char> {
    "bulk string payload is not followed by CRLF"@
}

// ---------------------------------------------------------------------
// Lines and declared lengths
// ---------------------------------------------------------------------
/// Whether a CRLF stands at index `i` of `s`.
pub open spec fn is_crlf_at(s: Seq<u8>, i: int) -> bool {
    0 <= i && i + 1 < s.len() && s[i] == CR && s[i + 1] == LF
}

/// Whether `e` is where the first line of `s` ends: the first CRLF behind
/// the tag byte.
pub open spec fn is_line_end(s: Seq<u8>, e: int) -> bool {
    &&& 1 <= e
    &&& is_crlf_at(s, e)
    &&& forall|j: int| 1 <= j < e ==> !is_crlf_at(s, j)
}

/// Whether a CRLF stands behind the tag byte of `s`.
pub open spec fn has_line_end(s: Seq<u8>) -> bool {
    exists|e: int| is_line_end(s, e)
}

/// Where the first line of `s` ends, where it has an end.
pub open spec fn line_end(s: Seq<u8>) -> int {
    choose|e: int| is_line_end(s, e)
}

/// Where the first line of `s` ends, for a frame that begins with `prefix`.
pub open spec fn line_header(s: Seq<u8>, prefix: Seq<u8>) -> Result<nat, Fault> {
    if s.len() < 3 {
        Err(Fault::NotComplete)
    } else if !starts_with(s, prefix) {
        Err(Fault::InvalidFrame(wrong_tag_text(s)))
    } else if !has_line_end(s) {
        Err(Fault::NotComplete)
    } else {
        Ok(line_end(s) as nat)
    }
}

/// The bytes of `s` from `from` up to `to`; empty where `to` is before `from`.
pub open spec fn between(s: Seq<u8>, from: int, to: int) -> Seq<u8> {
    if 0 <= from <= to <= s.len() {
        s.subrange(from, to)
    } else {
        Seq::empty()
    }
}

/// The end of the header line and the length that it declares.
pub open spec fn declared_length(s: Seq<u8>, prefix: Seq<u8>) -> Result<(nat, usize), Fault> {
    match line_header(s, prefix) {
        Err(e) => Err(e),
        Ok(end) => match usize_of_text(between(s, prefix.len() as int, end as int)) {
            Some(n) => Ok((end, n)),
            None => Err(Fault::ParseIntError),
        },
    }
}

/// The text of a simple string as the decoder keeps it: the payload itself
/// where it is UTF-8, else what the lossy conversion makes of it.
pub open spec fn kept_text(payload: Seq<u8>) -> Seq<u8> {
    if valid_utf8(payload) {
        payload
    } else {
        encode_utf8(lossy_utf8(payload))
    }
}

// ---------------------------------------------------------------------
// The size pass: how many bytes the first frame of `s` spans
// ---------------------------------------------------------------------
/// The span of a frame of one line.
pub open spec fn line_span(s: Seq<u8>, prefix: Seq<u8>) -> Result<nat, Fault> {
    match line_header(s, prefix) {
        Err(e) => Err(e),
        Ok(end) => Ok(end + 2),
    }
}

/// The span of a bulk string.
pub open spec fn bulk_span(s: Seq<u8>) -> Result<nat, Fault> {
    if starts_with(s, null_bulk()) {
        Ok(5)
    } else {
        match declared_length(s, seq![BULK_TAG]) {
            Err(e) => Err(e),
            Ok((end, n)) => Ok((end + 2 + n + 2) as nat),
        }
    }
}

/// The span of the null frame, whatever the bytes are.
pub open spec fn null_span() -> Result<nat, Fault> {
    Ok(3)
}

/// The span of a boolean frame, whatever the bytes are.
pub open spec fn boolean_span() -> Result<nat, Fault> {
    Ok(4)
}

/// The span of the first frame of `s`, judged by tags, line ends and declared
/// lengths alone. It may reach beyond the end of `s`.
pub open spec fn frame_span(s: Seq<u8>) -> Result<nat, Fault>
    decreases s.len(), 0nat, 3nat,
{
    if s.len() == 0 {
        Err(Fault::NotComplete)
    } else if s[0] == SIMPLE_STRING_TAG || s[0] == ERROR_TAG || s[0] == INTEGER_TAG || s[0]
        == DOUBLE_TAG {
        line_span(s, seq![s[0]])
    } else if s[0] == BULK_TAG {
        bulk_span(s)
    } else if s[0] == ARRAY_TAG {
        array_span(s)
    } else if s[0] == SET_TAG {
        set_span(s)
    } else if s[0] == MAP_TAG {
        map_span(s)
    } else if s[0] == NULL_TAG {
        null_span()
    } else if s[0] == BOOLEAN_TAG {
        boolean_span()
    } else {
        Err(Fault::InvalidFrameType(unknown_tag_text(s)))
    }
}

/// The span of `count` frames from position `end + 2` of `s`, where `end` is
/// the end of the header line.
pub open spec fn body_span(s: Seq<u8>, end: nat, count: nat) -> Result<nat, Fault>
    decreases s.len(), 0nat, 1nat,
{
    if end + 2 > s.len() {
        Err(Fault::NotComplete)
    } else {
        match frames_span(s.skip(end as int + 2), count) {
            Err(e) => Err(e),
            Ok(m) => Ok(end + 2 + m),
        }
    }
}

/// The span of an array: of the null array, or of the header and as many
/// frames as it declares.
pub open spec fn array_span(s: Seq<u8>) -> Result<nat, Fault>
    decreases s.len(), 0nat, 2nat,
{
    if starts_with(s, null_array()) {
        Ok(5)
    } else {
        match declared_length(s, seq![ARRAY_TAG]) {
            Err(e) => Err(e),
            Ok((end, n)) => body_span(s, end, n as nat),
        }
    }
}

/// The span of a set: of the header and as many frames as it declares.
pub open spec fn set_span(s: Seq<u8>) -> Result<nat, Fault>
    decreases s.len(), 0nat, 2nat,
{
    match declared_length(s, seq![SET_TAG]) {
        Err(e) => Err(e),
        Ok((end, n)) => body_span(s, end, n as nat),
    }
}

/// The span of `count` map entries from position `end + 2` of `s`, where
/// `end` is the end of the header line.
pub open spec fn entries_body_span(s: Seq<u8>, end: nat, count: nat) -> Result<nat, Fault>
    decreases s.len(), 0nat, 1nat,
{
    if end + 2 > s.len() {
        Err(Fault::NotComplete)
    } else {
        match entries_span(s.skip(end as int + 2), count) {
            Err(e) => Err(e),
            Ok(m) => Ok(end + 2 + m),
        }
    }
}

/// The span of a map: of the header and as many entries as it declares.
pub open spec fn map_span(s: Seq<u8>) -> Result<nat, Fault>
    decreases s.len(), 0nat, 2nat,
{
    match declared_length(s, seq![MAP_TAG]) {
        Err(e) => Err(e),
        Ok((end, n)) => entries_body_span(s, end, n as nat),
    }
}

/// The span of `count` frames at the start of `rest`.
pub open spec fn frames_span(rest: Seq<u8>, count: nat) -> Result<nat, Fault>
    decreases rest.len(), count, 0nat,
{
    if count == 0 {
        Ok(0)
    } else {
        match frame_span(rest) {
            Err(e) => Err(e),
            Ok(k) => if k > rest.len() {
                Err(Fault::NotComplete)
            } else {
                match frames_span(rest.skip(k as int), (count - 1) as nat) {
                    Err(e) => Err(e),
                    Ok(m) => Ok(k + m),
                }
            },
        }
    }
}

/// The span of `count` map entries at the start of `rest`: each a simple
/// string, then a frame.
pub open spec fn entries_span(rest: Seq<u8>, count: nat) -> Result<nat, Fault>
    decreases rest.len(), count, 0nat,
{
    if count == 0 {
        Ok(0)
    } else {
        match line_span(rest, seq![SIMPLE_STRING_TAG]) {
            Err(e) => Err(e),
            Ok(k) => if k > rest.len() {
                Err(Fault::NotComplete)
            } else {
                match frame_span(rest.skip(k as int)) {
                    Err(e) => Err(e),
                    Ok(v) => if k + v > rest.len() {
                        Err(Fault::NotComplete)
                    } else {
                        match entries_span(rest.skip((k + v) as int), (count - 1) as nat) {
                            Err(e) => Err(e),
                            Ok(m) => Ok(k + v + m),
                        }
                    },
                }
            },
        }
    }
}

/// The span of an aggregate whose header line ends at `end` and declares
/// `count` items: frames for the tags `*` and `~`, entries for `%`. For any
/// other tag, `count` bytes and a CRLF.
pub open spec fn total_span(s: Seq<u8>, end: nat, count: nat, prefix: Seq<u8>) -> Result<
    nat,
    Fault,
> {
    if prefix == seq![ARRAY_TAG] || prefix == seq![SET_TAG] {
        body_span(s, end, count)
    } else if prefix == seq![MAP_TAG] {
        entries_body_span(s, end, count)
    } else {
        Ok(count + 2)
    }
}

// ---------------------------------------------------------------------
// The value pass: the frame that the bytes stand for
// ---------------------------------------------------------------------
/// The text of a line that begins with the tag `tag`, as the decoder keeps
/// it, and the bytes that the line takes.
pub open spec fn line_value(s: Seq<u8>, tag: u8) -> Result<(Seq<u8>, nat), Fault> {
    match line_header(s, seq![tag]) {
        Err(e) => Err(e),
        Ok(end) => Ok((kept_text(between(s, 1, end as int)), end + 2)),
    }
}

/// A simple string: the line behind `+`.
pub open spec fn simple_string_value(s: Seq<u8>) -> Result<(Frame, nat), Fault> {
    match line_value(s, SIMPLE_STRING_TAG) {
        Err(e) => Err(e),
        Ok((text, n)) => Ok((Frame::SimpleString(text), n)),
    }
}

/// A simple error: the line behind `-`.
pub open spec fn simple_error_value(s: Seq<u8>) -> Result<(Frame, nat), Fault> {
    match line_value(s, ERROR_TAG) {
        Err(e) => Err(e),
        Ok((text, n)) => Ok((Frame::Error(text), n)),
    }
}

/// An integer: the line behind `:`, read as a signed decimal number.
pub open spec fn integer_value(s: Seq<u8>) -> Result<(Frame, nat), Fault> {
    match line_header(s, seq![INTEGER_TAG]) {
        Err(e) => Err(e),
        Ok(end) => match i64_of_text(between(s, 1, end as int)) {
            Some(n) => Ok((Frame::Integer(n), end + 2)),
            None => Err(Fault::ParseIntError),
        },
    }
}

/// A double: the line behind `,`, kept as text where it reads as a double.
pub open spec fn double_value(s: Seq<u8>) -> Result<(Frame, nat), Fault> {
    match line_header(s, seq![DOUBLE_TAG]) {
        Err(e) => Err(e),
        Ok(end) => if is_double_text(between(s, 1, end as int)) {
            Ok((Frame::Double(between(s, 1, end as int)), end + 2))
        } else {
            Err(Fault::ParseFloatError)
        },
    }
}

/// A bulk string: the null bulk string, or the header, as many bytes as it
/// declares, and a CRLF.
pub open spec fn bulk_value(s: Seq<u8>) -> Result<(Frame, nat), Fault> {
    if starts_with(s, null_bulk()) {
        Ok((Frame::BulkString(None), 5))
    } else {
        match declared_length(s, seq![BULK_TAG]) {
            Err(e) => Err(e),
            Ok((end, n)) => if s.len() < end + 2 + n + 2 {
                Err(Fault::NotComplete)
            } else if !is_crlf_at(s, end + 2 + n) {
                Err(Fault::InvalidFrameLength(unterminated_text()))
            } else {
                Ok(
                    (
                        Frame::BulkString(Some(s.subrange(end as int + 2, end + 2 + n))),
                        (end + 2 + n + 2) as nat,
                    ),
                )
            },
        }
    }
}

/// Whether `s` begins with the bytes `expect`: their number where it does.
/// `kind` names what was expected.
pub open spec fn fixed_value(s: Seq<u8>, expect: Seq<u8>, kind: Seq<char>) -> Result<nat, Fault> {
    if s.len() < expect.len() {
        Err(Fault::NotComplete)
    } else if !starts_with(s, expect) {
        Err(Fault::InvalidFrameType(wrong_frame_text(kind, s)))
    } else {
        Ok(expect.len())
    }
}

/// The null frame: exactly its three bytes.
pub open spec fn null_value(s: Seq<u8>) -> Result<(Frame, nat), Fault> {
    match fixed_value(s, null_frame(), "Null"@) {
        Err(e) => Err(e),
        Ok(n) => Ok((Frame::Null, n)),
    }
}

/// A boolean: exactly the four bytes of true or of false.
pub open spec fn boolean_value(s: Seq<u8>) -> Result<(Frame, nat), Fault> {
    if s.len() < 4 {
        Err(Fault::NotComplete)
    } else if starts_with(s, true_frame()) {
        Ok((Frame::Boolean(true), 4))
    } else if starts_with(s, false_frame()) {
        Ok((Frame::Boolean(false), 4))
    } else {
        Err(Fault::InvalidFrameType(wrong_frame_text("Bool"@, s)))
    }
}

/// The frame at the start of `s` and the number of bytes it takes, read in
/// one pass.
pub open spec fn frame_value(s: Seq<u8>) -> Result<(Frame, nat), Fault>
    decreases s.len(), 0nat, 3nat,
{
    if s.len() == 0 {
        Err(Fault::NotComplete)
    } else if s[0] == SIMPLE_STRING_TAG {
        simple_string_value(s)
    } else if s[0] == ERROR_TAG {
        simple_error_value(s)
    } else if s[0] == INTEGER_TAG {
        integer_value(s)
    } else if s[0] == DOUBLE_TAG {
        double_value(s)
    } else if s[0] == BULK_TAG {
        bulk_value(s)
    } else if s[0] == ARRAY_TAG {
        array_value(s)
    } else if s[0] == SET_TAG {
        set_value(s)
    } else if s[0] == MAP_TAG {
        map_value(s)
    } else if s[0] == NULL_TAG {
        null_value(s)
    } else if s[0] == BOOLEAN_TAG {
        boolean_value(s)
    } else {
        Err(Fault::InvalidFrameType(unknown_tag_text(s)))
    }
}

/// `count` frames from position `end + 2` of `s`, and where they end.
pub open spec fn body_value(s: Seq<u8>, end: nat, count: nat) -> Result<(Seq<Frame>, nat), Fault>
    decreases s.len(), 0nat, 1nat,
{
    if end + 2 > s.len() {
        Err(Fault::NotComplete)
    } else {
        match frames_value(s.skip(end as int + 2), count) {
            Err(e) => Err(e),
            Ok((v, m)) => Ok((v, end + 2 + m)),
        }
    }
}

/// An array: the null array, or the header and as many frames as it
/// declares.
pub open spec fn array_value(s: Seq<u8>) -> Result<(Frame, nat), Fault>
    decreases s.len(), 0nat, 2nat,
{
    if starts_with(s, null_array()) {
        Ok((Frame::Array(None), 5))
    } else {
        match declared_length(s, seq![ARRAY_TAG]) {
            Err(e) => Err(e),
            Ok((end, n)) => match body_value(s, end, n as nat) {
                Err(e) => Err(e),
                Ok((v, total)) => Ok((Frame::Array(Some(v)), total)),
            },
        }
    }
}

/// A set: the header and as many frames as it declares, in the order of the
/// wire.
pub open spec fn set_value(s: Seq<u8>) -> Result<(Frame, nat), Fault>
    decreases s.len(), 0nat, 2nat,
{
    match declared_length(s, seq![SET_TAG]) {
        Err(e) => Err(e),
        Ok((end, n)) => match body_value(s, end, n as nat) {
            Err(e) => Err(e),
            Ok((v, total)) => Ok((Frame::RespSet(v), total)),
        },
    }
}

/// `count` map entries from position `end + 2` of `s`, in the order of the
/// wire, and where they end.
pub open spec fn entries_body_value(s: Seq<u8>, end: nat, count: nat) -> Result<
    (Seq<(Seq<u8>, Frame)>, nat),
    Fault,
>
    decreases s.len(), 0nat, 1nat,
{
    if end + 2 > s.len() {
        Err(Fault::NotComplete)
    } else {
        match entries_value(s.skip(end as int + 2), count) {
            Err(e) => Err(e),
            Ok((pairs, m)) => Ok((pairs, end + 2 + m)),
        }
    }
}

/// A map: the header and as many entries as it declares, inserted one after
/// the other, so that a key that stands twice keeps its last value.
pub open spec fn map_value(s: Seq<u8>) -> Result<(Frame, nat), Fault>
    decreases s.len(), 0nat, 2nat,
{
    match declared_length(s, seq![MAP_TAG]) {
        Err(e) => Err(e),
        Ok((end, n)) => match entries_body_value(s, end, n as nat) {
            Err(e) => Err(e),
            Ok((pairs, total)) => Ok((Frame::RespMap(map_of_pairs(pairs)), total)),
        },
    }
}

/// `count` frames at the start of `rest`, and the bytes they take.
pub open spec fn frames_value(rest: Seq<u8>, count: nat) -> Result<(Seq<Frame>, nat), Fault>
    decreases rest.len(), count, 0nat,
{
    if count == 0 {
        Ok((Seq::empty(), 0))
    } else {
        match frame_value(rest) {
            Err(e) => Err(e),
            Ok((f, k)) => if k > rest.len() {
                Err(Fault::NotComplete)
            } else {
                match frames_value(rest.skip(k as int), (count - 1) as nat) {
                    Err(e) => Err(e),
                    Ok((v, m)) => Ok((seq![f] + v, k + m)),
                }
            },
        }
    }
}

/// `count` map entries at the start of `rest`, in the order of the wire, and
/// the bytes they take.
pub open spec fn entries_value(rest: Seq<u8>, count: nat) -> Result<
    (Seq<(Seq<u8>, Frame)>, nat),
    Fault,
>
    decreases rest.len(), count, 0nat,
{
    if count == 0 {
        Ok((Seq::empty(), 0))
    } else {
        match line_value(rest, SIMPLE_STRING_TAG) {
            Err(e) => Err(e),
            Ok((key, k)) => if k > rest.len() {
                Err(Fault::NotComplete)
            } else {
                match frame_value(rest.skip(k as int)) {
                    Err(e) => Err(e),
                    Ok((value, v)) => if k + v > rest.len() {
                        Err(Fault::NotComplete)
                    } else {
                        match entries_value(rest.skip((k + v) as int), (count - 1) as nat) {
                            Err(e) => Err(e),
                            Ok((pairs, m)) => Ok((seq![(key, value)] + pairs, k + v + m)),
                        }
                    },
                }
            },
        }
    }
}

// ---------------------------------------------------------------------
// Decoding: size first, then value
// ---------------------------------------------------------------------
/// Decoding in two passes. Where the size pass fails, so does decoding; where
/// the span reaches beyond the bytes at hand, the frame is not complete; else
/// the value pass decides.
pub open spec fn sized<T>(span: Result<nat, Fault>, len: nat, value: Result<T, Fault>) -> Result<
    T,
    Fault,
> {
    match span {
        Err(e) => Err(e),
        Ok(n) => if n > len {
            Err(Fault::NotComplete)
        } else {
            value
        },
    }
}

/// What the decoder makes of the bytes `s`: the first frame and the number of
/// bytes it consumes, or the reason why there is none.
pub open spec fn decode_frame(s: Seq<u8>) -> Result<(Frame, nat), Fault> {
    sized(frame_span(s), s.len(), frame_value(s))
}

} // verus!
