//! Doubles, and the texts that stand for them.
use bytes::BytesMut;
use crate::resp::buffer::{buffer_advance, buffer_bytes};
use crate::resp::frame::{write_frame, RespFrame};
use crate::resp::reader::{double_parse, line_expect_length};
use crate::resp::{RespDecode, RespEncode, RespError};
use crate::resp::wire::{
    decimal_number_at, digits_between, double_value, encode_frame, is_decimal_number,
    is_double_text, is_word, line_span, to_lower, Fault, Frame, DOUBLE_TAG,
};
use crate::text::is_digit;
use vstd::prelude::*;
use vstd::slice::{slice_subrange, slice_to_vec};

verus! {

/// A double, held as the text that stands for it on the wire: the bytes
/// between the tag and the line end.
#[derive(Debug, PartialEq, Eq, PartialOrd, Ord, Hash)]
pub struct RespDouble(pub Vec<u8>);

impl View for RespDouble {
    type V = Seq<u8>;

    open spec fn view(&self) -> Seq<u8> {
        self.0@
    }
}

/// The index behind the run of digits that begins at `i`.
pub open spec fn digits_end(s: Seq<u8>, i: int) -> int
    decreases s.len() - i,
{
    if 0 <= i < s.len() && is_digit(s[i]) {
        digits_end(s, i + 1)
    } else {
        i
    }
}

/// A run of digits is made of digits, ends within the text, and ends before
/// a byte that is no digit.
pub proof fn lemma_digits_end(s: Seq<u8>, i: int)
    requires
        0 <= i <= s.len(),
    ensures
        i <= digits_end(s, i) <= s.len(),
        digits_between(s, i, digits_end(s, i)),
        digits_end(s, i) < s.len() ==> !is_digit(s[digits_end(s, i)]),
    decreases s.len() - i,
{
    if i < s.len() && is_digit(s[i]) {
        lemma_digits_end(s, i + 1);
    }
}

/// Digits up to a byte that is no digit, or up to the end, are a run.
pub proof fn lemma_digits_run(s: Seq<u8>, i: int, j: int)
    requires
        0 <= i <= j <= s.len(),
        digits_between(s, i, j),
        j < s.len() ==> !is_digit(s[j]),
    ensures
        digits_end(s, i) == j,
    decreases j - i,
{
    if i < j {
        assert(is_digit(s[i]));
        lemma_digits_run(s, i + 1, j);
    }
}

/// The index behind the run of digits of `t` that begins at `from`.
pub fn skip_digits(t: &[u8], from: usize) -> (r: usize)
    requires
        from <= t@.len(),
    ensures
        r == digits_end(t@, from as int),
        from <= r <= t@.len(),
{
    let mut i: usize = from;
    while i < t.len() && t[i] >= 48 && t[i] <= 57
        invariant
            from <= i <= t@.len(),
            digits_end(t@, from as int) == digits_end(t@, i as int),
        decreases t@.len() - i,
    {
        i += 1;
    }
    i
}

/// Whether `t`, letter case set aside, is the word `word`.
pub fn matches_word(t: &[u8], word: &[u8]) -> (r: bool)
    ensures
        r == is_word(t@, word@),
{
    if t.len() != word.len() {
        return false;
    }
    let mut i: usize = 0;
    while i < t.len()
        invariant
            i <= t@.len() == word@.len(),
            forall|j: int| 0 <= j < i ==> to_lower(#[trigger] t@[j]) == word@[j],
        decreases t@.len() - i,
    {
        let b = t[i];
        let lower = if b >= 65 && b <= 90 {
            b + 32
        } else {
            b
        };
        if lower != word[i] {
            return false;
        }
        i += 1;
    }
    true
}

/// Whether `s` is a decimal number: digits with at most one point, then an
/// optional exponent.
pub fn is_decimal(s: &[u8]) -> (r: bool)
    ensures
        r == is_decimal_number(s@),
{
    let whole_end = skip_digits(s, 0);
    let has_point = whole_end < s.len() && s[whole_end] == 46;
    let mantissa_end = if has_point {
        skip_digits(s, whole_end + 1)
    } else {
        whole_end
    };
    let digit_count = if has_point {
        mantissa_end - 1
    } else {
        mantissa_end
    };
    proof {
        reveal(is_decimal_number);
        lemma_digits_end(s@, 0);
        if has_point {
            lemma_digits_end(s@, whole_end + 1);
        }
        assert forall|w: int, m: int, x: int| decimal_number_at(s@, w, m, x) implies w == whole_end
            && m == mantissa_end by {
            lemma_digits_run(s@, 0, w);
            if m > w {
                lemma_digits_run(s@, w + 1, m);
            }
        }
    }
    if digit_count == 0 {
        return false;
    }
    if mantissa_end == s.len() {
        assert(decimal_number_at(s@, whole_end as int, mantissa_end as int, mantissa_end as int));
        return true;
    }
    if s[mantissa_end] == 101 || s[mantissa_end] == 69 {
        let after_e = mantissa_end + 1;
        let exponent = if after_e < s.len() && (s[after_e] == 43 || s[after_e] == 45) {
            after_e + 1
        } else {
            after_e
        };
        let last = skip_digits(s, exponent);
        proof {
            lemma_digits_end(s@, exponent as int);
            assert forall|w: int, m: int, x: int| decimal_number_at(s@, w, m, x) implies x
                == exponent && last == s@.len() && last > exponent by {
                if x != exponent {
                    assert(is_digit(s@[x]));
                }
                lemma_digits_run(s@, x, s@.len() as int);
            }
            if last > exponent && last == s.len() {
                assert(decimal_number_at(
                    s@,
                    whole_end as int,
                    mantissa_end as int,
                    exponent as int,
                ));
            }
        }
        last > exponent && last == s.len()
    } else {
        false
    }
}

/// Whether `t` is a text that stands for a double.
pub fn is_double(t: &[u8]) -> (r: bool)
    ensures
        r == is_double_text(t@),
{
    let start: usize = if t.len() > 0 && (t[0] == 43 || t[0] == 45) {
        1
    } else {
        0
    };
    let body = slice_subrange(t, start, t.len());
    proof {
        if start == 0 {
            assert(body@ =~= t@);
        }
    }
    let inf = [105u8, 110u8, 102u8];
    let infinity = [105u8, 110u8, 102u8, 105u8, 110u8, 105u8, 116u8, 121u8];
    let nan = [110u8, 97u8, 110u8];
    assert(inf@ =~= seq![105u8, 110u8, 102u8]);
    assert(infinity@ =~= seq![105u8, 110u8, 102u8, 105u8, 110u8, 105u8, 116u8, 121u8]);
    assert(nan@ =~= seq![110u8, 97u8, 110u8]);
    if matches_word(body, inf.as_slice()) || matches_word(body, infinity.as_slice())
        || matches_word(body, nan.as_slice()) {
        return true;
    }
    is_decimal(body)
}

impl RespDouble {
    /// A double from its text; `None` where the text does not stand for one.
    pub fn from_text(text: Vec<u8>) -> (r: Option<Self>)
        ensures
            r is Some <==> is_double_text(text@),
            r matches Some(d) ==> d@ == text@,
    {
        if is_double(text.as_slice()) {
            Some(RespDouble(text))
        } else {
            None
        }
    }

    /// The text that stands for the double.
    pub fn text(&self) -> (r: &[u8])
        ensures
            r@ == self@,
    {
        self.0.as_slice()
    }
}

impl Clone for RespDouble {
    fn clone(&self) -> (r: Self)
        ensures
            r@ == self@,
    {
        RespDouble(slice_to_vec(self.0.as_slice()))
    }
}

impl RespEncode for RespDouble {
    open spec fn frame(&self) -> Frame {
        Frame::Double(self@)
    }

    fn encode(self) -> (bytes: Vec<u8>) {
        let mut out: Vec<u8> = Vec::new();
        write_frame(&RespFrame::Double(self), &mut out);
        assert(out@ =~= encode_frame(Frame::Double(self@)));
        out
    }
}

impl RespDecode for RespDouble {
    open spec fn span(s: Seq<u8>) -> Result<nat, Fault> {
        line_span(s, seq![DOUBLE_TAG])
    }

    open spec fn value(s: Seq<u8>) -> Result<(Frame, nat), Fault> {
        double_value(s)
    }

    fn decode(buf: &mut BytesMut) -> (r: Result<Self, RespError>) {
        let data = buffer_bytes(buf);
        let len = data.len();
        let span = match Self::expect_length(data) {
            Ok(n) => n,
            Err(e) => {
                return Err(e);
            },
        };
        if span > len {
            return Err(RespError::NotComplete);
        }
        match double_parse(data) {
            Ok((v, used)) => {
                buffer_advance(buf, used);
                Ok(v)
            },
            Err(e) => Err(e),
        }
    }

    fn expect_length(buf: &[u8]) -> (r: Result<usize, RespError>) {
        let tag = [DOUBLE_TAG];
        assert(tag@ =~= seq![DOUBLE_TAG]);
        line_expect_length(buf, tag.as_slice())
    }
}

} // verus!
