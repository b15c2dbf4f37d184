//! Decimal text: the digits that lengths and integers are written with on the
//! wire, and the order in which map keys are kept.
use vstd::prelude::*;

verus! {

/// Whether `b` is an ASCII decimal digit.
pub open spec fn is_digit(b: u8) -> bool {
    48 <= b <= 57
}

/// Whether every byte of `s` is an ASCII decimal digit.
pub open spec fn all_digits(s: Seq<u8>) -> bool {
    forall|i: int| 0 <= i < s.len() ==> is_digit(#[trigger] s[i])
}

/// The value of one digit; bytes below `'0'` count as zero.
pub open spec fn digit_value(b: u8) -> nat {
    if b >= 48 {
        (b - 48) as nat
    } else {
        0
    }
}

/// The number that the decimal digits `s` denote, most significant first.
pub open spec fn decimal_value(s: Seq<u8>) -> nat
    decreases s.len(),
{
    if s.len() == 0 {
        0
    } else {
        decimal_value(s.drop_last()) * 10 + digit_value(s.last())
    }
}

/// The decimal digits of `n`, most significant first, without leading zeros.
pub open spec fn decimal(n: nat) -> Seq<u8>
    decreases n,
{
    if n < 10 {
        seq![(48 + n) as u8]
    } else {
        decimal(n / 10).push((48 + n % 10) as u8)
    }
}

/// What an unsigned decimal text denotes: an optional `+`, then one digit or
/// more. `None` for any other text.
pub open spec fn unsigned_value(text: Seq<u8>) -> Option<nat> {
    let digits = if text.len() > 0 && text[0] == 43 {
        text.skip(1)
    } else {
        text
    };
    if digits.len() > 0 && all_digits(digits) {
        Some(decimal_value(digits))
    } else {
        None
    }
}

/// What a signed decimal text denotes: an optional `+` or `-`, then one digit
/// or more. `None` for any other text.
pub open spec fn signed_value(text: Seq<u8>) -> Option<int> {
    if text.len() > 0 && text[0] == 45 {
        let digits = text.skip(1);
        if digits.len() > 0 && all_digits(digits) {
            Some(-(decimal_value(digits) as int))
        } else {
            None
        }
    } else {
        match unsigned_value(text) {
            Some(v) => Some(v as int),
            None => None,
        }
    }
}

/// The length that `text` declares, where it is an unsigned decimal text whose
/// value fits in `usize`.
pub open spec fn usize_of_text(text: Seq<u8>) -> Option<usize> {
    match unsigned_value(text) {
        Some(v) => if v <= usize::MAX {
            Some(v as usize)
        } else {
            None
        },
        None => None,
    }
}

/// The integer that `text` denotes, where it is a signed decimal text whose
/// value fits in `i64`.
pub open spec fn i64_of_text(text: Seq<u8>) -> Option<i64> {
    match signed_value(text) {
        Some(v) => if i64::MIN <= v <= i64::MAX {
            Some(v as i64)
        } else {
            None
        },
        None => None,
    }
}

/// The text of a signed integer as the encoder writes it: the sign always
/// stands, `+` for zero and above.
pub open spec fn signed_decimal(n: int) -> Seq<u8> {
    if n < 0 {
        seq![45u8] + decimal((-n) as nat)
    } else {
        seq![43u8] + decimal(n as nat)
    }
}

/// `decimal(n)` is one digit or more, digits only, and denotes `n`.
pub proof fn lemma_decimal(n: nat)
    ensures
        decimal(n).len() >= 1,
        all_digits(decimal(n)),
        decimal_value(decimal(n)) == n,
    decreases n,
{
    if n < 10 {
        let s = decimal(n);
        assert(s.drop_last() =~= Seq::<u8>::empty());
        assert(decimal_value(s.drop_last()) == 0);
    } else {
        lemma_decimal(n / 10);
        let s = decimal(n);
        assert(s.drop_last() =~= decimal(n / 10));
    }
}

/// A length written by the encoder is read back as the same length.
pub proof fn lemma_unsigned_round_trip(n: nat)
    ensures
        unsigned_value(decimal(n)) == Some(n),
{
    lemma_decimal(n);
    assert(is_digit(decimal(n)[0]));
}

/// An integer written by the encoder is read back as the same integer.
pub proof fn lemma_signed_round_trip(n: int)
    ensures
        signed_value(signed_decimal(n)) == Some(n),
        forall|i: int|
            0 <= i < signed_decimal(n).len() ==> signed_decimal(n)[i] != 13 && signed_decimal(
                n,
            )[i] != 10,
{
    let t = signed_decimal(n);
    if n < 0 {
        lemma_decimal((-n) as nat);
        assert(t.skip(1) =~= decimal((-n) as nat));
    } else {
        lemma_decimal(n as nat);
        assert(t.skip(1) =~= decimal(n as nat));
    }
    assert forall|i: int| 0 <= i < t.len() implies t[i] != 13 && t[i] != 10 by {
        if i > 0 {
            assert(is_digit(t.skip(1)[i - 1]));
        }
    }
}

/// Reading more digits never lowers the value read so far.
pub proof fn lemma_decimal_value_grows(s: Seq<u8>, k: int)
    requires
        0 <= k <= s.len(),
    ensures
        decimal_value(s.take(k)) <= decimal_value(s),
    decreases s.len() - k,
{
    if k < s.len() {
        lemma_decimal_value_grows(s, k + 1);
        assert(s.take(k + 1).drop_last() =~= s.take(k));
    } else {
        assert(s.take(k) =~= s);
    }
}

/// Appends the decimal digits of `n` to `out`.
pub fn push_decimal(out: &mut Vec<u8>, n: u64)
    ensures
        final(out)@ == old(out)@ + decimal(n as nat),
    decreases n,
{
    if n < 10 {
        out.push(48 + n as u8);
        assert(out@ =~= old(out)@ + decimal(n as nat));
    } else {
        push_decimal(out, n / 10);
        out.push(48 + (n % 10) as u8);
        assert(out@ =~= old(out)@ + decimal(n as nat));
    }
}

/// Reads the digits `text[start..]` as a number no greater than `limit`.
/// `None` where there is no digit, where a byte is no digit, or where the
/// value is above `limit`.
pub fn read_digits(text: &[u8], start: usize, limit: u64) -> (r: Option<u64>)
    requires
        start <= text@.len(),
    ensures
        r == (if text@.skip(start as int).len() > 0 && all_digits(text@.skip(start as int))
            && decimal_value(text@.skip(start as int)) <= limit {
            Some(decimal_value(text@.skip(start as int)) as u64)
        } else {
            None
        }),
{
    let ghost digits = text@.skip(start as int);
    if start == text.len() {
        return None;
    }
    let mut acc: u64 = 0;
    let mut i: usize = start;
    while i < text.len()
        invariant
            start <= i <= text@.len(),
            digits == text@.skip(start as int),
            all_digits(digits.take(i - start)),
            acc == decimal_value(digits.take(i - start)),
            acc <= limit,
        decreases text@.len() - i,
    {
        let b = text[i];
        let ghost next = digits.take(i - start + 1);
        proof {
            assert(next.drop_last() =~= digits.take(i - start));
            assert(next.last() == b);
        }
        if b < 48 || b > 57 {
            proof {
                assert(!is_digit(digits[i - start]));
            }
            return None;
        }
        let wide: u128 = acc as u128 * 10 + (b - 48) as u128;
        if wide > limit as u128 {
            proof {
                lemma_decimal_value_grows(digits, i - start + 1);
            }
            return None;
        }
        acc = wide as u64;
        proof {
            assert forall|j: int| 0 <= j < next.len() implies is_digit(#[trigger] next[j]) by {
                if j < next.len() - 1 {
                    assert(next[j] == digits.take(i - start)[j]);
                }
            }
        }
        i += 1;
    }
    proof {
        assert(digits.take(i - start) =~= digits);
    }
    Some(acc)
}

/// Reads a declared length: Rust's own syntax for an unsigned integer.
pub fn parse_usize(text: &[u8]) -> (r: Option<usize>)
    ensures
        r == usize_of_text(text@),
{
    let start: usize = if text.len() > 0 && text[0] == 43 {
        1
    } else {
        0
    };
    proof {
        if start == 0 {
            assert(text@.skip(0) =~= text@);
        }
    }
    match read_digits(text, start, usize::MAX as u64) {
        Some(v) => Some(v as usize),
        None => None,
    }
}

/// Reads a signed 64-bit integer: Rust's own syntax for one.
pub fn parse_i64(text: &[u8]) -> (r: Option<i64>)
    ensures
        r == i64_of_text(text@),
{
    if text.len() > 0 && text[0] == 45 {
        match read_digits(text, 1, 0x8000_0000_0000_0000u64) {
            Some(v) => {
                if v == 0x8000_0000_0000_0000u64 {
                    Some(i64::MIN)
                } else {
                    Some(-(v as i64))
                }
            },
            None => None,
        }
    } else {
        let start: usize = if text.len() > 0 && text[0] == 43 {
            1
        } else {
            0
        };
        proof {
            if start == 0 {
                assert(text@.skip(0) =~= text@);
            }
        }
        match read_digits(text, start, 0x7fff_ffff_ffff_ffffu64) {
            Some(v) => Some(v as i64),
            None => None,
        }
    }
}

/// Appends the text of `n` as the encoder writes a signed integer.
pub fn push_signed_decimal(out: &mut Vec<u8>, n: i64)
    ensures
        final(out)@ == old(out)@ + signed_decimal(n as int),
{
    if n < 0 {
        out.push(45);
        let magnitude: u64 = if n == i64::MIN {
            0x8000_0000_0000_0000u64
        } else {
            (-n) as u64
        };
        push_decimal(out, magnitude);
        assert(out@ =~= old(out)@ + signed_decimal(n as int));
    } else {
        out.push(43);
        push_decimal(out, n as u64);
        assert(out@ =~= old(out)@ + signed_decimal(n as int));
    }
}

} // verus!
