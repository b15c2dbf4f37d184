//! The texts that the decoder's errors carry.
use crate::resp::buffer::debug_string;
use crate::resp::wire::{
    byte_text, digit_char, list_items, list_text, number_text, unknown_tag_text, unterminated_text,
    wrong_frame_text, wrong_tag_text,
};
use vstd::prelude::*;
use vstd::string::StringExecFns;

verus! {

/// The digit `d` as a string of one character.
pub(crate) fn digit_str(d: u8) -> (r: &'static str)
    requires
        d < 10,
    ensures
        r@ == seq![digit_char(d as nat)],
{
    proof {
        reveal_strlit("0");
        reveal_strlit("1");
        reveal_strlit("2");
        reveal_strlit("3");
        reveal_strlit("4");
        reveal_strlit("5");
        reveal_strlit("6");
        reveal_strlit("7");
        reveal_strlit("8");
        reveal_strlit("9");
    }
    let r = if d == 0 {
        "0"
    } else if d == 1 {
        "1"
    } else if d == 2 {
        "2"
    } else if d == 3 {
        "3"
    } else if d == 4 {
        "4"
    } else if d == 5 {
        "5"
    } else if d == 6 {
        "6"
    } else if d == 7 {
        "7"
    } else if d == 8 {
        "8"
    } else {
        "9"
    };
    assert(r@ =~= seq![digit_char(d as nat)]);
    r
}

fn push_byte_text(m: &mut String, b: u8)
    ensures
        final(m)@ == old(m)@ + byte_text(b),
{
    if b >= 100 {
        m.append(digit_str(b / 100));
    }
    if b >= 10 {
        m.append(digit_str(b / 10 % 10));
    }
    m.append(digit_str(b % 10));
    assert(m@ =~= old(m)@ + byte_text(b));
}

/// Appends the decimal digits of `n`.
pub(crate) fn push_number_text(m: &mut String, n: usize)
    ensures
        final(m)@ == old(m)@ + number_text(n as nat),
    decreases n,
{
    if n >= 10 {
        push_number_text(m, n / 10);
    }
    m.append(digit_str((n % 10) as u8));
    assert(m@ =~= old(m)@ + number_text(n as nat));
}

fn push_list_text(m: &mut String, buf: &[u8])
    ensures
        final(m)@ == old(m)@ + list_text(buf@),
{
    proof {
        reveal_strlit("[");
        reveal_strlit("]");
        reveal_strlit(", ");
    }
    m.append("[");
    let mut i: usize = 0;
    while i < buf.len()
        invariant
            i <= buf@.len(),
            m@ == old(m)@ + seq!['['] + list_items(buf@.take(i as int)),
            ", "@ == seq![',', ' '],
        decreases buf@.len() - i,
    {
        let ghost before = m@;
        if i > 0 {
            m.append(", ");
        }
        push_byte_text(m, buf[i]);
        proof {
            let next = buf@.take(i + 1);
            assert(next.drop_last() =~= buf@.take(i as int));
            assert(next.last() == buf@[i as int]);
            if i == 0 {
                assert(list_items(buf@.take(0)) =~= Seq::<char>::empty());
                assert(list_items(next) == byte_text(buf@[0]));
            }
            assert(m@ =~= old(m)@ + seq!['['] + list_items(next));
        }
        i += 1;
    }
    m.append("]");
    proof {
        assert(buf@.take(buf@.len() as int) =~= buf@);
        assert(m@ =~= old(m)@ + list_text(buf@));
    }
}

/// The message for bytes that do not begin with the tag that was expected.
pub(crate) fn wrong_tag_message(buf: &[u8]) -> (m: String)
    ensures
        m@ == wrong_tag_text(buf@),
{
    let mut m = String::from_str("expect: SimpleString(+), got: ");
    push_list_text(&mut m, buf);
    proof {
        reveal_strlit("expect: SimpleString(+), got: ");
        reveal_strlit("expect: ");
        reveal_strlit("SimpleString(+)");
        reveal_strlit(", got: ");
        assert(m@ =~= wrong_tag_text(buf@));
    }
    m
}

/// The message for bytes that are not the fixed frame `kind`.
pub(crate) fn expected_message(kind: &str, buf: &[u8]) -> (m: String)
    ensures
        m@ == wrong_frame_text(kind@, buf@),
{
    let mut m = String::from_str("expect: ");
    m.append(kind);
    m.append(", got: ");
    let got = debug_string(buf);
    m.append(got.as_str());
    m
}

/// The message for bytes that begin with no tag of the protocol.
pub(crate) fn unknown_tag_message(buf: &[u8]) -> (m: String)
    ensures
        m@ == unknown_tag_text(buf@),
{
    let mut m = String::from_str("decode unknown frame type: ");
    let got = debug_string(buf);
    m.append(got.as_str());
    m
}

/// The message for a bulk string whose payload is not followed by CRLF.
pub(crate) fn unterminated_message() -> (m: String)
    ensures
        m@ == unterminated_text(),
{
    String::from_str("bulk string payload is not followed by CRLF")
}

} // verus!
