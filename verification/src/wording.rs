//! Numbers as text, for names and messages.

use vstd::prelude::*;
use vstd::string::StringExecFns;

verus! {

/// The digit of a value below 16, in lower case.
pub open spec fn digit_char(v: int) -> char {
    if v == 0 {
        '0'
    } else if v == 1 {
        '1'
    } else if v == 2 {
        '2'
    } else if v == 3 {
        '3'
    } else if v == 4 {
        '4'
    } else if v == 5 {
        '5'
    } else if v == 6 {
        '6'
    } else if v == 7 {
        '7'
    } else if v == 8 {
        '8'
    } else if v == 9 {
        '9'
    } else if v == 10 {
        'a'
    } else if v == 11 {
        'b'
    } else if v == 12 {
        'c'
    } else if v == 13 {
        'd'
    } else if v == 14 {
        'e'
    } else {
        'f'
    }
}

/// The digit of a value below 16, in upper case.
pub open spec fn upper_digit_char(v: int) -> char {
    if v == 10 {
        'A'
    } else if v == 11 {
        'B'
    } else if v == 12 {
        'C'
    } else if v == 13 {
        'D'
    } else if v == 14 {
        'E'
    } else if v == 15 {
        'F'
    } else {
        digit_char(v)
    }
}

/// The decimal digits of a number.
pub open spec fn decimal_text(n: nat) -> Seq<char>
    decreases n,
{
    if n < 10 {
        seq![digit_char(n as int)]
    } else {
        decimal_text(n / 10).push(digit_char((n % 10) as int))
    }
}

/// The last `digits` hexadecimal digits of a number, in upper case.
pub open spec fn upper_hex_text(n: nat, digits: nat) -> Seq<char>
    decreases digits,
{
    if digits == 0 {
        Seq::empty()
    } else {
        upper_hex_text(n / 16, (digits - 1) as nat).push(upper_digit_char((n % 16) as int))
    }
}

/// The two hexadecimal digits of a byte, in lower case.
pub open spec fn lower_hex_pair(byte: u8) -> Seq<char> {
    seq![digit_char(byte as int / 16), digit_char(byte as int % 16)]
}

/// The text of a digit, in lower case.
fn digit_text(v: u8) -> (text: &'static str)
    requires
        v < 16,
    ensures
        text@ == seq![digit_char(v as int)],
{
    proof {
        reveal_strlit("0");
        reveal_strlit("1");
        reveal_strlit("2");
        reveal_strlit("3");
        reveal_strlit("4");
        reveal_strlit("5");
        reveal_strlit("6");
        reveal_strlit("7");
        reveal_strlit("8");
        reveal_strlit("9");
        reveal_strlit("a");
        reveal_strlit("b");
        reveal_strlit("c");
        reveal_strlit("d");
        reveal_strlit("e");
        reveal_strlit("f");
    }
    let text = if v == 0 {
        "0"
    } else if v == 1 {
        "1"
    } else if v == 2 {
        "2"
    } else if v == 3 {
        "3"
    } else if v == 4 {
        "4"
    } else if v == 5 {
        "5"
    } else if v == 6 {
        "6"
    } else if v == 7 {
        "7"
    } else if v == 8 {
        "8"
    } else if v == 9 {
        "9"
    } else if v == 10 {
        "a"
    } else if v == 11 {
        "b"
    } else if v == 12 {
        "c"
    } else if v == 13 {
        "d"
    } else if v == 14 {
        "e"
    } else {
        "f"
    };
    assert(text@ =~= seq![digit_char(v as int)]);
    text
}

/// The text of a digit, in upper case.
fn upper_digit_text(v: u8) -> (text: &'static str)
    requires
        v < 16,
    ensures
        text@ == seq![upper_digit_char(v as int)],
{
    proof {
        reveal_strlit("A");
        reveal_strlit("B");
        reveal_strlit("C");
        reveal_strlit("D");
        reveal_strlit("E");
        reveal_strlit("F");
    }
    if v < 10 {
        digit_text(v)
    } else {
        let text = if v == 10 {
            "A"
        } else if v == 11 {
            "B"
        } else if v == 12 {
            "C"
        } else if v == 13 {
            "D"
        } else if v == 14 {
            "E"
        } else {
            "F"
        };
        assert(text@ =~= seq![upper_digit_char(v as int)]);
        text
    }
}

/// Adds the decimal digits of a number to a text.
pub fn push_decimal(out: &mut String, n: u64)
    ensures
        final(out)@ == old(out)@ + decimal_text(n as nat),
    decreases n,
{
    if n >= 10 {
        push_decimal(out, n / 10);
    }
    out.append(digit_text((n % 10) as u8));
    assert(out@ =~= old(out)@ + decimal_text(n as nat));
}

/// Adds the last `digits` hexadecimal digits of a number to a text, in
/// upper case.
pub fn push_upper_hex(out: &mut String, n: u64, digits: u8)
    ensures
        final(out)@ == old(out)@ + upper_hex_text(n as nat, digits as nat),
    decreases digits,
{
    if digits > 0 {
        push_upper_hex(out, n / 16, digits - 1);
        out.append(upper_digit_text((n % 16) as u8));
    }
    assert(out@ =~= old(out)@ + upper_hex_text(n as nat, digits as nat));
}

/// Adds the two hexadecimal digits of a byte to a text, in lower case.
pub fn push_lower_hex_pair(out: &mut String, byte: u8)
    ensures
        final(out)@ == old(out)@ + lower_hex_pair(byte),
{
    out.append(digit_text(byte / 16));
    out.append(digit_text(byte % 16));
    assert(out@ =~= old(out)@ + lower_hex_pair(byte));
}

} // verus!
