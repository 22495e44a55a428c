//! Building text out of literals, names and numbers.

use vstd::prelude::*;

verus! {

/// `String::push` appends one character to the end of the string.
pub assume_specification[ String::push ](s: &mut String, c: char)
    ensures
        final(s)@ == old(s)@.push(c),
;

/// The character of a decimal digit.
pub open spec fn digit_char(digit: nat) -> char {
    (('0' as u32) + digit) as char
}

/// The decimal digits of a number, without leading zeros; `0` for zero.
pub open spec fn decimal(value: nat) -> Seq<char>
    decreases value,
{
    if value < 10 {
        seq![digit_char(value)]
    } else {
        decimal(value / 10).push(digit_char(value % 10))
    }
}

/// A signed number: a minus sign where it is negative, then its digits.
pub open spec fn signed_decimal(value: int) -> Seq<char> {
    if value < 0 {
        seq!['-'] + decimal((-value) as nat)
    } else {
        decimal(value as nat)
    }
}

/// A number in tenths, with one digit behind the point.
pub open spec fn tenths_text(value: nat) -> Seq<char> {
    decimal(value / 10).push('.').push(digit_char(value % 10))
}

/// The character of one decimal digit.
pub fn digit(value: u8) -> (c: char)
    requires
        value < 10,
    ensures
        c == digit_char(value as nat),
{
    (48u8 + value) as char
}

/// Appends the decimal digits of a number.
pub fn push_decimal(text: &mut String, value: u64)
    ensures
        final(text)@ == old(text)@ + decimal(value as nat),
    decreases value,
{
    if value >= 10 {
        push_decimal(text, value / 10);
    }
    text.push(digit((value % 10) as u8));
    proof {
        assert(text@ =~= old(text)@ + decimal(value as nat));
    }
}

/// Appends a signed number.
pub fn push_signed(text: &mut String, value: i64)
    ensures
        final(text)@ == old(text)@ + signed_decimal(value as int),
{
    if value < 0 {
        text.push('-');
        let magnitude: u64 = if value == i64::MIN {
            9_223_372_036_854_775_808
        } else {
            (-value) as u64
        };
        push_decimal(text, magnitude);
        proof {
            assert(text@ =~= old(text)@ + signed_decimal(value as int));
        }
    } else {
        push_decimal(text, value as u64);
    }
}

/// Appends a number of tenths with one digit behind the point.
pub fn push_tenths(text: &mut String, value: u64)
    ensures
        final(text)@ == old(text)@ + tenths_text(value as nat),
{
    push_decimal(text, value / 10);
    text.push('.');
    text.push(digit((value % 10) as u8));
    proof {
        assert(text@ =~= old(text)@ + tenths_text(value as nat));
    }
}

/// The character of a hexadecimal digit.
pub open spec fn hex_char(digit: nat) -> char {
    if digit < 10 {
        digit_char(digit)
    } else {
        (('a' as u32) + (digit - 10)) as char
    }
}

/// The hexadecimal digits of a number, without leading zeros; `0` for zero.
pub open spec fn hexadecimal(value: nat) -> Seq<char>
    decreases value,
{
    if value < 16 {
        seq![hex_char(value)]
    } else {
        hexadecimal(value / 16).push(hex_char(value % 16))
    }
}

/// The character of one hexadecimal digit.
pub fn hex_digit(value: u8) -> (c: char)
    requires
        value < 16,
    ensures
        c == hex_char(value as nat),
{
    if value < 10 {
        (48u8 + value) as char
    } else {
        (87u8 + value) as char
    }
}

/// Appends the hexadecimal digits of a number.
pub fn push_hexadecimal(text: &mut String, value: u64)
    ensures
        final(text)@ == old(text)@ + hexadecimal(value as nat),
    decreases value,
{
    if value >= 16 {
        push_hexadecimal(text, value / 16);
    }
    text.push(hex_digit((value % 16) as u8));
    proof {
        assert(text@ =~= old(text)@ + hexadecimal(value as nat));
    }
}

/// A number has at least one digit, and nothing but digits.
pub proof fn lemma_decimal_digits(value: nat)
    ensures
        decimal(value).len() > 0,
        forall|i: int|
            0 <= i < decimal(value).len() ==> '0' <= #[trigger] decimal(value)[i] && decimal(
                value,
            )[i] <= '9',
    decreases value,
{
    if value >= 10 {
        lemma_decimal_digits(value / 10);
    }
}

} // verus!
