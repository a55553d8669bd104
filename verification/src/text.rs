//! Decimal numbers as text.

use vstd::prelude::*;

verus! {

/// [`String::push`] of the standard library appends one character: the text
/// after the call is the text before it followed by `ch`.
pub assume_specification[ String::push ](text: &mut String, ch: char)
    ensures
        final(text)@ == old(text)@.push(ch),
;

/// The character of the decimal digit `digit`, for a digit from 0 to 9.
pub open spec fn digit_char(digit: int) -> char {
    ('0' as int + digit) as char
}

/// The decimal form of `number`, without leading zeros.
pub open spec fn decimal(number: nat) -> Seq<char>
    decreases number,
{
    if number < 10 {
        seq![digit_char(number as int)]
    } else {
        decimal(number / 10).push(digit_char(number as int % 10))
    }
}

/// `count` spaces.
pub open spec fn spaces(count: int) -> Seq<char> {
    Seq::new(count as nat, |i: int| ' ')
}

/// The decimal form of `number` with spaces before it up to a width of three
/// characters.
pub open spec fn padded(number: u8) -> Seq<char> {
    spaces(3 - decimal(number as nat).len()) + decimal(number as nat)
}

/// Appends the decimal form of `number` to `text`.
pub(crate) fn push_decimal(text: &mut String, number: usize)
    ensures
        final(text)@ == old(text)@ + decimal(number as nat),
    decreases number,
{
    if number >= 10 {
        push_decimal(text, number / 10);
    }
    text.push(('0' as u8 + (number % 10) as u8) as char);
}

/// Appends `number`, right-aligned in a field of three characters, to `text`.
pub(crate) fn push_padded(text: &mut String, number: u8)
    ensures
        final(text)@ == old(text)@ + padded(number),
{
    proof {
        reveal_with_fuel(decimal, 3);
    }
    if number < 10 {
        text.push(' ');
        text.push(' ');
    } else if number < 100 {
        text.push(' ');
    }
    push_decimal(text, number as usize);
}

} // verus!
