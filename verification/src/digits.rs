//! Decimal digits of every script.
//!
//! Each script that has decimal digits encodes them as ten consecutive code
//! points, zero first. The table below lists the code point of each zero
//! (Unicode 16.0, general category `Nd`).

use vstd::prelude::*;

verus! {

/// Whether `c` is one of the ten digits that start at code point `zero`.
pub open spec fn in_decade(c: char, zero: u32) -> bool {
    zero <= c as u32 && (c as u32) < zero + 10
}

/// Whether `c` is a decimal digit of some script.
pub open spec fn decimal_digit(c: char) -> bool {
       in_decade(c, 0x0030) || in_decade(c, 0x0660) || in_decade(c, 0x06F0) || in_decade(c, 0x07C0)
    || in_decade(c, 0x0966) || in_decade(c, 0x09E6) || in_decade(c, 0x0A66) || in_decade(c, 0x0AE6)
    || in_decade(c, 0x0B66) || in_decade(c, 0x0BE6) || in_decade(c, 0x0C66) || in_decade(c, 0x0CE6)
    || in_decade(c, 0x0D66) || in_decade(c, 0x0DE6) || in_decade(c, 0x0E50) || in_decade(c, 0x0ED0)
    || in_decade(c, 0x0F20) || in_decade(c, 0x1040) || in_decade(c, 0x1090) || in_decade(c, 0x17E0)
    || in_decade(c, 0x1810) || in_decade(c, 0x1946) || in_decade(c, 0x19D0) || in_decade(c, 0x1A80)
    || in_decade(c, 0x1A90) || in_decade(c, 0x1B50) || in_decade(c, 0x1BB0) || in_decade(c, 0x1C40)
    || in_decade(c, 0x1C50) || in_decade(c, 0xA620) || in_decade(c, 0xA8D0) || in_decade(c, 0xA900)
    || in_decade(c, 0xA9D0) || in_decade(c, 0xA9F0) || in_decade(c, 0xAA50) || in_decade(c, 0xABF0)
    || in_decade(c, 0xFF10) || in_decade(c, 0x104A0) || in_decade(c, 0x10D30) || in_decade(c, 0x10D40)
    || in_decade(c, 0x11066) || in_decade(c, 0x110F0) || in_decade(c, 0x11136) || in_decade(c, 0x111D0)
    || in_decade(c, 0x112F0) || in_decade(c, 0x11450) || in_decade(c, 0x114D0) || in_decade(c, 0x11650)
    || in_decade(c, 0x116C0) || in_decade(c, 0x116D0) || in_decade(c, 0x116DA) || in_decade(c, 0x11730)
    || in_decade(c, 0x118E0) || in_decade(c, 0x11950) || in_decade(c, 0x11BF0) || in_decade(c, 0x11C50)
    || in_decade(c, 0x11D50) || in_decade(c, 0x11DA0) || in_decade(c, 0x11F50) || in_decade(c, 0x16130)
    || in_decade(c, 0x16A60) || in_decade(c, 0x16AC0) || in_decade(c, 0x16B50) || in_decade(c, 0x16D70)
    || in_decade(c, 0x1CCF0) || in_decade(c, 0x1D7CE) || in_decade(c, 0x1D7D8) || in_decade(c, 0x1D7E2)
    || in_decade(c, 0x1D7EC) || in_decade(c, 0x1D7F6) || in_decade(c, 0x1E140) || in_decade(c, 0x1E2F0)
    || in_decade(c, 0x1E4F0) || in_decade(c, 0x1E5F1) || in_decade(c, 0x1E950) || in_decade(c, 0x1FBF0)
}

fn within_decade(c: char, zero: u32) -> (b: bool)
    requires
        zero <= 0x10FFFF,
    ensures
        b == in_decade(c, zero),
{
    let v: u32 = c as u32;
    zero <= v && v < zero + 10
}

/// Tells whether `c` is a decimal digit of some script.
pub fn is_decimal_digit(c: char) -> (b: bool)
    ensures
        b == decimal_digit(c),
{
       within_decade(c, 0x0030) || within_decade(c, 0x0660) || within_decade(c, 0x06F0) || within_decade(c, 0x07C0)
    || within_decade(c, 0x0966) || within_decade(c, 0x09E6) || within_decade(c, 0x0A66) || within_decade(c, 0x0AE6)
    || within_decade(c, 0x0B66) || within_decade(c, 0x0BE6) || within_decade(c, 0x0C66) || within_decade(c, 0x0CE6)
    || within_decade(c, 0x0D66) || within_decade(c, 0x0DE6) || within_decade(c, 0x0E50) || within_decade(c, 0x0ED0)
    || within_decade(c, 0x0F20) || within_decade(c, 0x1040) || within_decade(c, 0x1090) || within_decade(c, 0x17E0)
    || within_decade(c, 0x1810) || within_decade(c, 0x1946) || within_decade(c, 0x19D0) || within_decade(c, 0x1A80)
    || within_decade(c, 0x1A90) || within_decade(c, 0x1B50) || within_decade(c, 0x1BB0) || within_decade(c, 0x1C40)
    || within_decade(c, 0x1C50) || within_decade(c, 0xA620) || within_decade(c, 0xA8D0) || within_decade(c, 0xA900)
    || within_decade(c, 0xA9D0) || within_decade(c, 0xA9F0) || within_decade(c, 0xAA50) || within_decade(c, 0xABF0)
    || within_decade(c, 0xFF10) || within_decade(c, 0x104A0) || within_decade(c, 0x10D30) || within_decade(c, 0x10D40)
    || within_decade(c, 0x11066) || within_decade(c, 0x110F0) || within_decade(c, 0x11136) || within_decade(c, 0x111D0)
    || within_decade(c, 0x112F0) || within_decade(c, 0x11450) || within_decade(c, 0x114D0) || within_decade(c, 0x11650)
    || within_decade(c, 0x116C0) || within_decade(c, 0x116D0) || within_decade(c, 0x116DA) || within_decade(c, 0x11730)
    || within_decade(c, 0x118E0) || within_decade(c, 0x11950) || within_decade(c, 0x11BF0) || within_decade(c, 0x11C50)
    || within_decade(c, 0x11D50) || within_decade(c, 0x11DA0) || within_decade(c, 0x11F50) || within_decade(c, 0x16130)
    || within_decade(c, 0x16A60) || within_decade(c, 0x16AC0) || within_decade(c, 0x16B50) || within_decade(c, 0x16D70)
    || within_decade(c, 0x1CCF0) || within_decade(c, 0x1D7CE) || within_decade(c, 0x1D7D8) || within_decade(c, 0x1D7E2)
    || within_decade(c, 0x1D7EC) || within_decade(c, 0x1D7F6) || within_decade(c, 0x1E140) || within_decade(c, 0x1E2F0)
    || within_decade(c, 0x1E4F0) || within_decade(c, 0x1E5F1) || within_decade(c, 0x1E950) || within_decade(c, 0x1FBF0)
}

/// The ten ASCII digits are decimal digits.
pub proof fn lemma_ascii_digits(c: char)
    requires
        '0' <= c <= '9',
    ensures
        decimal_digit(c),
{
    assert(in_decade(c, 0x0030));
}

/// No decimal digit is a dot.
pub proof fn lemma_digit_is_not_dot(c: char)
    requires
        decimal_digit(c),
    ensures
        c != '.',
{
}

} // verus!
