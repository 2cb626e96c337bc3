use vstd::prelude::*;

verus! {

/// The ASCII whitespace bytes: space, tab, line feed, form feed, carriage return.
pub open spec fn is_space(b: u8) -> bool {
    b == 0x20 || b == 0x09 || b == 0x0a || b == 0x0c || b == 0x0d
}

/// The ASCII decimal digits.
pub open spec fn is_digit(b: u8) -> bool {
    0x30 <= b <= 0x39
}

/// The ASCII letters of either case.
pub open spec fn is_letter(b: u8) -> bool {
    (0x41 <= b <= 0x5a) || (0x61 <= b <= 0x7a)
}

/// A byte that may open an identifier: a letter or the underscore.
pub open spec fn spec_is_ident_start(b: u8) -> bool {
    is_letter(b) || b == 0x5f
}

/// A byte that may continue an identifier: a letter, the underscore or a digit.
pub open spec fn spec_is_ident_continue(b: u8) -> bool {
    spec_is_ident_start(b) || is_digit(b)
}

/// The upper-case form of an ASCII letter; every other byte is left as it is.
pub open spec fn upper(b: u8) -> u8 {
    if 0x61 <= b <= 0x7a {
        (b - 0x20) as u8
    } else {
        b
    }
}

/// The number of bytes that a UTF-8 code point takes, read off its first byte.
pub open spec fn spec_width(lead: u8) -> int {
    if lead < 0x80 {
        1
    } else if lead < 0xe0 {
        2
    } else if lead < 0xf0 {
        3
    } else {
        4
    }
}

pub fn is_ascii_whitespace(b: u8) -> (r: bool)
    ensures
        r == is_space(b),
{
    b == 0x20 || b == 0x09 || b == 0x0a || b == 0x0c || b == 0x0d
}

pub fn is_ascii_digit(b: u8) -> (r: bool)
    ensures
        r == is_digit(b),
{
    0x30 <= b && b <= 0x39
}

pub fn is_ident_start(b: u8) -> (r: bool)
    ensures
        r == spec_is_ident_start(b),
{
    (0x41 <= b && b <= 0x5a) || (0x61 <= b && b <= 0x7a) || b == 0x5f
}

pub fn is_ident_continue(b: u8) -> (r: bool)
    ensures
        r == spec_is_ident_continue(b),
{
    is_ident_start(b) || is_ascii_digit(b)
}

pub fn to_ascii_uppercase(b: u8) -> (r: u8)
    ensures
        r == upper(b),
{
    if 0x61 <= b && b <= 0x7a {
        b - 0x20
    } else {
        b
    }
}

pub fn width(lead: u8) -> (r: usize)
    ensures
        r == spec_width(lead),
{
    if lead < 0x80 {
        1
    } else if lead < 0xe0 {
        2
    } else if lead < 0xf0 {
        3
    } else {
        4
    }
}

} // verus!
