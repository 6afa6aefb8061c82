//! The bytes that carry meaning in an SMTP reply, and the classes of bytes.

use vstd::prelude::*;

verus! {

pub const TAB: u8 = 0x09;

/// Line feed: ends a line.
pub const LF: u8 = 0x0a;

pub const FF: u8 = 0x0c;

/// Carriage return: stands before a line feed where lines end in both. In a reply it is passed
/// over behind the code and in the text, ends an enhanced status code like other white space, and
/// is refused inside the code. In an answer to EHLO it is passed over in the host name and in the
/// words, numbers and texts of a line, but not among the last three letters of
/// ENHANCEDSTATUSCODES, and is refused inside the code and directly behind it.
pub const CR: u8 = 0x0d;

pub const SP: u8 = 0x20;

/// Follows the code on every line of a reply but the last.
pub const HYPHEN: u8 = 0x2d;

pub const DOT: u8 = 0x2e;

/// An ASCII decimal digit.
#[verifier::allow_in_spec]
pub fn is_digit(byte: u8) -> bool
    returns
        0x30 <= byte <= 0x39,
{
    0x30 <= byte && byte <= 0x39
}

/// The number that an ASCII digit stands for.
#[verifier::allow_in_spec]
pub fn digit_value(byte: u8) -> u8
    requires
        is_digit(byte),
    returns
        (byte - 0x30) as u8,
{
    byte - 0x30
}

/// ASCII white space: space, tab, line feed, form feed and carriage return.
#[verifier::allow_in_spec]
pub fn is_whitespace(byte: u8) -> bool
    returns
        byte == SP || byte == TAB || byte == LF || byte == FF || byte == CR,
{
    byte == SP || byte == TAB || byte == LF || byte == FF || byte == CR
}

/// The byte with an ASCII lower-case letter raised to upper case.
#[verifier::allow_in_spec]
pub fn to_upper(byte: u8) -> u8
    returns
        if 0x61 <= byte <= 0x7a {
            (byte - 0x20) as u8
        } else {
            byte
        },
{
    if 0x61 <= byte && byte <= 0x7a {
        byte - 0x20
    } else {
        byte
    }
}

} // verus!
