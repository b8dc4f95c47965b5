//! Character classes used by the scanner, and the width of a character in
//! UTF-8.

use vstd::prelude::*;

verus! {

/// Whether `c` lies in the ASCII range.
pub open spec fn ascii(c: char) -> bool {
    (c as u32) < 0x80
}

/// A decimal digit, `0` to `9`.
pub open spec fn digit(c: char) -> bool {
    '0' <= c <= '9'
}

/// A letter that may start an identifier: `a` to `z`, `A` to `Z`, or `_`.
pub open spec fn identifier_start(c: char) -> bool {
    ('a' <= c <= 'z') || ('A' <= c <= 'Z') || c == '_'
}

/// What `char::is_whitespace` answers for `c`. The library asks it of
/// characters outside ASCII only.
pub uninterp spec fn unicode_whitespace(c: char) -> bool;

/// What `char::is_alphanumeric` answers for `c`. The library asks it of
/// characters outside ASCII only.
pub uninterp spec fn unicode_alphanumeric(c: char) -> bool;

/// White space: in ASCII the tab, line feed, vertical tab, form feed,
/// carriage return and space; outside ASCII whatever the standard library
/// counts as white space.
pub open spec fn whitespace(c: char) -> bool {
    if ascii(c) {
        c == ' ' || ('\t' <= c <= '\r')
    } else {
        unicode_whitespace(c)
    }
}

/// A character that may continue an identifier: in ASCII a letter, a digit
/// or `_`; outside ASCII whatever the standard library counts as
/// alphanumeric.
pub open spec fn identifier_part(c: char) -> bool {
    if ascii(c) {
        identifier_start(c) || digit(c)
    } else {
        unicode_alphanumeric(c)
    }
}

/// The number of bytes that `c` takes in UTF-8.
pub open spec fn utf8_width(c: char) -> nat {
    if (c as u32) < 0x80 {
        1
    } else if (c as u32) < 0x800 {
        2
    } else if (c as u32) < 0x1_0000 {
        3
    } else {
        4
    }
}

/// Calls `char::is_whitespace`. The contract only names the answer: it
/// claims that the answer depends on nothing but the character.
#[verifier::external_body]
fn std_is_whitespace(c: char) -> (b: bool)
    ensures
        b == unicode_whitespace(c),
{
    c.is_whitespace()
}

/// Calls `char::is_alphanumeric`. The contract only names the answer: it
/// claims that the answer depends on nothing but the character.
#[verifier::external_body]
fn std_is_alphanumeric(c: char) -> (b: bool)
    ensures
        b == unicode_alphanumeric(c),
{
    c.is_alphanumeric()
}

/// Whether `c` lies in the ASCII range.
pub fn is_ascii(c: char) -> (b: bool)
    ensures
        b == ascii(c),
{
    c <= '\x7f'
}

/// Whether `c` is a decimal digit.
pub fn is_digit(c: char) -> (b: bool)
    ensures
        b == digit(c),
{
    '0' <= c && c <= '9'
}

/// Whether `c` may start an identifier.
pub fn is_identifier_start(c: char) -> (b: bool)
    ensures
        b == identifier_start(c),
{
    ('a' <= c && c <= 'z') || ('A' <= c && c <= 'Z') || c == '_'
}

/// Whether `c` is white space. In ASCII this is decided here; outside
/// ASCII the standard library is asked.
pub fn is_whitespace(c: char) -> (b: bool)
    ensures
        b == whitespace(c),
{
    if is_ascii(c) {
        c == ' ' || ('\t' <= c && c <= '\r')
    } else {
        std_is_whitespace(c)
    }
}

/// Whether `c` may continue an identifier. In ASCII this is decided here;
/// outside ASCII the standard library is asked.
pub fn is_identifier_part(c: char) -> (b: bool)
    ensures
        b == identifier_part(c),
{
    if is_ascii(c) {
        is_identifier_start(c) || is_digit(c)
    } else {
        std_is_alphanumeric(c)
    }
}

/// The number of bytes that `c` takes in UTF-8.
pub fn width(c: char) -> (w: usize)
    ensures
        w == utf8_width(c),
        1 <= w <= 4,
{
    if c <= '\u{7f}' {
        1
    } else if c <= '\u{7ff}' {
        2
    } else if c <= '\u{ffff}' {
        3
    } else {
        4
    }
}

} // verus!
