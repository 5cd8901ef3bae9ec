//! The character classes that the scanner tells apart.
use vstd::prelude::*;

verus! {

/// A decimal digit.
#[verifier::allow_in_spec]
pub fn is_digit(c: char) -> bool
    returns
        '0' <= c && c <= '9',
{
    '0' <= c && c <= '9'
}

/// A character that may start a word: an ASCII letter or `_`.
#[verifier::allow_in_spec]
pub fn is_word_start(c: char) -> bool
    returns
        ('a' <= c && c <= 'z') || ('A' <= c && c <= 'Z') || c == '_',
{
    ('a' <= c && c <= 'z') || ('A' <= c && c <= 'Z') || c == '_'
}

/// A character that may continue a word: an ASCII letter, a digit or `_`.
#[verifier::allow_in_spec]
pub fn is_word_part(c: char) -> bool
    returns
        is_word_start(c) || is_digit(c),
{
    is_word_start(c) || is_digit(c)
}

/// A white-space character: space, line feed, carriage return or tab.
#[verifier::allow_in_spec]
pub fn is_blank(c: char) -> bool
    returns
        c == ' ' || c == '\n' || c == '\r' || c == '\t',
{
    c == ' ' || c == '\n' || c == '\r' || c == '\t'
}

/// A character that ends a line comment: line feed or carriage return.
#[verifier::allow_in_spec]
pub fn is_line_break(c: char) -> bool
    returns
        c == '\n' || c == '\r',
{
    c == '\n' || c == '\r'
}

/// A character inside a line comment: anything but a line break.
#[verifier::allow_in_spec]
pub fn is_comment_part(c: char) -> bool
    returns
        !is_line_break(c),
{
    !is_line_break(c)
}

/// A character inside a quoted string: anything but the quote.
#[verifier::allow_in_spec]
pub fn is_string_part(c: char) -> bool
    returns
        c != '"',
{
    c != '"'
}

/// An exponent marker inside a numeric literal: `e` or `E`.
#[verifier::allow_in_spec]
pub fn is_exponent_mark(c: char) -> bool
    returns
        c == 'e' || c == 'E',
{
    c == 'e' || c == 'E'
}

/// A type tag after a numeric literal: `u`, `i` or `f`.
#[verifier::allow_in_spec]
pub fn is_type_tag(c: char) -> bool
    returns
        c == 'u' || c == 'i' || c == 'f',
{
    c == 'u' || c == 'i' || c == 'f'
}

} // verus!
