//! Character classes of ECMAScript source text.

use vstd::prelude::*;

verus! {

/// Whether `c` has the Unicode property `XID_Start`, as the tables of the
/// `unicode-xid` crate give it.
pub uninterp spec fn xid_start(c: char) -> bool;

/// Whether `c` has the Unicode property `XID_Continue`, as the tables of the
/// `unicode-xid` crate give it.
pub uninterp spec fn xid_continue(c: char) -> bool;

/// Calls `unicode_xid::UnicodeXID::is_xid_start`. The result is a lookup of
/// `c` in a constant table, so it is a function of `c` alone; nothing more
/// is claimed of it here.
#[verifier::external_body]
fn lookup_xid_start(c: char) -> (r: bool)
    ensures
        r == xid_start(c),
{
    unicode_xid::UnicodeXID::is_xid_start(c)
}

/// Calls `unicode_xid::UnicodeXID::is_xid_continue`. The result is a lookup
/// of `c` in a constant table, so it is a function of `c` alone; nothing
/// more is claimed of it here.
#[verifier::external_body]
fn lookup_xid_continue(c: char) -> (r: bool)
    ensures
        r == xid_continue(c),
{
    unicode_xid::UnicodeXID::is_xid_continue(c)
}

/// Calls `char::from_u32`, which gives the scalar value with that number,
/// and nothing for a surrogate or a number above `0x10FFFF`.
#[verifier::external_body]
pub(crate) fn char_from_u32(v: u32) -> (r: Option<char>)
    ensures
        r == scalar(v as nat),
{
    char::from_u32(v)
}

/// The character with code point `v`, if `v` is a Unicode scalar value.
pub open spec fn scalar(v: nat) -> Option<char> {
    if v <= 0xD7FF || (0xE000 <= v && v <= 0x10FFFF) {
        Some(v as char)
    } else {
        None
    }
}

/// LF, CR, LS and PS: the line terminators.
pub open spec fn line_break(c: char) -> bool {
    c == '\n' || c == '\r' || c == '\u{2028}' || c == '\u{2029}'
}

/// The characters of Unicode's category Zs (space separators).
pub open spec fn space_separator(c: char) -> bool {
    c == '\u{0020}' || c == '\u{00a0}' || c == '\u{1680}' || ('\u{2000}' <= c && c <= '\u{200a}')
        || c == '\u{202f}' || c == '\u{205f}' || c == '\u{3000}'
}

/// White space that separates tokens without ending a line: tab, vertical
/// tab, form feed, the byte order mark, and the space separators.
pub open spec fn whitespace(c: char) -> bool {
    c == '\u{0009}' || c == '\u{000b}' || c == '\u{000c}' || c == '\u{feff}' || space_separator(c)
}

/// The characters up to U+007F.
pub open spec fn ascii(c: char) -> bool {
    c <= '\u{7f}'
}

/// The letters `a` to `z` and `A` to `Z`.
pub open spec fn ascii_letter(c: char) -> bool {
    ('a' <= c && c <= 'z') || ('A' <= c && c <= 'Z')
}

/// The digits `0` to `9`.
pub open spec fn decimal_digit(c: char) -> bool {
    '0' <= c && c <= '9'
}

/// A character that may begin an identifier: `$`, `_`, an ASCII letter, or a
/// character outside ASCII with the property `XID_Start`.
pub open spec fn ident_start(c: char) -> bool {
    c == '$' || c == '_' || ascii_letter(c) || (!ascii(c) && xid_start(c))
}

/// A character that may continue an identifier: `$`, `_`, an ASCII letter or
/// digit, the zero width joiner and non-joiner, or a character outside ASCII
/// with the property `XID_Continue`.
pub open spec fn ident_part(c: char) -> bool {
    c == '$' || c == '_' || ascii_letter(c) || decimal_digit(c) || c == '\u{200c}' || c
        == '\u{200d}' || (!ascii(c) && xid_continue(c))
}

/// The value of `c` as a digit of the given radix, if it is one. Letters
/// count in either case.
pub open spec fn digit_value(c: char, radix: nat) -> Option<nat> {
    let v: nat = if decimal_digit(c) {
        (c as nat - '0' as nat) as nat
    } else if 'a' <= c && c <= 'z' {
        (c as nat - 'a' as nat + 10) as nat
    } else if 'A' <= c && c <= 'Z' {
        (c as nat - 'A' as nat + 10) as nat
    } else {
        36
    };
    if v < radix {
        Some(v)
    } else {
        None
    }
}

/// The number of bytes that `c` takes in UTF-8.
pub open spec fn utf8_width(c: char) -> nat {
    if c as u32 <= 0x7f {
        1
    } else if c as u32 <= 0x7ff {
        2
    } else if c as u32 <= 0xffff {
        3
    } else {
        4
    }
}

/// Whether `c` is a line terminator.
pub fn is_line_break(c: char) -> (r: bool)
    ensures
        r == line_break(c),
{
    c == '\n' || c == '\r' || c == '\u{2028}' || c == '\u{2029}'
}

/// Whether `c` is white space that does not end a line.
pub fn is_whitespace(c: char) -> (r: bool)
    ensures
        r == whitespace(c),
{
    c == '\u{0009}' || c == '\u{000b}' || c == '\u{000c}' || c == '\u{feff}' || c == '\u{0020}'
        || c == '\u{00a0}' || c == '\u{1680}' || ('\u{2000}' <= c && c <= '\u{200a}') || c
        == '\u{202f}' || c == '\u{205f}' || c == '\u{3000}'
}

/// Whether `c` is one of the letters `a` to `z` and `A` to `Z`.
pub fn is_ascii_letter(c: char) -> (r: bool)
    ensures
        r == ascii_letter(c),
{
    ('a' <= c && c <= 'z') || ('A' <= c && c <= 'Z')
}

/// Whether `c` is one of the digits `0` to `9`.
pub fn is_decimal_digit(c: char) -> (r: bool)
    ensures
        r == decimal_digit(c),
{
    '0' <= c && c <= '9'
}

/// Whether `c` may begin an identifier, where `has_xid_start` tells whether
/// it has the property `XID_Start`.
pub fn begins_identifier(c: char, has_xid_start: bool) -> (r: bool)
    ensures
        r == (c == '$' || c == '_' || ascii_letter(c) || (!ascii(c) && has_xid_start)),
{
    if c <= '\u{7f}' {
        c == '$' || c == '_' || is_ascii_letter(c)
    } else {
        has_xid_start
    }
}

/// Whether `c` may continue an identifier, where `has_xid_continue` tells
/// whether it has the property `XID_Continue`.
pub fn continues_identifier(c: char, has_xid_continue: bool) -> (r: bool)
    ensures
        r == (c == '$' || c == '_' || ascii_letter(c) || decimal_digit(c) || c == '\u{200c}' || c
            == '\u{200d}' || (!ascii(c) && has_xid_continue)),
{
    if c <= '\u{7f}' {
        c == '$' || c == '_' || is_ascii_letter(c) || is_decimal_digit(c)
    } else {
        c == '\u{200c}' || c == '\u{200d}' || has_xid_continue
    }
}

/// Whether `c` may begin an identifier.
pub fn is_ident_start(c: char) -> (r: bool)
    ensures
        r == ident_start(c),
{
    begins_identifier(c, lookup_xid_start(c))
}

/// Whether `c` may continue an identifier.
pub fn is_ident_part(c: char) -> (r: bool)
    ensures
        r == ident_part(c),
{
    continues_identifier(c, lookup_xid_continue(c))
}

/// Reads `c` as a digit of the given radix.
pub fn to_digit(c: char, radix: u8) -> (r: Option<u8>)
    requires
        radix <= 36,
    ensures
        match digit_value(c, radix as nat) {
            Some(v) => r == Some(v as u8),
            None => r is None,
        },
{
    let v: u32 = if '0' <= c && c <= '9' {
        c as u32 - '0' as u32
    } else if 'a' <= c && c <= 'z' {
        c as u32 - 'a' as u32 + 10
    } else if 'A' <= c && c <= 'Z' {
        c as u32 - 'A' as u32 + 10
    } else {
        36
    };
    if v < radix as u32 {
        Some(v as u8)
    } else {
        None
    }
}

/// The number of bytes that `c` takes in UTF-8.
pub fn width_of(c: char) -> (r: usize)
    ensures
        r == utf8_width(c),
        1 <= r <= 4,
{
    let v: u32 = c as u32;
    if v <= 0x7f {
        1
    } else if v <= 0x7ff {
        2
    } else if v <= 0xffff {
        3
    } else {
        4
    }
}

} // verus!
