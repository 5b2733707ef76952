//! Escape sequences of string literals, templates and identifiers.

use vstd::prelude::*;
use crate::chars::{char_from_u32, line_break, scalar};
use crate::digits::{digit_at, lemma_run_end, run_end, run_value};
use crate::error::{LexError, SyntaxError};
use crate::input::{char_at, fail, Input, Scan};

verus! {

/// How many of the characters from `i` on are hexadecimal digits, counting
/// no further than `limit`.
pub open spec fn hex_count(s: Seq<char>, i: int, limit: nat) -> nat
    decreases limit,
{
    if limit == 0 {
        0
    } else if digit_at(s, i, 16) is Some {
        1 + hex_count(s, i + 1, (limit - 1) as nat)
    } else {
        0
    }
}

/// An escape of exactly `count` hexadecimal digits that begin at `i`: the
/// character with that code. `lo` is the byte offset of the backslash.
pub open spec fn hex_char(s: Seq<char>, lo: usize, i: int, count: nat) -> Scan<char> {
    let n = hex_count(s, i, count);
    if n < count {
        fail(s, SyntaxError::ExpectedHexChars { count: count as u8 }, lo, i + n)
    } else {
        let v = run_value(s, i, i + count, 16);
        match scalar(v) {
            Some(c) => Scan::Done { value: c, end: i + count },
            None => fail(s, SyntaxError::NonUtf8Char { val: v as u32 }, lo, i + count),
        }
    }
}

/// The digits of a braced escape, which begin at `i`: the character with
/// that code point. There must be a digit, and the number must be a scalar
/// value.
pub open spec fn code_point(s: Seq<char>, lo: usize, i: int) -> Scan<char> {
    let j = run_end(s, i, 16);
    let c = if j > i {
        scalar(run_value(s, i, j, 16))
    } else {
        None
    };
    match c {
        Some(c) => Scan::Done { value: c, end: j },
        None => fail(s, SyntaxError::InvalidCodePoint, lo, j),
    }
}

/// The escape whose `u` stands at `i`: `u` and four digits, or `u{`, digits
/// and `}`.
pub open spec fn unicode_escape(s: Seq<char>, lo: usize, i: int) -> Scan<char> {
    if char_at(s, i + 1) == Some('{') {
        match code_point(s, lo, i + 2) {
            Scan::Done { value, end } => if char_at(s, end) == Some('}') {
                Scan::Done { value, end: end + 1 }
            } else {
                fail(s, SyntaxError::InvalidUnicodeEscape, lo, end)
            },
            Scan::Fail { error, end } => Scan::Fail { error, end },
        }
    } else {
        hex_char(s, lo, i + 1, 4)
    }
}

/// A scan of one character as a scan of what a literal gains from it.
pub open spec fn some_char(r: Scan<char>) -> Scan<Option<char>> {
    match r {
        Scan::Done { value, end } => Scan::Done { value: Some(value), end },
        Scan::Fail { error, end } => Scan::Fail { error, end },
    }
}

/// The octal escape whose first digit, of value `d0`, stands at `i`: up to
/// three digits, as long as the number stays below 256.
pub open spec fn octal_escape(s: Seq<char>, i: int, d0: nat) -> Scan<Option<char>> {
    match digit_at(s, i + 1, 8) {
        None => Scan::Done { value: Some(d0 as char), end: i + 1 },
        Some(d1) => {
            let v = d0 * 8 + d1;
            match digit_at(s, i + 2, 8) {
                Some(d2) if v * 8 + d2 <= 255 => Scan::Done {
                    value: Some((v * 8 + d2) as char),
                    end: i + 3,
                },
                _ => Scan::Done { value: Some(v as char), end: i + 2 },
            }
        },
    }
}

/// The escape sequence whose backslash stands at `i`: the character it
/// stands for, or nothing for a line continuation.
pub open spec fn escaped_char(s: Seq<char>, i: int, in_template: bool, strict: bool) -> Scan<
    Option<char>,
> {
    let lo = crate::input::offset(s, i) as usize;
    match char_at(s, i + 1) {
        None => fail(s, SyntaxError::InvalidStrEscape, lo, i + 1),
        Some(c) => {
            if c == 'n' {
                Scan::Done { value: Some('\n'), end: i + 2 }
            } else if c == 'r' {
                Scan::Done { value: Some('\r'), end: i + 2 }
            } else if c == 't' {
                Scan::Done { value: Some('\t'), end: i + 2 }
            } else if c == 'b' {
                Scan::Done { value: Some('\u{0008}'), end: i + 2 }
            } else if c == 'v' {
                Scan::Done { value: Some('\u{000b}'), end: i + 2 }
            } else if c == 'f' {
                Scan::Done { value: Some('\u{000c}'), end: i + 2 }
            } else if c == '\r' {
                if char_at(s, i + 2) == Some('\n') {
                    Scan::Done { value: None, end: i + 3 }
                } else {
                    Scan::Done { value: None, end: i + 2 }
                }
            } else if line_break(c) {
                Scan::Done { value: None, end: i + 2 }
            } else if c == 'x' {
                some_char(hex_char(s, lo, i + 2, 2))
            } else if c == 'u' {
                some_char(unicode_escape(s, lo, i + 1))
            } else if '0' <= c && c <= '7' {
                if c == '0' && digit_at(s, i + 2, 8) is None {
                    Scan::Done { value: Some('\u{0000}'), end: i + 2 }
                } else if in_template || strict {
                    fail(s, SyntaxError::LegacyOctal, lo, i + 2)
                } else {
                    octal_escape(s, i + 1, (c as nat - '0' as nat) as nat)
                }
            } else {
                Scan::Done { value: Some(c), end: i + 2 }
            }
        },
    }
}

/// An escape sequence ends behind its backslash, inside the source.
pub proof fn lemma_escaped_char_end(s: Seq<char>, i: int, in_template: bool, strict: bool)
    requires
        0 <= i < s.len(),
    ensures
        match escaped_char(s, i, in_template, strict) {
            Scan::Done { value, end } => i < end <= s.len(),
            Scan::Fail { error, end } => i < end <= s.len() && error.kind.is_lexical(),
        },
{
    if i + 3 <= s.len() {
        lemma_run_end(s, i + 3, 16);
    }
    lemma_hex_count(s, i + 2, 2);
    lemma_hex_count(s, i + 2, 4);
}

/// The digits that `hex_count` counts are inside the source.
pub proof fn lemma_hex_count(s: Seq<char>, i: int, limit: nat)
    requires
        0 <= i,
    ensures
        hex_count(s, i, limit) <= limit,
        i + hex_count(s, i, limit) <= s.len() || hex_count(s, i, limit) == 0,
    decreases limit,
{
    if limit > 0 && digit_at(s, i, 16) is Some {
        lemma_hex_count(s, i + 1, (limit - 1) as nat);
    }
}

proof fn lemma_run_value_bound(s: Seq<char>, i: int, j: int)
    requires
        i <= j,
    ensures
        j - i <= 4 ==> run_value(s, i, j, 16) < 0x10000,
        j - i <= 3 ==> run_value(s, i, j, 16) < 0x1000,
        j - i <= 2 ==> run_value(s, i, j, 16) < 0x100,
        j - i <= 1 ==> run_value(s, i, j, 16) < 0x10,
        j - i <= 0 ==> run_value(s, i, j, 16) == 0,
    decreases j - i,
{
    if i < j {
        lemma_run_value_bound(s, i, j - 1);
    }
}

proof fn lemma_hex_count_front(s: Seq<char>, i: int, n: nat, limit: nat)
    requires
        n < limit,
        hex_count(s, i, n) == n,
    ensures
        hex_count(s, i, limit) == n + hex_count(s, i + n, (limit - n) as nat),
        digit_at(s, i + n, 16) is Some ==> hex_count(s, i, (n + 1) as nat) == n + 1,
    decreases n,
{
    if n > 0 {
        assert(hex_count(s, i, n) == 1 + hex_count(s, i + 1, (n - 1) as nat));
        lemma_hex_count_front(s, i + 1, (n - 1) as nat, (limit - 1) as nat);
        assert(hex_count(s, i, (n + 1) as nat) == 1 + hex_count(s, i + 1, n));
    } else {
        assert(hex_count(s, i + 1, 0) == 0);
    }
}

impl Input {
    /// Reads exactly `count` hexadecimal digits as the code of a character.
    /// `lo` is the byte offset that an error starts at.
    pub fn read_hex_char(&mut self, lo: usize, count: u8) -> (r: Result<char, LexError>)
        requires
            count == 2 || count == 4,
        ensures
            final(self).lands(
                old(self).source(),
                r,
                hex_char(old(self).source(), lo, old(self).cursor(), count as nat),
            ),
    {
        let ghost s = self.source();
        let ghost i0 = self.cursor();
        let mut value: u32 = 0;
        let mut n: u8 = 0;
        let mut d = self.digit_here(16);
        while n < count && d.is_some()
            invariant
                count == 2 || count == 4,
                self.source() == s,
                n <= count,
                self.cursor() == i0 + n,
                0 <= i0,
                self.cursor() <= s.len(),
                hex_count(s, i0, n as nat) == n,
                value == run_value(s, i0, i0 + n, 16),
                match digit_at(s, self.cursor(), 16) {
                    Some(v) => d == Some(v as u8),
                    None => d is None,
                },
            decreases count - n,
        {
            proof {
                lemma_run_value_bound(s, i0, i0 + n);
                lemma_hex_count_front(s, i0, n as nat, count as nat);
            }
            value = value * 16 + d.unwrap() as u32;
            n = n + 1;
            self.bump();
            d = self.digit_here(16);
        }
        proof {
            if n < count {
                lemma_hex_count_front(s, i0, n as nat, count as nat);
            }
            lemma_run_value_bound(s, i0, i0 + n);
        }
        if n < count {
            return Err(self.error_from(lo, SyntaxError::ExpectedHexChars { count }));
        }
        match char_from_u32(value) {
            Some(c) => Ok(c),
            None => Err(self.error_from(lo, SyntaxError::NonUtf8Char { val: value })),
        }
    }

    /// Reads the digits of a braced escape as a code point.
    /// `lo` is the byte offset that an error starts at.
    pub fn read_code_point(&mut self, lo: usize) -> (r: Result<char, LexError>)
        ensures
            final(self).lands(
                old(self).source(),
                r,
                code_point(old(self).source(), lo, old(self).cursor()),
            ),
    {
        let ghost s = self.source();
        let ghost i0 = self.cursor();
        let mut value: u32 = 0;
        let mut any = false;
        let mut d = self.digit_here(16);
        while d.is_some()
            invariant
                self.source() == s,
                i0 <= self.cursor() <= s.len(),
                run_end(s, self.cursor(), 16) == run_end(s, i0, 16),
                any == (self.cursor() > i0),
                value <= 0x110000,
                run_value(s, i0, self.cursor(), 16) <= 0x10FFFF ==> value == run_value(
                    s,
                    i0,
                    self.cursor(),
                    16,
                ),
                run_value(s, i0, self.cursor(), 16) > 0x10FFFF ==> value == 0x110000,
                match digit_at(s, self.cursor(), 16) {
                    Some(v) => d == Some(v as u8),
                    None => d is None,
                },
            decreases s.len() - self.cursor(),
        {
            let next: u32 = value * 16 + d.unwrap() as u32;
            value = if next > 0x10FFFF {
                0x110000
            } else {
                next
            };
            any = true;
            self.bump();
            d = self.digit_here(16);
        }
        if any && value <= 0x10FFFF {
            match char_from_u32(value) {
                Some(c) => {
                    return Ok(c);
                },
                None => {},
            }
        }
        Err(self.error_from(lo, SyntaxError::InvalidCodePoint))
    }

    /// Reads the escape whose `u` is at the cursor.
    /// `lo` is the byte offset that an error starts at.
    pub fn read_unicode_escape(&mut self, lo: usize) -> (r: Result<char, LexError>)
        requires
            char_at(old(self).source(), old(self).cursor()) == Some('u'),
        ensures
            final(self).lands(
                old(self).source(),
                r,
                unicode_escape(old(self).source(), lo, old(self).cursor()),
            ),
    {
        self.bump();
        if self.eat('{') {
            let c = match self.read_code_point(lo) {
                Ok(c) => c,
                Err(e) => {
                    return Err(e);
                },
            };
            if !self.eat('}') {
                return Err(self.error_from(lo, SyntaxError::InvalidUnicodeEscape));
            }
            Ok(c)
        } else {
            self.read_hex_char(lo, 4)
        }
    }

    /// Reads the escape sequence whose backslash is at the cursor, and
    /// returns the character it stands for, or nothing for a line
    /// continuation.
    pub fn read_escaped_char(&mut self, in_template: bool, strict: bool) -> (r: Result<
        Option<char>,
        LexError,
    >)
        requires
            char_at(old(self).source(), old(self).cursor()) == Some('\\'),
        ensures
            final(self).lands(
                old(self).source(),
                r,
                escaped_char(old(self).source(), old(self).cursor(), in_template, strict),
            ),
    {
        let lo = self.cur_pos();
        self.bump();
        let c = match self.current() {
            Some(c) => c,
            None => {
                return Err(self.error_from(lo, SyntaxError::InvalidStrEscape));
            },
        };
        if c == 'n' {
            self.bump();
            Ok(Some('\n'))
        } else if c == 'r' {
            self.bump();
            Ok(Some('\r'))
        } else if c == 't' {
            self.bump();
            Ok(Some('\t'))
        } else if c == 'b' {
            self.bump();
            Ok(Some('\u{0008}'))
        } else if c == 'v' {
            self.bump();
            Ok(Some('\u{000b}'))
        } else if c == 'f' {
            self.bump();
            Ok(Some('\u{000c}'))
        } else if c == '\r' {
            self.bump();
            self.eat('\n');
            Ok(None)
        } else if c == '\n' || c == '\u{2028}' || c == '\u{2029}' {
            self.bump();
            Ok(None)
        } else if c == 'x' {
            self.bump();
            match self.read_hex_char(lo, 2) {
                Ok(c) => Ok(Some(c)),
                Err(e) => Err(e),
            }
        } else if c == 'u' {
            match self.read_unicode_escape(lo) {
                Ok(c) => Ok(Some(c)),
                Err(e) => Err(e),
            }
        } else if '0' <= c && c <= '7' {
            self.bump();
            let second = self.digit_here(8);
            if c == '0' && second.is_none() {
                return Ok(Some('\u{0000}'));
            }
            if in_template || strict {
                return Err(self.error_from(lo, SyntaxError::LegacyOctal));
            }
            let mut value: u8 = (c as u32 - '0' as u32) as u8;
            match second {
                None => {
                    return Ok(Some(value as char));
                },
                Some(d) => {
                    value = value * 8 + d;
                    self.bump();
                },
            }
            let third = self.digit_here(8);
            if third.is_some() && value <= 31 {
                value = value * 8 + third.unwrap();
                self.bump();
            }
            Ok(Some(value as char))
        } else {
            self.bump();
            Ok(Some(c))
        }
    }
}

} // verus!
