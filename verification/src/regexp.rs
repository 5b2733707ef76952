//! Regular expression literals.

use vstd::prelude::*;
use crate::chars::{is_line_break, line_break};
use crate::error::{LexError, SyntaxError};
use crate::ident::maybe_word;
use crate::input::{char_at, fail, offset, viewed, Input, Scan};
use crate::text::{push_char, string_of};
use crate::token::{Token, TokenView};

verus! {

/// Whether the body of a regular expression is inside a character class
/// behind the character `c`, which was met inside one or not (`in_class`),
/// behind a backslash or not (`escaped`).
pub open spec fn class_after(c: char, escaped: bool, in_class: bool) -> bool {
    if escaped {
        in_class
    } else if c == '[' {
        true
    } else if c == ']' {
        false
    } else {
        in_class
    }
}

/// The rest of the body of a regular expression from position `i` on, up to
/// the slash that ends it: the raw text. A slash ends the body unless it
/// stands behind a backslash or inside a character class. A line terminator
/// or the end of the input inside the body is an error.
pub open spec fn regex_body(
    s: Seq<char>,
    lo: usize,
    i: int,
    escaped: bool,
    in_class: bool,
    acc: Seq<char>,
) -> Scan<Seq<char>>
    decreases s.len() - i,
{
    match char_at(s, i) {
        None => fail(s, SyntaxError::UnterminatedRegxp, lo, i),
        Some(c) => {
            if line_break(c) {
                fail(s, SyntaxError::UnterminatedRegxp, lo, i)
            } else if !escaped && !in_class && c == '/' {
                Scan::Done { value: acc, end: i }
            } else {
                regex_body(
                    s,
                    lo,
                    i + 1,
                    !escaped && c == '\\',
                    class_after(c, escaped, in_class),
                    acc.push(c),
                )
            }
        },
    }
}

/// The flags of a regular expression, which begin at `i` if an identifier
/// begins there: the word at `i`.
pub open spec fn regex_flags(s: Seq<char>, i: int) -> Scan<Seq<char>> {
    match maybe_word(s, i) {
        Scan::Done { value: Some(w), end } => Scan::Done { value: w.text, end },
        Scan::Done { value: None, end } => Scan::Done { value: Seq::empty(), end },
        Scan::Fail { error, end } => Scan::Fail { error, end },
    }
}

/// The regular expression literal whose opening slash stands at `i`.
pub open spec fn regex(s: Seq<char>, i: int) -> Scan<TokenView> {
    match regex_body(s, offset(s, i) as usize, i + 1, false, false, Seq::empty()) {
        Scan::Fail { error, end } => Scan::Fail { error, end },
        Scan::Done { value: pattern, end } => match regex_flags(s, end + 1) {
            Scan::Fail { error, end } => Scan::Fail { error, end },
            Scan::Done { value: flags, end } => Scan::Done {
                value: TokenView::Regex { pattern, flags },
                end,
            },
        },
    }
}

/// The body of a regular expression ends inside the source, at a slash.
pub proof fn lemma_regex_body_end(
    s: Seq<char>,
    lo: usize,
    i: int,
    escaped: bool,
    in_class: bool,
    acc: Seq<char>,
)
    requires
        0 <= i,
    ensures
        match regex_body(s, lo, i, escaped, in_class, acc) {
            Scan::Done { value, end } => i <= end < s.len() && s[end] == '/',
            Scan::Fail { error, end } => i <= end && error.kind.is_lexical(),
        },
    decreases s.len() - i,
{
    match char_at(s, i) {
        None => {},
        Some(c) => {
            if !line_break(c) && !(!escaped && !in_class && c == '/') {
                lemma_regex_body_end(
                    s,
                    lo,
                    i + 1,
                    !escaped && c == '\\',
                    class_after(c, escaped, in_class),
                    acc.push(c),
                );
            }
        },
    }
}

/// The pattern of a regular expression is raw: the rest of a body from `i`
/// on adds to what was read before the very characters of the source up to
/// the slash that ends it.
pub proof fn lemma_regex_body_is_raw(
    s: Seq<char>,
    lo: usize,
    i: int,
    escaped: bool,
    in_class: bool,
    acc: Seq<char>,
)
    requires
        0 <= i,
    ensures
        match regex_body(s, lo, i, escaped, in_class, acc) {
            Scan::Done { value, end } => i <= end < s.len() && value == acc + s.subrange(i, end),
            Scan::Fail { error, end } => true,
        },
    decreases s.len() - i,
{
    match char_at(s, i) {
        None => {},
        Some(c) => {
            if line_break(c) {
            } else if !escaped && !in_class && c == '/' {
                assert(acc + s.subrange(i, i) =~= acc);
            } else {
                let next = regex_body(
                    s,
                    lo,
                    i + 1,
                    !escaped && c == '\\',
                    class_after(c, escaped, in_class),
                    acc.push(c),
                );
                lemma_regex_body_is_raw(
                    s,
                    lo,
                    i + 1,
                    !escaped && c == '\\',
                    class_after(c, escaped, in_class),
                    acc.push(c),
                );
                match next {
                    Scan::Done { value, end } => {
                        assert(acc.push(c) + s.subrange(i + 1, end) =~= acc + s.subrange(i, end));
                    },
                    Scan::Fail { error, end } => {},
                }
            }
        },
    }
}

/// Of every regular expression literal: its pattern, which is what
/// `regex_body` reads behind the opening slash at `i`, is the very
/// characters of the source between that slash and the slash that closes
/// the body.
pub proof fn lemma_regex_pattern_is_raw(s: Seq<char>, i: int)
    requires
        0 <= i,
    ensures
        match regex_body(s, offset(s, i) as usize, i + 1, false, false, Seq::empty()) {
            Scan::Done { value: pattern, end: close } => {
                &&& i < close < s.len()
                &&& s[close] == '/'
                &&& pattern == s.subrange(i + 1, close)
                &&& match regex(s, i) {
                    Scan::Done { value, end } => value is Regex && value->Regex_pattern
                        == pattern && close < end,
                    Scan::Fail { error, end } => true,
                }
            },
            Scan::Fail { error, end } => regex(s, i) is Fail,
        },
{
    let lo = offset(s, i) as usize;
    lemma_regex_body_is_raw(s, lo, i + 1, false, false, Seq::empty());
    lemma_regex_body_end(s, lo, i + 1, false, false, Seq::empty());
    match regex_body(s, lo, i + 1, false, false, Seq::empty()) {
        Scan::Done { value, end: close } => {
            assert(Seq::<char>::empty() + s.subrange(i + 1, close) =~= s.subrange(i + 1, close));
            if close + 1 < s.len() {
                crate::ident::lemma_word_scan_end(s, close + 1, true, Seq::empty(), false);
            }
        },
        Scan::Fail { error, end } => {},
    }
}

/// A regular expression literal ends behind its start, inside the source.
pub proof fn lemma_regex_end(s: Seq<char>, i: int)
    requires
        0 <= i,
    ensures
        match regex(s, i) {
            Scan::Done { value, end } => i + 1 < end <= s.len() && value is Regex,
            Scan::Fail { error, end } => i < end && error.kind.is_lexical(),
        },
{
    let lo = offset(s, i) as usize;
    lemma_regex_body_end(s, lo, i + 1, false, false, Seq::empty());
    match regex_body(s, lo, i + 1, false, false, Seq::empty()) {
        Scan::Done { value, end } => {
            if end + 1 < s.len() {
                crate::ident::lemma_word_scan_end(s, end + 1, true, Seq::empty(), false);
            }
        },
        Scan::Fail { error, end } => {},
    }
}

impl Input {
    /// Reads the regular expression literal whose opening slash is at the
    /// cursor.
    pub fn read_regexp(&mut self) -> (r: Result<Token, LexError>)
        requires
            char_at(old(self).source(), old(self).cursor()) == Some('/'),
        ensures
            final(self).lands(
                old(self).source(),
                viewed(r),
                regex(old(self).source(), old(self).cursor()),
            ),
    {
        let ghost s = self.source();
        let ghost i0 = self.cursor();
        let lo = self.cur_pos();
        self.bump();
        let mut escaped = false;
        let mut in_class = false;
        let mut pattern = String::new();
        loop
            invariant
                self.source() == s,
                s == old(self).source(),
                i0 == old(self).cursor(),
                0 <= self.cursor(),
                lo == offset(s, i0),
                regex_body(s, lo, self.cursor(), escaped, in_class, pattern@) == regex_body(
                    s,
                    lo,
                    i0 + 1,
                    false,
                    false,
                    Seq::empty(),
                ),
            ensures
                regex_body(s, lo, i0 + 1, false, false, Seq::empty()) == (Scan::Done {
                    value: pattern@,
                    end: self.cursor(),
                }),
                0 <= self.cursor() < s.len(),
            decreases s.len() - self.cursor(),
        {
            let c = match self.current() {
                Some(c) => c,
                None => {
                    return Err(self.error_from(lo, SyntaxError::UnterminatedRegxp));
                },
            };
            if is_line_break(c) {
                return Err(self.error_from(lo, SyntaxError::UnterminatedRegxp));
            }
            if !escaped && !in_class && c == '/' {
                break ;
            }
            if escaped {
                escaped = false;
            } else {
                if c == '[' {
                    in_class = true;
                } else if c == ']' {
                    in_class = false;
                }
                escaped = c == '\\';
            }
            self.bump();
            push_char(&mut pattern, c);
        }
        self.bump();
        let flags = match self.may_read_word_as_str() {
            Ok(Some(w)) => string_of(&w.0),
            Ok(None) => String::new(),
            Err(e) => {
                return Err(e);
            },
        };
        Ok(Token::Regex { pattern, flags })
    }
}

} // verus!
