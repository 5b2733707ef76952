//! String literals.

use vstd::prelude::*;
use crate::chars::{is_line_break, line_break};
use crate::error::{LexError, SyntaxError};
use crate::escape::{escaped_char, lemma_escaped_char_end};
use crate::input::{char_at, fail, has_backslash, offset, viewed, Input, Scan};
use crate::text::{push_opt, with_opt};
use crate::token::{Token, TokenView};

verus! {

/// What the next piece of a string literal is.
pub enum StrStep {
    /// The closing quote, with the position behind it.
    Close { end: int },
    /// A piece that adds `c` to the value, if it adds anything, with the
    /// position behind it; `escaped` tells whether it was an escape sequence.
    Take { c: Option<char>, end: int, escaped: bool },
    Fail { error: LexError, end: int },
}

/// The piece at position `i` of a string literal in quotes `quote` whose
/// opening quote is at byte `lo`. A line terminator or the end of the input
/// inside the literal is an error.
pub open spec fn str_step(s: Seq<char>, lo: usize, i: int, quote: char, strict: bool) -> StrStep {
    match char_at(s, i) {
        None => StrStep::Fail {
            error: LexError {
                kind: SyntaxError::UnterminatedStrLit,
                span: crate::token::Span { lo, hi: offset(s, i) as usize },
            },
            end: i,
        },
        Some(c) => {
            if c == quote {
                StrStep::Close { end: i + 1 }
            } else if c == '\\' {
                match escaped_char(s, i, false, strict) {
                    Scan::Done { value, end } => StrStep::Take { c: value, end, escaped: true },
                    Scan::Fail { error, end } => StrStep::Fail { error, end },
                }
            } else if line_break(c) {
                StrStep::Fail {
                    error: LexError {
                        kind: SyntaxError::UnterminatedStrLit,
                        span: crate::token::Span { lo, hi: offset(s, i) as usize },
                    },
                    end: i,
                }
            } else {
                StrStep::Take { c: Some(c), end: i + 1, escaped: false }
            }
        },
    }
}

/// The rest of a string literal from position `i` on, where `acc` is the
/// value decoded so far and `esc` tells whether an escape sequence was met.
pub open spec fn str_scan(
    s: Seq<char>,
    lo: usize,
    i: int,
    quote: char,
    strict: bool,
    acc: Seq<char>,
    esc: bool,
) -> Scan<TokenView>
    decreases s.len() - i,
    via str_scan_decreases
{
    match str_step(s, lo, i, quote, strict) {
        StrStep::Close { end } => Scan::Done {
            value: TokenView::Str { value: acc, has_escape: esc },
            end,
        },
        StrStep::Fail { error, end } => Scan::Fail { error, end },
        StrStep::Take { c, end, escaped } => str_scan(
            s,
            lo,
            end,
            quote,
            strict,
            with_opt(acc, c),
            esc || escaped,
        ),
    }
}

#[via_fn]
proof fn str_scan_decreases(
    s: Seq<char>,
    lo: usize,
    i: int,
    quote: char,
    strict: bool,
    acc: Seq<char>,
    esc: bool,
) {
    lemma_str_step_end(s, lo, i, quote, strict);
}

/// A piece of a string literal ends behind its start, inside the source.
pub proof fn lemma_str_step_end(s: Seq<char>, lo: usize, i: int, quote: char, strict: bool)
    ensures
        match str_step(s, lo, i, quote, strict) {
            StrStep::Close { end } => 0 <= i < end <= s.len(),
            StrStep::Take { c, end, escaped } => 0 <= i < end <= s.len(),
            StrStep::Fail { error, end } => i <= end && error.kind.is_lexical(),
        },
{
    if 0 <= i < s.len() {
        lemma_escaped_char_end(s, i, false, strict);
    }
}

/// The rest of a string literal ends behind its start, inside the source.
pub proof fn lemma_str_scan_end(
    s: Seq<char>,
    lo: usize,
    i: int,
    quote: char,
    strict: bool,
    acc: Seq<char>,
    esc: bool,
)
    ensures
        match str_scan(s, lo, i, quote, strict, acc, esc) {
            Scan::Done { value, end } => 0 <= i < end <= s.len() && value is Str,
            Scan::Fail { error, end } => i <= end && error.kind.is_lexical(),
        },
    decreases s.len() - i,
{
    lemma_str_step_end(s, lo, i, quote, strict);
    match str_step(s, lo, i, quote, strict) {
        StrStep::Take { c, end, escaped } => {
            lemma_str_scan_end(s, lo, end, quote, strict, with_opt(acc, c), esc || escaped);
        },
        _ => {},
    }
}

/// The flag of a string literal tells whether the source holds a backslash
/// in it, and a literal without one is spelled as it reads: from `i` on,
/// where `acc` was read before and `esc` tells whether a backslash was met
/// there, the flag is set just when it was set before or a backslash stands
/// in the rest of the literal, and where it is not set the value is `acc`
/// and then the very characters of the source up to the closing quote.
pub proof fn lemma_str_scan_text(
    s: Seq<char>,
    lo: usize,
    i: int,
    quote: char,
    strict: bool,
    acc: Seq<char>,
    esc: bool,
)
    requires
        quote != '\\',
    ensures
        match str_scan(s, lo, i, quote, strict, acc, esc) {
            Scan::Done { value: TokenView::Str { value, has_escape }, end } => {
                &&& 0 <= i < end <= s.len()
                &&& s[end - 1] == quote
                &&& has_escape == (esc || has_backslash(s, i, end - 1))
                &&& !has_escape ==> value == acc + s.subrange(i, end - 1)
            },
            Scan::Done { value, end } => false,
            Scan::Fail { error, end } => true,
        },
    decreases s.len() - i,
{
    lemma_str_step_end(s, lo, i, quote, strict);
    match str_step(s, lo, i, quote, strict) {
        StrStep::Close { end } => {
            assert(acc + s.subrange(i, i) =~= acc);
            assert(!has_backslash(s, i, i));
        },
        StrStep::Fail { error, end } => {},
        StrStep::Take { c, end, escaped } => {
            lemma_str_scan_text(s, lo, end, quote, strict, with_opt(acc, c), esc || escaped);
            match str_scan(s, lo, end, quote, strict, with_opt(acc, c), esc || escaped) {
                Scan::Done { value: TokenView::Str { value, has_escape }, end: stop } => {
                    assert(escaped == (s[i] == '\\'));
                    if has_backslash(s, i, stop - 1) {
                        let k = choose|k: int|
                            i <= k < stop - 1 && 0 <= k < s.len() && #[trigger] s[k] == '\\';
                        if !escaped {
                            assert(k >= end);
                            assert(has_backslash(s, end, stop - 1));
                        }
                    }
                    if has_backslash(s, end, stop - 1) {
                        let k = choose|k: int|
                            end <= k < stop - 1 && 0 <= k < s.len() && #[trigger] s[k] == '\\';
                        assert(s[k] == '\\');
                        assert(has_backslash(s, i, stop - 1));
                    }
                    if escaped {
                        assert(s[i] == '\\');
                        assert(i < stop - 1);
                        assert(has_backslash(s, i, stop - 1));
                    }
                    if !has_escape {
                        assert(end == i + 1 && c == Some(s[i]));
                        assert(acc.push(s[i]) + s.subrange(i + 1, stop - 1) =~= acc + s.subrange(
                            i,
                            stop - 1,
                        ));
                    }
                },
                _ => {},
            }
        },
    }
}

/// Of every string literal: its flag tells whether the source holds a
/// backslash between its quotes, and without one its value is the very
/// characters of the source between its quotes.
pub proof fn lemma_str_lit_text(s: Seq<char>, i: int, strict: bool)
    requires
        0 <= i < s.len(),
        s[i] == '"' || s[i] == '\'',
    ensures
        match str_lit(s, i, strict) {
            Scan::Done { value: TokenView::Str { value, has_escape }, end } => {
                &&& i + 1 < end <= s.len()
                &&& s[end - 1] == s[i]
                &&& has_escape == has_backslash(s, i + 1, end - 1)
                &&& !has_escape ==> value == s.subrange(i + 1, end - 1)
            },
            Scan::Done { value, end } => false,
            Scan::Fail { error, end } => true,
        },
{
    lemma_str_scan_text(s, offset(s, i) as usize, i + 1, s[i], strict, Seq::empty(), false);
    match str_lit(s, i, strict) {
        Scan::Done { value, end } => {
            assert(Seq::<char>::empty() + s.subrange(i + 1, end - 1) =~= s.subrange(
                i + 1,
                end - 1,
            ));
        },
        Scan::Fail { error, end } => {},
    }
}

/// The string literal whose opening quote stands at `i`.
pub open spec fn str_lit(s: Seq<char>, i: int, strict: bool) -> Scan<TokenView> {
    match char_at(s, i) {
        Some(quote) => str_scan(
            s,
            offset(s, i) as usize,
            i + 1,
            quote,
            strict,
            Seq::empty(),
            false,
        ),
        None => fail(s, SyntaxError::UnterminatedStrLit, offset(s, i) as usize, i),
    }
}

impl Input {
    /// Reads the next piece of a string literal at the cursor: `None` for
    /// the closing quote, else what the piece adds to the value and whether
    /// it was an escape sequence.
    pub fn read_str_step(&mut self, lo: usize, quote: char, strict: bool) -> (r: Result<
        Option<(Option<char>, bool)>,
        LexError,
    >)
        ensures
            final(self).source() == old(self).source(),
            match str_step(old(self).source(), lo, old(self).cursor(), quote, strict) {
                StrStep::Close { end } => r == Ok::<Option<(Option<char>, bool)>, LexError>(None)
                    && final(self).cursor() == end,
                StrStep::Take { c, end, escaped } => r == Ok::<
                    Option<(Option<char>, bool)>,
                    LexError,
                >(Some((c, escaped))) && final(self).cursor() == end,
                StrStep::Fail { error, end } => r == Err::<Option<(Option<char>, bool)>, LexError>(
                    error,
                ) && final(self).cursor() == end,
            },
    {
        let c = match self.current() {
            Some(c) => c,
            None => {
                return Err(self.error_from(lo, SyntaxError::UnterminatedStrLit));
            },
        };
        if c == quote {
            self.bump();
            Ok(None)
        } else if c == '\\' {
            match self.read_escaped_char(false, strict) {
                Ok(c) => Ok(Some((c, true))),
                Err(e) => Err(e),
            }
        } else if is_line_break(c) {
            Err(self.error_from(lo, SyntaxError::UnterminatedStrLit))
        } else {
            self.bump();
            Ok(Some((Some(c), false)))
        }
    }

    /// Reads the string literal whose opening quote is at the cursor.
    pub fn read_str_lit(&mut self, strict: bool) -> (r: Result<Token, LexError>)
        requires
            char_at(old(self).source(), old(self).cursor()) == Some('"') || char_at(
                old(self).source(),
                old(self).cursor(),
            ) == Some('\''),
        ensures
            final(self).lands(
                old(self).source(),
                viewed(r),
                str_lit(old(self).source(), old(self).cursor(), strict),
            ),
    {
        let ghost s = self.source();
        let ghost i0 = self.cursor();
        let lo = self.cur_pos();
        let quote = match self.current() {
            Some(c) => c,
            None => {
                return Err(self.error_from(lo, SyntaxError::UnterminatedStrLit));
            },
        };
        self.bump();
        let mut out = String::new();
        let mut has_escape = false;
        loop
            invariant
                self.source() == s,
                s == old(self).source(),
                i0 == old(self).cursor(),
                str_scan(s, lo, self.cursor(), quote, strict, out@, has_escape) == str_lit(
                    s,
                    i0,
                    strict,
                ),
            decreases s.len() - self.cursor(),
        {
            proof {
                lemma_str_step_end(s, lo, self.cursor(), quote, strict);
            }
            let step = self.read_str_step(lo, quote, strict);
            match step {
                Err(e) => {
                    return Err(e);
                },
                Ok(None) => {
                    return Ok(Token::Str { value: out, has_escape });
                },
                Ok(Some((c, escaped))) => {
                    push_opt(&mut out, c);
                    has_escape = has_escape || escaped;
                },
            }
        }
    }
}

} // verus!
