//! The choice of a scanner by the character that a token begins with.

use vstd::prelude::*;
use crate::chars::{decimal_digit, ident_start, is_decimal_digit, is_ident_start};
use crate::context::Context;
use crate::digits::digit_at;
use crate::error::{LexError, SyntaxError};
use crate::ident::ident_or_keyword;
use crate::input::{char_at, fail, offset, Input, Scan};
use crate::number::{number, radix_number, radix_prefix};
use crate::punct::{lemma_mark_len, mark};
use crate::regexp::regex;
use crate::str_lit::str_lit;
use crate::token::{Token, TokenView};

verus! {

/// A scan of a token as a scan of what may be a token or the end of the
/// input.
pub open spec fn some_token(r: Scan<TokenView>) -> Scan<Option<TokenView>> {
    match r {
        Scan::Done { value, end } => Scan::Done { value: Some(value), end },
        Scan::Fail { error, end } => Scan::Fail { error, end },
    }
}

/// The token that begins with the slash at `i`: a regular expression where
/// an expression may begin, and a division operator elsewhere.
pub open spec fn slash(s: Seq<char>, i: int, expr_allowed: bool) -> Scan<Option<TokenView>> {
    if expr_allowed {
        some_token(regex(s, i))
    } else {
        match mark(s, i, false) {
            Some(m) => Scan::Done { value: Some(m.token), end: i + m.len },
            None => Scan::Done { value: None, end: i },
        }
    }
}

/// The token that begins at `i`, or nothing at the end of the input. The
/// first character chooses: a backslash or a character that begins an
/// identifier, a word; a digit, or a dot before a digit, a number; a quote,
/// a string; a slash, a regular expression where `expr_allowed`; anything
/// else, a punctuator or operator, or an error.
pub open spec fn token(s: Seq<char>, i: int, ctx: Context, expr_allowed: bool) -> Scan<
    Option<TokenView>,
> {
    match char_at(s, i) {
        None => Scan::Done { value: None, end: i },
        Some(c) => {
            if c == '\\' || ident_start(c) {
                some_token(ident_or_keyword(s, i, ctx))
            } else if c == '.' && digit_at(s, i + 1, 10) is Some {
                some_token(number(s, i, ctx.strict))
            } else if radix_prefix(s, i) is Some {
                some_token(radix_number(s, i, radix_prefix(s, i).unwrap()))
            } else if decimal_digit(c) {
                some_token(number(s, i, ctx.strict))
            } else if c == '"' || c == '\'' {
                some_token(str_lit(s, i, ctx.strict))
            } else if c == '/' {
                slash(s, i, expr_allowed)
            } else {
                match mark(s, i, ctx.fn_bind) {
                    Some(m) => Scan::Done { value: Some(m.token), end: i + m.len },
                    None => fail(
                        s,
                        SyntaxError::UnexpectedChar { c },
                        offset(s, i) as usize,
                        i,
                    ),
                }
            }
        },
    }
}

/// A token ends behind its start, inside the source, and nothing is a token
/// only at the end of the input. A number that comes back is well formed,
/// and a regular expression comes back only where an expression may begin.
pub proof fn lemma_token_end(s: Seq<char>, i: int, ctx: Context, expr_allowed: bool)
    requires
        0 <= i <= s.len(),
    ensures
        match token(s, i, ctx, expr_allowed) {
            Scan::Done { value: Some(t), end } => i < end <= s.len() && (t is Num
                ==> t->Num_0.wf()) && !(t is Template) && (t is Regex ==> expr_allowed && s[i]
                == '/'),
            Scan::Done { value: None, end } => i == s.len() && end == i,
            Scan::Fail { error, end } => i <= end && error.kind.is_lexical(),
        },
{
    if i < s.len() {
        let c = s[i];
        if c == '\\' || ident_start(c) {
            crate::ident::lemma_word_end(s, i);
            crate::ident::lemma_word_token_kind(crate::ident::word(s, i));
        } else if c == '.' && digit_at(s, i + 1, 10) is Some {
            crate::number::lemma_number(s, i, ctx.strict);
        } else if radix_prefix(s, i) is Some {
            crate::number::lemma_radix_number(s, i, radix_prefix(s, i).unwrap());
        } else if decimal_digit(c) {
            crate::number::lemma_number(s, i, ctx.strict);
        } else if c == '"' || c == '\'' {
            crate::str_lit::lemma_str_scan_end(
                s,
                offset(s, i) as usize,
                i + 1,
                c,
                ctx.strict,
                Seq::empty(),
                false,
            );
        } else if c == '/' {
            crate::regexp::lemma_regex_end(s, i);
            lemma_mark_len(s, i, false);
        } else {
            lemma_mark_len(s, i, ctx.fn_bind);
        }
    }
}

/// Of every identifier token: its flag tells whether the source spells any
/// of it as an escape, and without one its name is the very characters of
/// the source that the token takes. Keywords and the literal words are
/// flagged in the same way.
pub proof fn lemma_word_token_text(s: Seq<char>, i: int, ctx: Context, expr_allowed: bool)
    requires
        0 <= i <= s.len(),
    ensures
        match token(s, i, ctx, expr_allowed) {
            Scan::Done { value: Some(TokenView::Word { word, has_escape }), end } => {
                &&& i < end <= s.len()
                &&& has_escape == crate::input::has_backslash(s, i, end)
                &&& match word {
                    crate::token::WordView::Ident(name) => !has_escape ==> name == s.subrange(
                        i,
                        end,
                    ),
                    _ => true,
                }
            },
            _ => true,
        },
{
    lemma_token_end(s, i, ctx, expr_allowed);
    if i < s.len() {
        let c = s[i];
        if c == '\\' || ident_start(c) {
            crate::ident::lemma_word_text(s, i);
        } else if c == '.' && digit_at(s, i + 1, 10) is Some {
            crate::number::lemma_number(s, i, ctx.strict);
        } else if radix_prefix(s, i) is Some {
            crate::number::lemma_radix_number(s, i, radix_prefix(s, i).unwrap());
        } else if decimal_digit(c) {
            crate::number::lemma_number(s, i, ctx.strict);
        } else if c == '"' || c == '\'' {
            crate::str_lit::lemma_str_scan_end(
                s,
                offset(s, i) as usize,
                i + 1,
                c,
                ctx.strict,
                Seq::empty(),
                false,
            );
        } else if c == '/' {
            crate::regexp::lemma_regex_end(s, i);
            lemma_mark_len(s, i, false);
        } else {
            lemma_mark_len(s, i, ctx.fn_bind);
        }
    }
}

/// A result with the token in it, if there is one, replaced by its view.
pub open spec fn token_viewed(r: Result<Option<Token>, LexError>) -> Result<
    Option<TokenView>,
    LexError,
> {
    match r {
        Ok(Some(t)) => Ok(Some(t@)),
        Ok(None) => Ok(None),
        Err(e) => Err(e),
    }
}

impl Input {
    /// Reads the token that begins with the slash at the cursor.
    pub fn read_slash(&mut self, expr_allowed: bool) -> (r: Result<Option<Token>, LexError>)
        requires
            char_at(old(self).source(), old(self).cursor()) == Some('/'),
        ensures
            final(self).lands(
                old(self).source(),
                token_viewed(r),
                slash(old(self).source(), old(self).cursor(), expr_allowed),
            ),
    {
        if expr_allowed {
            match self.read_regexp() {
                Ok(t) => Ok(Some(t)),
                Err(e) => Err(e),
            }
        } else {
            Ok(self.read_mark(false))
        }
    }

    /// Reads the token at the cursor, or nothing at the end of the input.
    pub fn read_token(&mut self, ctx: Context, expr_allowed: bool) -> (r: Result<
        Option<Token>,
        LexError,
    >)
        ensures
            final(self).lands(
                old(self).source(),
                token_viewed(r),
                token(old(self).source(), old(self).cursor(), ctx, expr_allowed),
            ),
    {
        let c = match self.current() {
            Some(c) => c,
            None => {
                return Ok(None);
            },
        };
        let next = self.peek();
        let scanned = if c == '\\' || is_ident_start(c) {
            self.read_ident_or_keyword(ctx)
        } else if c == '.' && next.is_some() && is_decimal_digit(next.unwrap()) {
            self.read_number(ctx.strict)
        } else if c == '0' && (next == Some('x') || next == Some('X')) {
            self.read_radix_number(16)
        } else if c == '0' && (next == Some('o') || next == Some('O')) {
            self.read_radix_number(8)
        } else if c == '0' && (next == Some('b') || next == Some('B')) {
            self.read_radix_number(2)
        } else if is_decimal_digit(c) {
            self.read_number(ctx.strict)
        } else if c == '"' || c == '\'' {
            self.read_str_lit(ctx.strict)
        } else if c == '/' {
            return self.read_slash(expr_allowed);
        } else {
            let lo = self.cur_pos();
            return match self.read_mark(ctx.fn_bind) {
                Some(t) => Ok(Some(t)),
                None => Err(self.error_from(lo, SyntaxError::UnexpectedChar { c })),
            };
        };
        match scanned {
            Ok(t) => Ok(Some(t)),
            Err(e) => Err(e),
        }
    }
}

} // verus!
