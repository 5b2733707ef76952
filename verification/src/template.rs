//! The text of template literals.

use vstd::prelude::*;
use crate::chars::{is_line_break, line_break};
use crate::error::{LexError, SyntaxError};
use crate::escape::{escaped_char, lemma_escaped_char_end};
use crate::input::{char_at, has_backslash, offset, Input, Scan};
use crate::trivia::has_line_break;
use crate::text::{push_opt, with_opt};
use crate::token::{Punct, Span, Token, TokenView};

verus! {

/// A token read inside a template, and whether a line terminator was passed
/// on the way.
pub struct TplPiece {
    pub token: TokenView,
    pub had_line_break: bool,
}

/// What the next piece of the text of a template is.
pub enum TplStep {
    /// The text ends here, at a backtick or at `${`.
    Stop,
    /// A piece that adds `c` to the text, if it adds anything, with the
    /// position behind it; `line_break` tells whether it was a raw line
    /// terminator.
    Take { c: Option<char>, end: int, line_break: bool },
    Fail { error: LexError, end: int },
}

/// Whether a backtick or `${` stands at `i`.
pub open spec fn tpl_boundary(s: Seq<char>, i: int) -> bool {
    char_at(s, i) == Some('`') || (char_at(s, i) == Some('$') && char_at(s, i + 1) == Some('{'))
}

/// The piece at position `i` of the text of a template whose opening
/// backtick is at byte `tpl_lo`. Raw line terminators are kept, CR LF as one
/// LF; escape sequences are decoded, and an octal one is an error. The end
/// of the input inside the template is an error.
pub open spec fn tpl_step(s: Seq<char>, tpl_lo: usize, i: int) -> TplStep {
    match char_at(s, i) {
        None => TplStep::Fail {
            error: LexError {
                kind: SyntaxError::UnterminatedTpl,
                span: Span { lo: tpl_lo, hi: offset(s, i) as usize },
            },
            end: i,
        },
        Some(c) => {
            if tpl_boundary(s, i) {
                TplStep::Stop
            } else if c == '\\' {
                match escaped_char(s, i, true, false) {
                    Scan::Done { value, end } => TplStep::Take { c: value, end, line_break: false },
                    Scan::Fail { error, end } => TplStep::Fail { error, end },
                }
            } else if line_break(c) {
                if c == '\r' && char_at(s, i + 1) == Some('\n') {
                    TplStep::Take { c: Some('\n'), end: i + 2, line_break: true }
                } else {
                    TplStep::Take { c: Some(c), end: i + 1, line_break: true }
                }
            } else {
                TplStep::Take { c: Some(c), end: i + 1, line_break: false }
            }
        },
    }
}

/// The rest of the text of a template from position `i` on, where `acc` is
/// the text decoded so far and `lb` tells whether a raw line terminator was
/// met.
pub open spec fn tpl_scan(s: Seq<char>, tpl_lo: usize, i: int, acc: Seq<char>, lb: bool) -> Scan<
    TplPiece,
>
    decreases s.len() - i,
    via tpl_scan_decreases
{
    match tpl_step(s, tpl_lo, i) {
        TplStep::Stop => Scan::Done {
            value: TplPiece { token: TokenView::Template(acc), had_line_break: lb },
            end: i,
        },
        TplStep::Fail { error, end } => Scan::Fail { error, end },
        TplStep::Take { c, end, line_break } => tpl_scan(
            s,
            tpl_lo,
            end,
            with_opt(acc, c),
            lb || line_break,
        ),
    }
}

#[via_fn]
proof fn tpl_scan_decreases(s: Seq<char>, tpl_lo: usize, i: int, acc: Seq<char>, lb: bool) {
    lemma_tpl_step_end(s, tpl_lo, i);
}

/// A piece of the text of a template ends behind its start, inside the
/// source.
pub proof fn lemma_tpl_step_end(s: Seq<char>, tpl_lo: usize, i: int)
    ensures
        match tpl_step(s, tpl_lo, i) {
            TplStep::Stop => 0 <= i < s.len(),
            TplStep::Take { c, end, line_break } => 0 <= i < end <= s.len(),
            TplStep::Fail { error, end } => i <= end && error.kind.is_lexical(),
        },
{
    if 0 <= i < s.len() {
        lemma_escaped_char_end(s, i, true, false);
    }
}

/// The rest of the text of a template ends at or behind its start, inside
/// the source, and where it ends at its start it is what was there before.
pub proof fn lemma_tpl_scan_end(s: Seq<char>, tpl_lo: usize, i: int, acc: Seq<char>, lb: bool)
    ensures
        match tpl_scan(s, tpl_lo, i, acc, lb) {
            Scan::Done { value, end } => 0 <= i <= end < s.len() && tpl_boundary(s, end)
                && value.token is Template && (end == i ==> value.token == TokenView::Template(acc)
                && value.had_line_break == lb),
            Scan::Fail { error, end } => i <= end && error.kind.is_lexical(),
        },
    decreases s.len() - i,
{
    lemma_tpl_step_end(s, tpl_lo, i);
    match tpl_step(s, tpl_lo, i) {
        TplStep::Take { c, end, line_break } => {
            lemma_tpl_scan_end(s, tpl_lo, end, with_opt(acc, c), lb || line_break);
        },
        _ => {},
    }
}

/// Of the text of a template that the source spells without a backslash:
/// its flag tells whether a line terminator stands in it, and where none
/// does the text is the very characters of the source. From `i` on, `acc`
/// is what was read before and `lb` tells whether a line terminator was met
/// there.
pub proof fn lemma_tpl_scan_text(s: Seq<char>, tpl_lo: usize, i: int, acc: Seq<char>, lb: bool)
    ensures
        match tpl_scan(s, tpl_lo, i, acc, lb) {
            Scan::Done { value, end } => 0 <= i <= end < s.len() && (!has_backslash(s, i, end) ==> {
                &&& value.had_line_break == (lb || has_line_break(s, i, end))
                &&& !has_line_break(s, i, end) ==> value.token == TokenView::Template(
                    acc + s.subrange(i, end),
                )
            }),
            Scan::Fail { error, end } => true,
        },
    decreases s.len() - i,
{
    lemma_tpl_step_end(s, tpl_lo, i);
    match tpl_step(s, tpl_lo, i) {
        TplStep::Stop => {
            assert(acc + s.subrange(i, i) =~= acc);
            assert(!has_line_break(s, i, i));
        },
        TplStep::Fail { error, end } => {},
        TplStep::Take { c, end, line_break: newline } => {
            lemma_tpl_scan_text(s, tpl_lo, end, with_opt(acc, c), lb || newline);
            match tpl_scan(s, tpl_lo, end, with_opt(acc, c), lb || newline) {
                Scan::Done { value, end: stop } => {
                    if !has_backslash(s, i, stop) {
                        assert(s[i] != '\\');
                        assert(!has_backslash(s, end, stop)) by {
                            if has_backslash(s, end, stop) {
                                let k = choose|k: int|
                                    end <= k < stop && 0 <= k < s.len() && #[trigger] s[k] == '\\';
                                assert(s[k] == '\\');
                                assert(has_backslash(s, i, stop));
                            }
                        }
                        assert(newline == line_break(s[i]));
                        if newline {
                            assert(line_break(s[i]));
                            assert(has_line_break(s, i, stop));
                        }
                        if has_line_break(s, end, stop) {
                            let k = choose|k: int|
                                end <= k < stop && 0 <= k < s.len() && line_break(#[trigger] s[k]);
                            assert(line_break(s[k]));
                            assert(has_line_break(s, i, stop));
                        }
                        if has_line_break(s, i, stop) && !newline {
                            let k = choose|k: int|
                                i <= k < stop && 0 <= k < s.len() && line_break(#[trigger] s[k]);
                            assert(end == i + 1);
                            assert(k != i);
                            assert(has_line_break(s, end, stop));
                        }
                        if !has_line_break(s, i, stop) {
                            assert(end == i + 1 && c == Some(s[i]));
                            assert(acc.push(s[i]) + s.subrange(i + 1, stop) =~= acc + s.subrange(
                                i,
                                stop,
                            ));
                        }
                    }
                },
                Scan::Fail { error, end } => {},
            }
        },
    }
}

/// The token at position `i` inside a template whose opening backtick is at
/// byte `tpl_lo`. Right behind a piece of text, the backtick that closes the
/// template or the `${` that opens an interpolation is the token; anywhere
/// else, the text up to the next of these is, even where it is empty.
pub open spec fn tpl_token(s: Seq<char>, tpl_lo: usize, i: int, after_text: bool) -> Scan<
    TplPiece,
> {
    if after_text && char_at(s, i) == Some('`') {
        Scan::Done {
            value: TplPiece { token: TokenView::Punct(Punct::Backtick), had_line_break: false },
            end: i + 1,
        }
    } else if after_text && tpl_boundary(s, i) {
        Scan::Done {
            value: TplPiece {
                token: TokenView::Punct(Punct::DollarBrace),
                had_line_break: false,
            },
            end: i + 2,
        }
    } else {
        tpl_scan(s, tpl_lo, i, Seq::empty(), false)
    }
}

/// The view of what `read_tmpl_token` returns.
pub open spec fn piece_result(r: Result<(Token, bool), LexError>) -> Result<TplPiece, LexError> {
    match r {
        Ok(p) => Ok(TplPiece { token: p.0@, had_line_break: p.1 }),
        Err(e) => Err(e),
    }
}

/// What `read_tmpl_step` returns for a step.
pub open spec fn tpl_step_result(step: TplStep) -> Result<Option<(Option<char>, bool)>, LexError> {
    match step {
        TplStep::Stop => Ok(None),
        TplStep::Take { c, end, line_break } => Ok(Some((c, line_break))),
        TplStep::Fail { error, end } => Err(error),
    }
}

impl Input {
    /// Reads the next piece of the text of a template at the cursor: `None`
    /// where the text ends, else what the piece adds to the text and whether
    /// it was a raw line terminator.
    pub fn read_tmpl_step(&mut self, tpl_lo: usize) -> (r: Result<
        Option<(Option<char>, bool)>,
        LexError,
    >)
        ensures
            final(self).source() == old(self).source(),
            r == tpl_step_result(tpl_step(old(self).source(), tpl_lo, old(self).cursor())),
            final(self).cursor() == match tpl_step(old(self).source(), tpl_lo, old(self).cursor()) {
                TplStep::Stop => old(self).cursor(),
                TplStep::Take { c, end, line_break } => end,
                TplStep::Fail { error, end } => end,
            },
    {
        let c = match self.current() {
            Some(c) => c,
            None => {
                return Err(self.error_from(tpl_lo, SyntaxError::UnterminatedTpl));
            },
        };
        if c == '`' || (c == '$' && self.peek() == Some('{')) {
            Ok(None)
        } else if c == '\\' {
            match self.read_escaped_char(true, false) {
                Ok(c) => Ok(Some((c, false))),
                Err(e) => Err(e),
            }
        } else if is_line_break(c) {
            if c == '\r' && self.peek() == Some('\n') {
                self.bump();
                self.bump();
                Ok(Some((Some('\n'), true)))
            } else {
                self.bump();
                Ok(Some((Some(c), true)))
            }
        } else {
            self.bump();
            Ok(Some((Some(c), false)))
        }
    }

    /// Reads the token at the cursor inside a template whose opening
    /// backtick is at byte `tpl_lo`, and tells whether a line terminator was
    /// passed. `after_text` tells whether the token before was a piece of
    /// text of this template.
    pub fn read_tmpl_token(&mut self, tpl_lo: usize, after_text: bool) -> (r: Result<
        (Token, bool),
        LexError,
    >)
        ensures
            final(self).lands(
                old(self).source(),
                piece_result(r),
                tpl_token(old(self).source(), tpl_lo, old(self).cursor(), after_text),
            ),
    {
        let ghost s = self.source();
        let ghost i0 = self.cursor();
        if after_text {
            match self.current() {
                Some(c) => {
                    if c == '`' {
                        self.bump();
                        return Ok((Token::Punct(Punct::Backtick), false));
                    } else if c == '$' && self.peek() == Some('{') {
                        self.bump();
                        self.bump();
                        return Ok((Token::Punct(Punct::DollarBrace), false));
                    }
                },
                None => {},
            }
        }
        let mut out = String::new();
        let mut had_line_break = false;
        loop
            invariant
                self.source() == s,
                s == old(self).source(),
                i0 == old(self).cursor(),
                tpl_scan(s, tpl_lo, self.cursor(), out@, had_line_break) == tpl_token(
                    s,
                    tpl_lo,
                    i0,
                    after_text,
                ),
            decreases s.len() - self.cursor(),
        {
            proof {
                lemma_tpl_step_end(s, tpl_lo, self.cursor());
            }
            let step = self.read_tmpl_step(tpl_lo);
            match step {
                Err(e) => {
                    return Err(e);
                },
                Ok(None) => {
                    return Ok((Token::Template(out), had_line_break));
                },
                Ok(Some((c, line_break))) => {
                    push_opt(&mut out, c);
                    had_line_break = had_line_break || line_break;
                },
            }
        }
    }
}

} // verus!
