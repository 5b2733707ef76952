//! The lexer: an input, the state between tokens, and the step from one
//! token to the next.

use vstd::prelude::*;
use crate::context::Context;
use crate::dispatch::{lemma_token_end, token};
use crate::error::LexError;
use crate::input::{byte_len, lemma_offset_monotonic, offset, span_of, Input, Scan};
use crate::state::{State, StateView};
use crate::template::{lemma_tpl_scan_end, tpl_token};
use crate::token::{Span, SpannedToken, TokenView};
use crate::trivia::{has_line_break, lemma_skip_trivia, skip_trivia};

verus! {

/// A token and where it was found, in positions of the source: the lexer
/// stood at `from`, the token begins at `start` and ends before `end`.
pub struct Lexeme {
    pub token: TokenView,
    pub had_line_break: bool,
    pub from: int,
    pub start: int,
    pub end: int,
}

/// What one request for a token comes to.
pub enum Step {
    /// A token, and the state behind it.
    Token { lexeme: Lexeme, state: StateView },
    /// The end of the input, reached at `end`.
    End { end: int },
    /// An error, with the position that the lexer stops at.
    Fail { error: LexError, end: int },
}

/// One request for a token from position `i` in state `st`. In the text of
/// a template the token begins right there. Anywhere else white space and
/// comments are passed first, and the start of the input counts as the
/// start of a line.
#[verifier::opaque]
pub open spec fn step(s: Seq<char>, i: int, st: StateView, ctx: Context) -> Step {
    match st.template_lo() {
        Some(tpl_lo) => match tpl_token(s, tpl_lo, i, st.after_text()) {
            Scan::Fail { error, end } => Step::Fail { error, end },
            Scan::Done { value, end } => Step::Token {
                lexeme: Lexeme {
                    token: value.token,
                    had_line_break: value.had_line_break,
                    from: i,
                    start: i,
                    end,
                },
                state: st.after(value.token.kind(), offset(s, i) as usize, value.had_line_break),
            },
        },
        None => match skip_trivia(s, i, ctx.module, st.is_first) {
            Scan::Fail { error, end } => Step::Fail { error, end },
            Scan::Done { value: had_line_break, end: start } => match token(
                s,
                start,
                ctx,
                st.is_expr_allowed,
            ) {
                Scan::Fail { error, end } => Step::Fail { error, end },
                Scan::Done { value: None, end } => Step::End { end: start },
                Scan::Done { value: Some(t), end } => Step::Token {
                    lexeme: Lexeme { token: t, had_line_break, from: i, start, end },
                    state: st.after(t.kind(), offset(s, start) as usize, had_line_break),
                },
            },
        },
    }
}

/// Whether the white space and comments that begin at `from` end at `to`,
/// where `lb` tells whether a line terminator was passed before `from`.
pub open spec fn space_between(s: Seq<char>, from: int, to: int, module: bool, lb: bool) -> bool {
    match skip_trivia(s, from, module, lb) {
        Scan::Done { value, end } => end == to,
        Scan::Fail { error, end } => false,
    }
}

/// What holds of every request for a token. The token lies inside the
/// source, at or behind the place the lexer stood at. Outside the text of a
/// template, all that lies between that place and the token is white space
/// and comments, the token is not empty, and the token's flag tells
/// whether a line terminator lies between, except that before the first
/// token it is set anyway. In the text of a template the token begins where
/// the lexer stood, and it is empty only where it is a piece of text
/// without characters that does not follow another piece of text. A number
/// is well formed, and a regular expression is read only where an
/// expression may begin. The end of the input is reported only from where
/// nothing but white space and comments is left. An error is of a kind that
/// the lexer reports.
pub proof fn lemma_step(s: Seq<char>, i: int, st: StateView, ctx: Context)
    requires
        0 <= i <= s.len(),
    ensures
        match step(s, i, st, ctx) {
            Step::Token { lexeme, state } => {
                &&& lexeme.from == i
                &&& i <= lexeme.start <= lexeme.end <= s.len()
                &&& state == st.after(
                    lexeme.token.kind(),
                    offset(s, lexeme.start) as usize,
                    lexeme.had_line_break,
                )
                &&& lexeme.token is Num ==> lexeme.token->Num_0.wf()
                &&& lexeme.token is Regex ==> st.is_expr_allowed
                &&& match st.template_lo() {
                    None => {
                        &&& space_between(s, i, lexeme.start, ctx.module, st.is_first)
                        &&& lexeme.start < lexeme.end
                        &&& lexeme.had_line_break == (st.is_first || has_line_break(
                            s,
                            i,
                            lexeme.start,
                        ))
                    },
                    Some(_) => {
                        &&& lexeme.start == i
                        &&& lexeme.start == lexeme.end ==> lexeme.token == TokenView::Template(
                            Seq::empty(),
                        ) && !st.after_text()
                    },
                }
            },
            Step::End { end } => end == s.len() && st.template_lo() is None && space_between(
                s,
                i,
                s.len() as int,
                ctx.module,
                st.is_first,
            ),
            Step::Fail { error, end } => i <= end && error.kind.is_lexical(),
        },
{
    reveal(step);
    match st.template_lo() {
        Some(tpl_lo) => {
            lemma_tpl_scan_end(s, tpl_lo, i, Seq::empty(), false);
        },
        None => {
            lemma_skip_trivia(s, i, ctx.module, st.is_first);
            match skip_trivia(s, i, ctx.module, st.is_first) {
                Scan::Done { value, end } => {
                    lemma_token_end(s, end, ctx, st.is_expr_allowed);
                },
                Scan::Fail { error, end } => {},
            }
        },
    }
}

/// A token that is not empty has a span that is not empty, in a source
/// whose byte offsets fit in `usize`.
pub proof fn lemma_span_not_empty(s: Seq<char>, start: int, end: int)
    requires
        0 <= start < end <= s.len(),
        byte_len(s) <= usize::MAX,
    ensures
        span_of(s, start, end).lo < span_of(s, start, end).hi,
        span_of(s, start, end).lo == offset(s, start),
        span_of(s, start, end).hi == offset(s, end),
{
    lemma_offset_monotonic(s, start, end);
    lemma_offset_monotonic(s, end, s.len() as int);
}

/// The tokens from position `i` in state `st` up to the end of the input, in
/// code that `ctx` describes throughout; or the first error.
pub open spec fn run(s: Seq<char>, i: int, st: StateView, ctx: Context) -> Result<
    Seq<Lexeme>,
    LexError,
>
    decreases s.len() - i, (if st.after_text() { 0nat } else { 1nat }),
    via run_decreases
{
    match step(s, i, st, ctx) {
        Step::Fail { error, end } => Err(error),
        Step::End { end } => Ok(Seq::empty()),
        Step::Token { lexeme, state } => before(lexeme, run(s, lexeme.end, state, ctx)),
    }
}

/// The outcome `rest` with the lexeme `first` in front of its tokens.
pub open spec fn before(first: Lexeme, rest: Result<Seq<Lexeme>, LexError>) -> Result<
    Seq<Lexeme>,
    LexError,
> {
    match rest {
        Ok(ls) => Ok(seq![first] + ls),
        Err(e) => Err(e),
    }
}

#[via_fn]
proof fn run_decreases(s: Seq<char>, i: int, st: StateView, ctx: Context) {
    lemma_step_progress(s, i, st, ctx);
}

/// Every token moves the lexer on, or is an empty piece of text of a
/// template with no other piece of text before it.
pub proof fn lemma_step_progress(s: Seq<char>, i: int, st: StateView, ctx: Context)
    ensures
        match step(s, i, st, ctx) {
            Step::Token { lexeme, state } => 0 <= i <= lexeme.end <= s.len() && (lexeme.end == i
                ==> !st.after_text() && state.after_text()),
            _ => true,
        },
{
    reveal(step);
    if 0 <= i <= s.len() {
        lemma_step(s, i, st, ctx);
    }
}

/// The outcome `rest` with the lexemes `front` in front of its tokens.
pub open spec fn behind(front: Seq<Lexeme>, rest: Result<Seq<Lexeme>, LexError>) -> Result<
    Seq<Lexeme>,
    LexError,
> {
    match rest {
        Ok(ls) => Ok(front + ls),
        Err(e) => Err(e),
    }
}

/// Whether the lexemes `ls` lie in the source one behind the other from
/// `i` on: each was asked for where the one before it ends, the first at
/// `i`, and each lies at or behind the place it was asked for at.
pub open spec fn in_order(s: Seq<char>, i: int, ls: Seq<Lexeme>) -> bool {
    forall|k: int|
        0 <= k < ls.len() ==> {
            &&& (#[trigger] ls[k]).from == if k == 0 {
                i
            } else {
                ls[k - 1].end
            }
            &&& ls[k].from <= ls[k].start <= ls[k].end <= s.len()
        }
}

/// The position behind the last of the lexemes `ls`, which were read from
/// `i` on.
pub open spec fn reached(i: int, ls: Seq<Lexeme>) -> int {
    if ls.len() == 0 {
        i
    } else {
        ls.last().end
    }
}

/// The number of characters in the tokens of `ls`.
pub open spec fn token_chars(ls: Seq<Lexeme>) -> int
    decreases ls.len(),
{
    if ls.len() == 0 {
        0
    } else {
        token_chars(ls.drop_last()) + (ls.last().end - ls.last().start)
    }
}

/// The number of characters that were passed on the way to the tokens of
/// `ls`.
pub open spec fn skipped_chars(ls: Seq<Lexeme>) -> int
    decreases ls.len(),
{
    if ls.len() == 0 {
        0
    } else {
        skipped_chars(ls.drop_last()) + (ls.last().start - ls.last().from)
    }
}

/// Lexemes that lie in order take, with what was passed on the way to them,
/// the characters from `i` up to the end of the last.
pub proof fn lemma_in_order_sum(s: Seq<char>, i: int, ls: Seq<Lexeme>)
    requires
        in_order(s, i, ls),
    ensures
        token_chars(ls) + skipped_chars(ls) == reached(i, ls) - i,
    decreases ls.len(),
{
    if ls.len() > 0 {
        let init = ls.drop_last();
        assert forall|k: int| 0 <= k < init.len() implies {
            &&& (#[trigger] init[k]).from == if k == 0 {
                i
            } else {
                init[k - 1].end
            }
            &&& init[k].from <= init[k].start <= init[k].end <= s.len()
        } by {
            assert(init[k] == ls[k]);
            if k > 0 {
                assert(init[k - 1] == ls[k - 1]);
            }
        }
        lemma_in_order_sum(s, i, init);
        if init.len() > 0 {
            assert(init.last() == ls[ls.len() - 2]);
        }
        assert(ls[ls.len() - 1].from == reached(i, init));
    }
}

/// The tokens of a whole run and the white space and comments between them
/// make up the source from `i` to its end. The tokens lie in order, none
/// before the end of the one before it. None is empty but a piece of text
/// of a template without characters. Whatever lies between two tokens, and
/// behind the last, is white space and comments. So the characters in the
/// tokens, those passed on the way to them and those left behind the last
/// are as many as the source has from `i` on. A run that fails, fails with
/// an error of a kind that the lexer reports.
pub proof fn lemma_run_covers(s: Seq<char>, i: int, st: StateView, ctx: Context)
    requires
        0 <= i <= s.len(),
    ensures
        match run(s, i, st, ctx) {
            Ok(ls) => {
                &&& in_order(s, i, ls)
                &&& forall|k: int|
                    0 <= k < ls.len() ==> (#[trigger] ls[k]).start < ls[k].end || ls[k].token
                        == TokenView::Template(Seq::empty())
                &&& forall|k: int|
                    0 <= k < ls.len() ==> (#[trigger] ls[k]).from == ls[k].start || space_between(
                        s,
                        ls[k].from,
                        ls[k].start,
                        ctx.module,
                        k == 0 && st.is_first,
                    )
                &&& space_between(
                    s,
                    reached(i, ls),
                    s.len() as int,
                    ctx.module,
                    ls.len() == 0 && st.is_first,
                )
                &&& token_chars(ls) + skipped_chars(ls) + (s.len() - reached(i, ls)) == s.len()
                    - i
            },
            Err(e) => e.kind.is_lexical(),
        },
    decreases s.len() - i, (if st.after_text() { 0nat } else { 1nat }),
{
    lemma_step(s, i, st, ctx);
    match step(s, i, st, ctx) {
        Step::Token { lexeme, state } => {
            lemma_step_progress(s, i, st, ctx);
            lemma_run_covers(s, lexeme.end, state, ctx);
            match run(s, lexeme.end, state, ctx) {
                Ok(rest) => {
                    let ls = seq![lexeme] + rest;
                    assert(ls[0] == lexeme);
                    assert forall|k: int| 0 <= k < ls.len() implies {
                        &&& (#[trigger] ls[k]).from == if k == 0 {
                            i
                        } else {
                            ls[k - 1].end
                        }
                        &&& ls[k].from <= ls[k].start <= ls[k].end <= s.len()
                        &&& (ls[k].start < ls[k].end || ls[k].token == TokenView::Template(
                            Seq::empty(),
                        ))
                        &&& (ls[k].from == ls[k].start || space_between(
                            s,
                            ls[k].from,
                            ls[k].start,
                            ctx.module,
                            k == 0 && st.is_first,
                        ))
                    } by {
                        if k > 0 {
                            assert(ls[k] == rest[k - 1]);
                            if k > 1 {
                                assert(ls[k - 1] == rest[k - 2]);
                            }
                        }
                    }
                    if rest.len() > 0 {
                        assert(ls.last() == rest.last());
                    }
                    lemma_in_order_sum(s, i, ls);
                },
                Err(_) => {},
            }
        },
        Step::End { end } => {},
        Step::Fail { error, end } => {},
    }
}

impl SpannedToken {
    /// Whether this token is the lexeme `l` of the source `s`, with its span
    /// in bytes.
    pub open spec fn shows(self, s: Seq<char>, l: Lexeme) -> bool {
        &&& self.token@ == l.token
        &&& self.had_line_break == l.had_line_break
        &&& self.span == span_of(s, l.start, l.end)
    }
}

/// The lexer.
pub struct Lexer {
    input: Input,
    state: State,
}

impl Lexer {
    /// The code points of the source text.
    pub closed spec fn source(&self) -> Seq<char> {
        self.input.source()
    }

    /// The position of the lexer in the source: the number of code points
    /// behind it.
    pub closed spec fn cursor(&self) -> int {
        self.input.cursor()
    }

    /// The state between tokens.
    pub closed spec fn state(&self) -> StateView {
        self.state@
    }

    /// Whether this lexer is where a request that comes to `want` leaves a
    /// lexer over `source` that was in state `before`, and `r` is what the
    /// request returns. Behind a token the lexer stands at its end, in the
    /// state behind it. At the end of the input and on an error it keeps
    /// its state.
    pub open spec fn follows(
        &self,
        source: Seq<char>,
        before: StateView,
        r: Result<Option<SpannedToken>, LexError>,
        want: Step,
    ) -> bool {
        &&& self.source() == source
        &&& match want {
            Step::Token { lexeme, state } => {
                &&& r is Ok
                &&& r.unwrap() is Some
                &&& r.unwrap().unwrap().shows(source, lexeme)
                &&& self.cursor() == lexeme.end
                &&& self.state() == state
            },
            Step::End { end } => {
                &&& r is Ok
                &&& r.unwrap() is None
                &&& self.cursor() == end
                &&& self.state() == before
            },
            Step::Fail { error, end } => {
                &&& r == Err::<Option<SpannedToken>, LexError>(error)
                &&& self.cursor() == end
                &&& self.state() == before
            },
        }
    }

    /// A lexer at the start of `src`.
    pub fn new(src: &str) -> (r: Lexer)
        ensures
            r.source() == src@,
            r.cursor() == 0,
            r.state() == StateView::initial(),
    {
        Lexer { input: Input::new(src), state: State::new() }
    }

    /// Whether a line terminator was passed on the way to the last token.
    /// The start of the input counts as one.
    pub fn had_line_break_before_last(&self) -> (r: bool)
        ensures
            r == self.state().had_line_break,
    {
        self.state.had_line_break
    }

    /// The byte offset that the lexer stands at.
    pub fn cur_pos(&self) -> (r: usize)
        ensures
            r == offset(self.source(), self.cursor()),
    {
        self.input.cur_pos()
    }

    /// Moves the lexer over one character and leaves its state as it is; at
    /// the end of the input it stays. This is how a driver gets past the
    /// place of an error.
    pub fn bump(&mut self)
        ensures
            final(self).source() == old(self).source(),
            final(self).state() == old(self).state(),
            final(self).cursor() == if old(self).cursor() < old(self).source().len() {
                old(self).cursor() + 1
            } else {
                old(self).cursor()
            },
    {
        self.input.bump();
    }

    /// Reads the next token, in code that `ctx` describes. Returns nothing
    /// at the end of the input.
    pub fn next_token(&mut self, ctx: Context) -> (r: Result<Option<SpannedToken>, LexError>)
        ensures
            final(self).follows(
                old(self).source(),
                old(self).state(),
                r,
                step(old(self).source(), old(self).cursor(), old(self).state(), ctx),
            ),
            0 <= old(self).cursor() <= old(self).source().len(),
    {
        proof {
            reveal(step);
        }
        let _ = self.input.cur_pos();
        match self.state.template_lo() {
            Some(tpl_lo) => {
                let lo = self.input.cur_pos();
                let after_text = self.state.last_was_tpl_element();
                let (token, had_line_break) = match self.input.read_tmpl_token(tpl_lo, after_text) {
                    Ok(piece) => piece,
                    Err(e) => {
                        return Err(e);
                    },
                };
                let hi = self.input.cur_pos();
                self.state.update(token.kind(), lo, had_line_break);
                Ok(Some(SpannedToken { token, had_line_break, span: Span { lo, hi } }))
            },
            None => {
                let had_line_break = match self.input.skip_space(ctx.module, self.state.is_first) {
                    Ok(lb) => lb,
                    Err(e) => {
                        return Err(e);
                    },
                };
                let lo = self.input.cur_pos();
                let token = match self.input.read_token(ctx, self.state.is_expr_allowed) {
                    Ok(Some(t)) => t,
                    Ok(None) => {
                        return Ok(None);
                    },
                    Err(e) => {
                        return Err(e);
                    },
                };
                let hi = self.input.cur_pos();
                self.state.update(token.kind(), lo, had_line_break);
                Ok(Some(SpannedToken { token, had_line_break, span: Span { lo, hi } }))
            },
        }
    }

    /// Reads the tokens up to the end of the input, in code that `ctx`
    /// describes throughout, or up to the first error.
    pub fn tokens(&mut self, ctx: Context) -> (r: Result<Vec<SpannedToken>, LexError>)
        ensures
            final(self).source() == old(self).source(),
            match run(old(self).source(), old(self).cursor(), old(self).state(), ctx) {
                Ok(ls) => {
                    &&& r is Ok
                    &&& r.unwrap().len() == ls.len()
                    &&& forall|k: int|
                        0 <= k < ls.len() ==> (#[trigger] r.unwrap()[k]).shows(
                            old(self).source(),
                            ls[k],
                        )
                    &&& final(self).cursor() == old(self).source().len()
                },
                Err(e) => r == Err::<Vec<SpannedToken>, LexError>(e),
            },
    {
        let ghost s = self.source();
        let ghost i0 = self.cursor();
        let ghost st0 = self.state();
        let ghost done: Seq<Lexeme> = Seq::empty();
        let mut out: Vec<SpannedToken> = Vec::new();
        proof {
            assert(Seq::<Lexeme>::empty() + Seq::<Lexeme>::empty() =~= Seq::<Lexeme>::empty());
            match run(s, i0, st0, ctx) {
                Ok(ls) => {
                    assert(Seq::<Lexeme>::empty() + ls =~= ls);
                },
                Err(_) => {},
            }
        }
        loop
            invariant
                self.source() == s,
                s == old(self).source(),
                i0 == old(self).cursor(),
                st0 == old(self).state(),
                run(s, i0, st0, ctx) == behind(done, run(s, self.cursor(), self.state(), ctx)),
                out.len() == done.len(),
                forall|k: int| 0 <= k < done.len() ==> (#[trigger] out[k]).shows(s, done[k]),
            decreases
                    s.len() - self.cursor(),
                    (if self.state().after_text() {
                        0nat
                    } else {
                        1nat
                    }),
        {
            let ghost i = self.cursor();
            let ghost st = self.state();
            proof {
                lemma_step_progress(s, i, st, ctx);
            }
            let t = match self.next_token(ctx) {
                Err(e) => {
                    return Err(e);
                },
                Ok(None) => {
                    proof {
                        assert(done + Seq::<Lexeme>::empty() =~= done);
                        lemma_step(s, i, st, ctx);
                    }
                    return Ok(out);
                },
                Ok(Some(t)) => t,
            };
            proof {
                let lexeme = step(s, i, st, ctx)->Token_lexeme;
                match run(s, self.cursor(), self.state(), ctx) {
                    Ok(rest) => {
                        assert(done + (seq![lexeme] + rest) =~= done.push(lexeme) + rest);
                    },
                    Err(_) => {},
                }
                done = done.push(lexeme);
            }
            out.push(t);
        }
    }
}

} // verus!
