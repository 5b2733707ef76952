//! White space and comments between tokens.

use vstd::prelude::*;
use crate::chars::{is_line_break, is_whitespace, line_break, whitespace};
use crate::error::{LexError, SyntaxError};
use crate::input::{char_at, fail, offset, Input, Scan};

verus! {

/// The first position from `i` on that holds a line terminator, or the end
/// of the source: where a line comment ends.
pub open spec fn line_end(s: Seq<char>, i: int) -> int
    decreases s.len() - i,
{
    match char_at(s, i) {
        Some(c) if !line_break(c) => line_end(s, i + 1),
        _ => i,
    }
}

/// The rest of a block comment from position `i` on, up to the `*/` that
/// ends it: whether it holds a line terminator. `star` tells whether the
/// character before `i` was a `*` of the comment's body, and `lb` whether a
/// line terminator was met. `lo` is the byte offset of the comment.
pub open spec fn block_comment(s: Seq<char>, lo: usize, i: int, star: bool, lb: bool) -> Scan<bool>
    decreases s.len() - i,
{
    match char_at(s, i) {
        None => fail(s, SyntaxError::UnterminatedBlockComment, lo, i),
        Some(c) => if star && c == '/' {
            Scan::Done { value: lb, end: i + 1 }
        } else {
            block_comment(s, lo, i + 1, c == '*', lb || line_break(c))
        },
    }
}

/// Whether the characters of `text` stand in `s` from position `i` on.
pub open spec fn starts_with(s: Seq<char>, i: int, text: Seq<char>) -> bool {
    0 <= i && i + text.len() <= s.len() && s.subrange(i, i + text.len()) == text
}

/// What the next piece of the space between two tokens is.
pub enum TriviaStep {
    /// A token begins here, or the input ends.
    Stop,
    /// White space or a comment up to `end`; `newline` tells whether it
    /// holds a line terminator.
    Skip { end: int, newline: bool },
    Fail { error: LexError, end: int },
}

/// The piece at position `i` of the space between two tokens: a character of
/// white space, a line terminator, a line comment up to the end of its line,
/// a block comment, and outside modules the two HTML-like comments, which
/// run to the end of the line: `<!--` anywhere and `-->` where only white
/// space and comments stand between it and the start of its line (`lb`).
pub open spec fn trivia_step(s: Seq<char>, i: int, module: bool, lb: bool) -> TriviaStep {
    match char_at(s, i) {
        None => TriviaStep::Stop,
        Some(c) => {
            if whitespace(c) {
                TriviaStep::Skip { end: i + 1, newline: false }
            } else if line_break(c) {
                TriviaStep::Skip { end: i + 1, newline: true }
            } else if c == '/' && char_at(s, i + 1) == Some('/') {
                TriviaStep::Skip { end: line_end(s, i + 2), newline: false }
            } else if c == '/' && char_at(s, i + 1) == Some('*') {
                match block_comment(s, offset(s, i) as usize, i + 2, false, false) {
                    Scan::Done { value, end } => TriviaStep::Skip { end, newline: value },
                    Scan::Fail { error, end } => TriviaStep::Fail { error, end },
                }
            } else if !module && starts_with(s, i, seq!['<', '!', '-', '-']) {
                TriviaStep::Skip { end: line_end(s, i + 4), newline: false }
            } else if !module && lb && starts_with(s, i, seq!['-', '-', '>']) {
                TriviaStep::Skip { end: line_end(s, i + 3), newline: false }
            } else {
                TriviaStep::Stop
            }
        },
    }
}

/// The space between two tokens from position `i` on: the position of the
/// next token, and whether a line terminator was passed on the way or
/// before (`lb`).
pub open spec fn skip_trivia(s: Seq<char>, i: int, module: bool, lb: bool) -> Scan<bool>
    decreases s.len() - i,
    via skip_trivia_decreases
{
    match trivia_step(s, i, module, lb) {
        TriviaStep::Stop => Scan::Done { value: lb, end: i },
        TriviaStep::Fail { error, end } => Scan::Fail { error, end },
        TriviaStep::Skip { end, newline } => skip_trivia(s, end, module, lb || newline),
    }
}

#[via_fn]
proof fn skip_trivia_decreases(s: Seq<char>, i: int, module: bool, lb: bool) {
    lemma_trivia_step(s, i, module, lb);
}

/// Whether a line terminator stands somewhere from `i` up to `j`.
pub open spec fn has_line_break(s: Seq<char>, i: int, j: int) -> bool {
    exists|k: int| i <= k < j && 0 <= k < s.len() && line_break(#[trigger] s[k])
}

/// A line comment ends inside the source and holds no line terminator.
pub proof fn lemma_line_end(s: Seq<char>, i: int)
    requires
        0 <= i <= s.len(),
    ensures
        i <= line_end(s, i) <= s.len(),
        !has_line_break(s, i, line_end(s, i)),
    decreases s.len() - i,
{
    if i < s.len() && !line_break(s[i]) {
        lemma_line_end(s, i + 1);
    }
}

/// A block comment ends inside the source, and the flag it returns tells
/// whether it holds a line terminator.
pub proof fn lemma_block_comment(s: Seq<char>, lo: usize, i: int, star: bool, lb: bool)
    requires
        0 <= i <= s.len(),
    ensures
        match block_comment(s, lo, i, star, lb) {
            Scan::Done { value, end } => i < end <= s.len() && value == (lb || has_line_break(
                s,
                i,
                end,
            )),
            Scan::Fail { error, end } => end == s.len() && error.kind.is_lexical(),
        },
    decreases s.len() - i,
{
    if i < s.len() {
        let c = s[i];
        if !(star && c == '/') {
            lemma_block_comment(s, lo, i + 1, c == '*', lb || line_break(c));
            match block_comment(s, lo, i + 1, c == '*', lb || line_break(c)) {
                Scan::Done { value, end } => {
                    if has_line_break(s, i, end) {
                        let k = choose|k: int|
                            i <= k < end && 0 <= k < s.len() && line_break(#[trigger] s[k]);
                        if k != i {
                            assert(has_line_break(s, i + 1, end));
                        }
                    }
                    if line_break(c) || has_line_break(s, i + 1, end) {
                        if line_break(c) {
                            assert(line_break(s[i]));
                        } else {
                            let k = choose|k: int|
                                i + 1 <= k < end && 0 <= k < s.len() && line_break(#[trigger] s[k]);
                            assert(line_break(s[k]));
                        }
                        assert(has_line_break(s, i, end));
                    }
                },
                Scan::Fail { error, end } => {},
            }
        } else {
            assert(!has_line_break(s, i, i + 1)) by {
                if has_line_break(s, i, i + 1) {
                    let k = choose|k: int|
                        i <= k < i + 1 && 0 <= k < s.len() && line_break(#[trigger] s[k]);
                    assert(k == i);
                }
            }
        }
    }
}

/// A piece of the space between two tokens ends behind its start, inside
/// the source, and its flag tells whether it holds a line terminator.
pub proof fn lemma_trivia_step(s: Seq<char>, i: int, module: bool, lb: bool)
    ensures
        match trivia_step(s, i, module, lb) {
            TriviaStep::Stop => true,
            TriviaStep::Skip { end, newline } => 0 <= i < end <= s.len() && newline == has_line_break(
                s,
                i,
                end,
            ),
            TriviaStep::Fail { error, end } => 0 <= i < end <= s.len() && error.kind.is_lexical(),
        },
{
    if 0 <= i < s.len() {
        let c = s[i];
        if whitespace(c) || line_break(c) {
            if line_break(c) {
                assert(line_break(s[i]));
                assert(has_line_break(s, i, i + 1));
            } else {
                assert(!has_line_break(s, i, i + 1)) by {
                    if has_line_break(s, i, i + 1) {
                        let k = choose|k: int|
                            i <= k < i + 1 && 0 <= k < s.len() && line_break(#[trigger] s[k]);
                        assert(k == i);
                    }
                }
            }
        } else if c == '/' && char_at(s, i + 1) == Some('/') {
            lemma_line_end(s, i + 2);
            lemma_comment_opener(s, i, 2, line_end(s, i + 2));
        } else if c == '/' && char_at(s, i + 1) == Some('*') {
            lemma_block_comment(s, offset(s, i) as usize, i + 2, false, false);
            match block_comment(s, offset(s, i) as usize, i + 2, false, false) {
                Scan::Done { value, end } => {
                    lemma_comment_opener(s, i, 2, end);
                },
                Scan::Fail { error, end } => {},
            }
        } else if !module && starts_with(s, i, seq!['<', '!', '-', '-']) {
            let t = s.subrange(i, i + 4);
            assert(t[0] == '<' && t[1] == '!' && t[2] == '-' && t[3] == '-');
            lemma_line_end(s, i + 4);
            lemma_comment_opener(s, i, 4, line_end(s, i + 4));
        } else if !module && lb && starts_with(s, i, seq!['-', '-', '>']) {
            let t = s.subrange(i, i + 3);
            assert(t[0] == '-' && t[1] == '-' && t[2] == '>');
            lemma_line_end(s, i + 3);
            lemma_comment_opener(s, i, 3, line_end(s, i + 3));
        }
    }
}

/// Where the first `n` characters from `i` on hold no line terminator, the
/// characters from `i` up to `end` hold one just when those behind the
/// first `n` do.
proof fn lemma_comment_opener(s: Seq<char>, i: int, n: int, end: int)
    requires
        0 <= i,
        0 <= n,
        i + n <= end <= s.len(),
        forall|k: int| i <= k < i + n ==> !line_break(#[trigger] s[k]),
    ensures
        has_line_break(s, i, end) == has_line_break(s, i + n, end),
{
    if has_line_break(s, i, end) {
        let k = choose|k: int| i <= k < end && 0 <= k < s.len() && line_break(#[trigger] s[k]);
        assert(k >= i + n);
        assert(has_line_break(s, i + n, end));
    }
    if has_line_break(s, i + n, end) {
        let k = choose|k: int| i + n <= k < end && 0 <= k < s.len() && line_break(#[trigger] s[k]);
        assert(line_break(s[k]));
        assert(has_line_break(s, i, end));
    }
}

/// The space between two tokens ends at or behind its start, inside the
/// source; what it returns tells whether a line terminator was passed on the
/// way or before; and no further space begins where it ends.
pub proof fn lemma_skip_trivia(s: Seq<char>, i: int, module: bool, lb: bool)
    requires
        0 <= i <= s.len(),
    ensures
        match skip_trivia(s, i, module, lb) {
            Scan::Done { value, end } => i <= end <= s.len() && value == (lb || has_line_break(
                s,
                i,
                end,
            )) && trivia_step(s, end, module, value) is Stop,
            Scan::Fail { error, end } => i < end <= s.len() && error.kind.is_lexical(),
        },
    decreases s.len() - i,
{
    lemma_trivia_step(s, i, module, lb);
    match trivia_step(s, i, module, lb) {
        TriviaStep::Stop => {
            assert(!has_line_break(s, i, i));
        },
        TriviaStep::Fail { error, end } => {},
        TriviaStep::Skip { end, newline } => {
            lemma_skip_trivia(s, end, module, lb || newline);
            match skip_trivia(s, end, module, lb || newline) {
                Scan::Done { value, end: stop } => {
                    if has_line_break(s, i, stop) {
                        let k = choose|k: int|
                            i <= k < stop && 0 <= k < s.len() && line_break(#[trigger] s[k]);
                        if k < end {
                            assert(has_line_break(s, i, end));
                        } else {
                            assert(has_line_break(s, end, stop));
                        }
                    }
                    if has_line_break(s, i, end) {
                        let k = choose|k: int|
                            i <= k < end && 0 <= k < s.len() && line_break(#[trigger] s[k]);
                        assert(line_break(s[k]));
                        assert(has_line_break(s, i, stop));
                    }
                    if has_line_break(s, end, stop) {
                        let k = choose|k: int|
                            end <= k < stop && 0 <= k < s.len() && line_break(#[trigger] s[k]);
                        assert(line_break(s[k]));
                        assert(has_line_break(s, i, stop));
                    }
                },
                Scan::Fail { error, end } => {},
            }
        },
    }
}

/// What `skip_trivia_step` returns for a step.
pub open spec fn trivia_step_result(step: TriviaStep) -> Result<Option<bool>, LexError> {
    match step {
        TriviaStep::Stop => Ok(None),
        TriviaStep::Skip { end, newline } => Ok(Some(newline)),
        TriviaStep::Fail { error, end } => Err(error),
    }
}

impl Input {
    /// Moves the cursor to the end of the line it is in: up to the next
    /// line terminator or to the end of the input.
    pub fn skip_line(&mut self)
        ensures
            final(self).source() == old(self).source(),
            final(self).cursor() == line_end(old(self).source(), old(self).cursor()),
    {
        let ghost s = self.source();
        let ghost i0 = self.cursor();
        let mut cur = self.current();
        while cur.is_some() && !is_line_break(cur.unwrap())
            invariant
                self.source() == s,
                cur == char_at(s, self.cursor()),
                0 <= self.cursor() <= s.len(),
                line_end(s, self.cursor()) == line_end(s, i0),
            decreases s.len() - self.cursor(),
        {
            self.bump();
            cur = self.current();
        }
    }

    /// Moves the cursor over the block comment that began at byte `lo` and
    /// whose `/*` is behind the cursor, and tells whether the comment holds
    /// a line terminator.
    pub fn skip_block_comment(&mut self, lo: usize) -> (r: Result<bool, LexError>)
        ensures
            final(self).lands(
                old(self).source(),
                r,
                block_comment(old(self).source(), lo, old(self).cursor(), false, false),
            ),
    {
        let ghost s = self.source();
        let ghost i0 = self.cursor();
        let mut star = false;
        let mut lb = false;
        loop
            invariant
                self.source() == s,
                s == old(self).source(),
                i0 == old(self).cursor(),
                block_comment(s, lo, self.cursor(), star, lb) == block_comment(
                    s,
                    lo,
                    i0,
                    false,
                    false,
                ),
            decreases s.len() - self.cursor(),
        {
            let c = match self.current() {
                Some(c) => c,
                None => {
                    return Err(self.error_from(lo, SyntaxError::UnterminatedBlockComment));
                },
            };
            self.bump();
            if star && c == '/' {
                return Ok(lb);
            }
            star = c == '*';
            lb = lb || is_line_break(c);
        }
    }

    /// Moves the cursor over the next piece of the space between two tokens.
    /// Returns `None` where a token begins or the input ends, else whether
    /// the piece holds a line terminator.
    pub fn skip_trivia_step(&mut self, module: bool, lb: bool) -> (r: Result<
        Option<bool>,
        LexError,
    >)
        ensures
            final(self).source() == old(self).source(),
            r == trivia_step_result(
                trivia_step(old(self).source(), old(self).cursor(), module, lb),
            ),
            final(self).cursor() == match trivia_step(
                old(self).source(),
                old(self).cursor(),
                module,
                lb,
            ) {
                TriviaStep::Stop => old(self).cursor(),
                TriviaStep::Skip { end, newline } => end,
                TriviaStep::Fail { error, end } => end,
            },
    {
        let ghost s = self.source();
        let ghost i = self.cursor();
        let c = match self.current() {
            Some(c) => c,
            None => {
                return Ok(None);
            },
        };
        if is_whitespace(c) {
            self.bump();
            return Ok(Some(false));
        }
        if is_line_break(c) {
            self.bump();
            return Ok(Some(true));
        }
        let next = self.peek();
        let third = self.peek_ahead();
        if c == '/' && next == Some('/') {
            self.bump();
            self.bump();
            self.skip_line();
            Ok(Some(false))
        } else if c == '/' && next == Some('*') {
            let lo = self.cur_pos();
            self.bump();
            self.bump();
            match self.skip_block_comment(lo) {
                Ok(newline) => Ok(Some(newline)),
                Err(e) => Err(e),
            }
        } else if !module && c == '<' && next == Some('!') && third == Some('-')
            && self.peek_nth(3) == Some('-') {
            proof {
                assert(s.subrange(i, i + 4) =~= seq!['<', '!', '-', '-']);
            }
            self.bump();
            self.bump();
            self.bump();
            self.bump();
            self.skip_line();
            Ok(Some(false))
        } else if !module && lb && c == '-' && next == Some('-') && third == Some('>') {
            proof {
                assert(s.subrange(i, i + 3) =~= seq!['-', '-', '>']);
            }
            self.bump();
            self.bump();
            self.bump();
            self.skip_line();
            Ok(Some(false))
        } else {
            proof {
                if starts_with(s, i, seq!['<', '!', '-', '-']) {
                    let t = s.subrange(i, i + 4);
                    assert(t[0] == '<' && t[1] == '!' && t[2] == '-' && t[3] == '-');
                }
                if starts_with(s, i, seq!['-', '-', '>']) {
                    let t = s.subrange(i, i + 3);
                    assert(t[0] == '-' && t[1] == '-' && t[2] == '>');
                }
            }
            Ok(None)
        }
    }

    /// Moves the cursor over the space between two tokens, and tells whether
    /// a line terminator was passed on the way or before (`lb`).
    pub fn skip_space(&mut self, module: bool, lb: bool) -> (r: Result<bool, LexError>)
        ensures
            final(self).lands(
                old(self).source(),
                r,
                skip_trivia(old(self).source(), old(self).cursor(), module, lb),
            ),
    {
        let ghost s = self.source();
        let ghost i0 = self.cursor();
        let mut had = lb;
        loop
            invariant
                self.source() == s,
                s == old(self).source(),
                i0 == old(self).cursor(),
                skip_trivia(s, self.cursor(), module, had) == skip_trivia(s, i0, module, lb),
            decreases s.len() - self.cursor(),
        {
            proof {
                lemma_trivia_step(s, self.cursor(), module, had);
            }
            let step = self.skip_trivia_step(module, had);
            match step {
                Err(e) => {
                    return Err(e);
                },
                Ok(None) => {
                    return Ok(had);
                },
                Ok(Some(newline)) => {
                    had = had || newline;
                },
            }
        }
    }
}

} // verus!
