//! Identifiers and keywords.

use vstd::prelude::*;
use crate::chars::{ident_part, ident_start, is_ident_part, is_ident_start};
use crate::context::{keyword_named, keyword_of, Context};
use crate::error::{LexError, SyntaxError};
use crate::escape::{lemma_hex_count, unicode_escape};
use crate::digits::lemma_run_end;
use crate::input::{char_at, fail, has_backslash, offset, span_of, viewed, Input, Scan};
use crate::text::{string_of, text_is};
use crate::token::{BinOp, Token, TokenView, Word, WordView};

verus! {

/// The decoded text of a word and whether the source spelled any of it as an
/// escape.
pub struct WordText {
    pub text: Seq<char>,
    pub has_escape: bool,
}

/// What the next piece of a word is.
pub enum WordStep {
    /// The word ends here.
    Stop,
    /// The character `c` belongs to the word, and the word goes on at
    /// `end`; `escaped` tells whether the source spelled `c` as an escape.
    Take { c: char, end: int, escaped: bool },
    Fail { error: LexError, end: int },
}

/// Whether `c` may stand in an identifier, at its first place or at a later
/// one.
pub open spec fn ident_char(c: char, first: bool) -> bool {
    if first {
        ident_start(c)
    } else {
        ident_part(c)
    }
}

/// The piece of a word at position `i`, where `first` tells whether `i` is
/// the first position of the word. Identifier characters stand for
/// themselves; a `\u` escape stands for the character it names, which must
/// be one that may stand at that place of an identifier.
pub open spec fn word_step(s: Seq<char>, i: int, first: bool) -> WordStep {
    match char_at(s, i) {
        None => WordStep::Stop,
        Some(c) => {
            if ident_char(c, first) {
                WordStep::Take { c, end: i + 1, escaped: false }
            } else if c == '\\' {
                let lo = offset(s, i) as usize;
                if char_at(s, i + 1) != Some('u') {
                    WordStep::Fail {
                        error: LexError {
                            kind: SyntaxError::ExpectedUnicodeEscape,
                            span: span_of(s, i, i + 1),
                        },
                        end: i + 1,
                    }
                } else {
                    match unicode_escape(s, lo, i + 1) {
                        Scan::Fail { error, end } => WordStep::Fail { error, end },
                        Scan::Done { value, end } => {
                            if ident_char(value, first) {
                                WordStep::Take { c: value, end, escaped: true }
                            } else {
                                WordStep::Fail {
                                    error: LexError {
                                        kind: SyntaxError::InvalidIdentChar,
                                        span: span_of(s, i, end),
                                    },
                                    end,
                                }
                            }
                        },
                    }
                }
            } else {
                WordStep::Stop
            }
        },
    }
}

/// The rest of a word from position `i` on, where `acc` is the text decoded
/// so far, `esc` tells whether an escape was met, and `first` whether `i` is
/// the first position of the word.
pub open spec fn word_scan(s: Seq<char>, i: int, first: bool, acc: Seq<char>, esc: bool) -> Scan<
    WordText,
>
    decreases s.len() - i,
    via word_scan_decreases
{
    match word_step(s, i, first) {
        WordStep::Stop => Scan::Done { value: WordText { text: acc, has_escape: esc }, end: i },
        WordStep::Fail { error, end } => Scan::Fail { error, end },
        WordStep::Take { c, end, escaped } => word_scan(
            s,
            end,
            false,
            acc.push(c),
            esc || escaped,
        ),
    }
}

#[via_fn]
proof fn word_scan_decreases(s: Seq<char>, i: int, first: bool, acc: Seq<char>, esc: bool) {
    lemma_word_step_end(s, i, first);
}

/// A piece of a word ends behind its start, inside the source.
pub proof fn lemma_word_step_end(s: Seq<char>, i: int, first: bool)
    ensures
        match word_step(s, i, first) {
            WordStep::Stop => true,
            WordStep::Take { c, end, escaped } => 0 <= i < end <= s.len(),
            WordStep::Fail { error, end } => 0 <= i < end <= s.len() + 1 && error.kind.is_lexical(),
        },
{
    if 0 <= i && i + 1 < s.len() {
        lemma_unicode_escape_end(s, offset(s, i) as usize, i + 1);
    }
}

/// A `\u` escape whose `u` stands at `i` ends behind the `u`, inside the
/// source.
pub proof fn lemma_unicode_escape_end(s: Seq<char>, lo: usize, i: int)
    requires
        0 <= i < s.len(),
    ensures
        match unicode_escape(s, lo, i) {
            Scan::Done { value, end } => i < end <= s.len(),
            Scan::Fail { error, end } => i < end <= s.len() && error.kind.is_lexical(),
        },
{
    if i + 2 <= s.len() {
        lemma_run_end(s, i + 2, 16);
    }
    lemma_hex_count(s, i + 1, 4);
}

/// The word at `i`.
pub open spec fn word(s: Seq<char>, i: int) -> Scan<WordText> {
    word_scan(s, i, true, Seq::empty(), false)
}

/// A word ends at or behind its start, inside the source.
pub proof fn lemma_word_scan_end(s: Seq<char>, i: int, first: bool, acc: Seq<char>, esc: bool)
    requires
        0 <= i <= s.len(),
    ensures
        match word_scan(s, i, first, acc, esc) {
            Scan::Done { value, end } => i <= end <= s.len() && (end == i ==> word_step(s, i, first)
                is Stop),
            Scan::Fail { error, end } => i < end <= s.len() + 1 && error.kind.is_lexical(),
        },
    decreases s.len() - i,
{
    lemma_word_step_end(s, i, first);
    match word_step(s, i, first) {
        WordStep::Take { c, end, escaped } => {
            lemma_word_scan_end(s, end, false, acc.push(c), esc || escaped);
        },
        _ => {},
    }
}

/// The flag of a word tells whether the source spells any of it as an
/// escape, and a word that the source spells without one is spelled as it
/// reads: from `i` on, where `acc` was read before and `esc` tells whether
/// an escape was met there, the flag is set just when it was set before or
/// a backslash stands in the rest of the word, and where it is not set the
/// text is `acc` and then the very characters of the source.
pub proof fn lemma_word_scan_text(s: Seq<char>, i: int, first: bool, acc: Seq<char>, esc: bool)
    requires
        0 <= i <= s.len(),
    ensures
        match word_scan(s, i, first, acc, esc) {
            Scan::Done { value, end } => {
                &&& i <= end <= s.len()
                &&& value.has_escape == (esc || has_backslash(s, i, end))
                &&& !value.has_escape ==> value.text == acc + s.subrange(i, end)
            },
            Scan::Fail { error, end } => true,
        },
    decreases s.len() - i,
{
    lemma_word_step_end(s, i, first);
    match word_step(s, i, first) {
        WordStep::Take { c, end, escaped } => {
            lemma_word_scan_text(s, end, false, acc.push(c), esc || escaped);
            match word_scan(s, end, false, acc.push(c), esc || escaped) {
                Scan::Done { value, end: stop } => {
                    assert(escaped == (s[i] == '\\'));
                    if has_backslash(s, i, stop) {
                        let k = choose|k: int|
                            i <= k < stop && 0 <= k < s.len() && #[trigger] s[k] == '\\';
                        if !escaped {
                            assert(end == i + 1);
                            assert(k >= end);
                            assert(has_backslash(s, end, stop));
                        }
                    }
                    if has_backslash(s, end, stop) {
                        let k = choose|k: int|
                            end <= k < stop && 0 <= k < s.len() && #[trigger] s[k] == '\\';
                        assert(s[k] == '\\');
                        assert(has_backslash(s, i, stop));
                    }
                    if escaped {
                        assert(s[i] == '\\');
                        assert(has_backslash(s, i, stop));
                    }
                    if !value.has_escape {
                        assert(end == i + 1 && c == s[i]);
                        assert(acc.push(c) + s.subrange(i + 1, stop) =~= acc + s.subrange(
                            i,
                            stop,
                        ));
                    }
                },
                Scan::Fail { error, end } => {},
            }
        },
        WordStep::Stop => {
            assert(acc + s.subrange(i, i) =~= acc);
            assert(!has_backslash(s, i, i));
        },
        WordStep::Fail { error, end } => {},
    }
}

/// Of every word: its flag tells whether the source spells any of it as an
/// escape; without one, its text is the very characters of the source that
/// it takes. (With one, its text is what `word_scan` makes of them: each
/// escape replaced by the character that it names.)
pub proof fn lemma_word_text(s: Seq<char>, i: int)
    requires
        0 <= i <= s.len(),
    ensures
        match word(s, i) {
            Scan::Done { value, end } => {
                &&& i <= end <= s.len()
                &&& value.has_escape == has_backslash(s, i, end)
                &&& !value.has_escape ==> value.text == s.subrange(i, end)
            },
            Scan::Fail { error, end } => true,
        },
{
    lemma_word_scan_text(s, i, true, Seq::empty(), false);
    match word(s, i) {
        Scan::Done { value, end } => {
            assert(Seq::<char>::empty() + s.subrange(i, end) =~= s.subrange(i, end));
        },
        Scan::Fail { error, end } => {},
    }
}

/// The token that a word with the given text becomes: `in` and
/// `instanceof` are operators; keywords and the three literal words are
/// themselves; everything else is an identifier of that name.
pub open spec fn word_token(w: WordText) -> TokenView {
    if w.text == "in"@ {
        TokenView::BinOp(BinOp::In)
    } else if w.text == "instanceof"@ {
        TokenView::BinOp(BinOp::InstanceOf)
    } else {
        let word = match keyword_named(w.text) {
            Some(k) => WordView::Keyword(k),
            None => if w.text == "null"@ {
                WordView::Null
            } else if w.text == "true"@ {
                WordView::True
            } else if w.text == "false"@ {
                WordView::False
            } else {
                WordView::Ident(w.text)
            },
        };
        TokenView::Word { word, has_escape: w.has_escape }
    }
}

/// A word that begins with a backslash or with a character that may begin
/// an identifier ends behind its start.
pub proof fn lemma_word_end(s: Seq<char>, i: int)
    requires
        0 <= i < s.len(),
        s[i] == '\\' || ident_start(s[i]),
    ensures
        match word(s, i) {
            Scan::Done { value, end } => i < end <= s.len(),
            Scan::Fail { error, end } => i < end <= s.len() + 1 && error.kind.is_lexical(),
        },
{
    lemma_word_scan_end(s, i, true, Seq::empty(), false);
}

/// A word becomes an operator or a word token.
pub proof fn lemma_word_token_kind(r: Scan<WordText>)
    ensures
        match r {
            Scan::Done { value, end } => word_token(value) is BinOp || word_token(value) is Word,
            Scan::Fail { error, end } => true,
        },
{
}

/// The identifier or keyword at `i`. A reserved word spelled with an escape
/// is an error.
pub open spec fn ident_or_keyword(s: Seq<char>, i: int, ctx: Context) -> Scan<TokenView> {
    match word(s, i) {
        Scan::Fail { error, end } => Scan::Fail { error, end },
        Scan::Done { value, end } => if value.has_escape && ctx.reserves(value.text) {
            fail(s, SyntaxError::EscapeInReservedWord, offset(s, i) as usize, end)
        } else {
            Scan::Done { value: word_token(value), end }
        },
    }
}

/// The token that a word with the given text becomes.
pub fn make_word_token(text: &Vec<char>, has_escape: bool) -> (r: Token)
    ensures
        r@ == word_token(WordText { text: text@, has_escape }),
{
    if text_is(text, "in") {
        Token::BinOp(BinOp::In)
    } else if text_is(text, "instanceof") {
        Token::BinOp(BinOp::InstanceOf)
    } else {
        let word = match keyword_of(text) {
            Some(k) => Word::Keyword(k),
            None => if text_is(text, "null") {
                Word::Null
            } else if text_is(text, "true") {
                Word::True
            } else if text_is(text, "false") {
                Word::False
            } else {
                Word::Ident(string_of(text))
            },
        };
        Token::Word { word, has_escape }
    }
}

/// The word at `i`, if a character that may begin an identifier stands
/// there.
pub open spec fn maybe_word(s: Seq<char>, i: int) -> Scan<Option<WordText>> {
    match char_at(s, i) {
        Some(c) if ident_start(c) => match word(s, i) {
            Scan::Done { value, end } => Scan::Done { value: Some(value), end },
            Scan::Fail { error, end } => Scan::Fail { error, end },
        },
        _ => Scan::Done { value: None, end: i },
    }
}

/// The view of what `may_read_word_as_str` returns.
pub open spec fn maybe_word_result(r: Result<Option<(Vec<char>, bool)>, LexError>) -> Result<
    Option<WordText>,
    LexError,
> {
    match r {
        Ok(Some(w)) => Ok(Some(WordText { text: w.0@, has_escape: w.1 })),
        Ok(None) => Ok(None),
        Err(e) => Err(e),
    }
}

/// The view of what `read_word_as_str` returns.
pub open spec fn word_result(r: Result<(Vec<char>, bool), LexError>) -> Result<
    WordText,
    LexError,
> {
    match r {
        Ok(w) => Ok(WordText { text: w.0@, has_escape: w.1 }),
        Err(e) => Err(e),
    }
}

impl Input {
    /// Reads the next piece of a word at the cursor: a character of the word
    /// and whether it was spelled as an escape, or nothing where the word
    /// ends.
    pub fn read_word_step(&mut self, first: bool) -> (r: Result<Option<(char, bool)>, LexError>)
        ensures
            final(self).source() == old(self).source(),
            match word_step(old(self).source(), old(self).cursor(), first) {
                WordStep::Stop => r == Ok::<Option<(char, bool)>, LexError>(None)
                    && final(self).cursor() == old(self).cursor(),
                WordStep::Take { c, end, escaped } => r == Ok::<Option<(char, bool)>, LexError>(
                    Some((c, escaped)),
                ) && final(self).cursor() == end,
                WordStep::Fail { error, end } => r == Err::<Option<(char, bool)>, LexError>(error)
                    && final(self).cursor() == end,
            },
    {
        let c = match self.current() {
            Some(c) => c,
            None => {
                return Ok(None);
            },
        };
        let plain = if first {
            is_ident_start(c)
        } else {
            is_ident_part(c)
        };
        if plain {
            self.bump();
            Ok(Some((c, false)))
        } else if c == '\\' {
            let lo = self.cur_pos();
            self.bump();
            if !self.is('u') {
                return Err(self.error_from(lo, SyntaxError::ExpectedUnicodeEscape));
            }
            let c = match self.read_unicode_escape(lo) {
                Ok(c) => c,
                Err(e) => {
                    return Err(e);
                },
            };
            let valid = if first {
                is_ident_start(c)
            } else {
                is_ident_part(c)
            };
            if !valid {
                return Err(self.error_from(lo, SyntaxError::InvalidIdentChar));
            }
            Ok(Some((c, true)))
        } else {
            Ok(None)
        }
    }

    /// Reads the word at the cursor: its decoded text, and whether any of it
    /// was spelled as an escape.
    pub fn read_word_as_str(&mut self) -> (r: Result<(Vec<char>, bool), LexError>)
        ensures
            final(self).lands(
                old(self).source(),
                word_result(r),
                word(old(self).source(), old(self).cursor()),
            ),
    {
        let ghost s = self.source();
        let ghost i0 = self.cursor();
        let mut has_escape = false;
        let mut text: Vec<char> = Vec::new();
        let mut first = true;
        loop
            invariant
                self.source() == s,
                s == old(self).source(),
                i0 == old(self).cursor(),
                word_scan(s, self.cursor(), first, text@, has_escape) == word(s, i0),
            decreases s.len() - self.cursor(),
        {
            proof {
                lemma_word_step_end(s, self.cursor(), first);
            }
            let step = self.read_word_step(first);
            match step {
                Err(e) => {
                    return Err(e);
                },
                Ok(None) => {
                    return Ok((text, has_escape));
                },
                Ok(Some((c, escaped))) => {
                    text.push(c);
                    has_escape = has_escape || escaped;
                    first = false;
                },
            }
        }
    }

    /// Reads the word at the cursor, if a character that may begin an
    /// identifier is there.
    pub fn may_read_word_as_str(&mut self) -> (r: Result<Option<(Vec<char>, bool)>, LexError>)
        ensures
            final(self).lands(
                old(self).source(),
                maybe_word_result(r),
                maybe_word(old(self).source(), old(self).cursor()),
            ),
    {
        let begins = match self.current() {
            Some(c) => is_ident_start(c),
            None => false,
        };
        if begins {
            match self.read_word_as_str() {
                Ok(w) => Ok(Some(w)),
                Err(e) => Err(e),
            }
        } else {
            Ok(None)
        }
    }

    /// Reads the identifier or keyword at the cursor.
    pub fn read_ident_or_keyword(&mut self, ctx: Context) -> (r: Result<Token, LexError>)
        ensures
            final(self).lands(
                old(self).source(),
                viewed(r),
                ident_or_keyword(old(self).source(), old(self).cursor(), ctx),
            ),
    {
        let lo = self.cur_pos();
        let (text, has_escape) = match self.read_word_as_str() {
            Ok(w) => w,
            Err(e) => {
                return Err(e);
            },
        };
        if has_escape && ctx.is_reserved_word(&text) {
            Err(self.error_from(lo, SyntaxError::EscapeInReservedWord))
        } else {
            Ok(make_word_token(&text, has_escape))
        }
    }
}

} // verus!
