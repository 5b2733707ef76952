//! The source text as a sequence of code points with a cursor, and the byte
//! offset of every position in it.

use vstd::prelude::*;
use vstd::utf8::encode_utf8;
use crate::chars::{utf8_width, width_of};
use crate::error::{LexError, SyntaxError};
use crate::token::Span;

verus! {

/// The number of bytes that `s` takes in UTF-8.
pub open spec fn byte_len(s: Seq<char>) -> nat
    decreases s.len(),
{
    if s.len() == 0 {
        0
    } else {
        byte_len(s.drop_last()) + utf8_width(s.last())
    }
}

/// The byte offset of position `i` of `s`: the bytes that the first `i`
/// characters take.
pub open spec fn offset(s: Seq<char>, i: int) -> nat {
    if i <= 0 {
        0
    } else if i >= s.len() {
        byte_len(s)
    } else {
        byte_len(s.take(i))
    }
}

/// The character at position `i` of `s`, if there is one.
pub open spec fn char_at(s: Seq<char>, i: int) -> Option<char> {
    if 0 <= i < s.len() {
        Some(s[i])
    } else {
        None
    }
}

/// Whether a backslash stands somewhere from `i` up to `j`.
pub open spec fn has_backslash(s: Seq<char>, i: int, j: int) -> bool {
    exists|k: int| i <= k < j && 0 <= k < s.len() && #[trigger] s[k] == '\\'
}

/// The byte span that the characters from `start` up to `end` take.
pub open spec fn span_of(s: Seq<char>, start: int, end: int) -> Span {
    Span { lo: offset(s, start) as usize, hi: offset(s, end) as usize }
}

/// What a scanner makes of the source from some position on: a value and the
/// position behind what it read, or an error and the position it stopped at.
pub enum Scan<T> {
    Done { value: T, end: int },
    Fail { error: LexError, end: int },
}

/// The failure of the given kind that was found on the bytes from `lo` up
/// to position `end`, where the scanner stops.
pub open spec fn fail<T>(s: Seq<char>, kind: SyntaxError, lo: usize, end: int) -> Scan<T> {
    Scan::Fail {
        error: LexError { kind, span: Span { lo, hi: offset(s, end) as usize } },
        end,
    }
}

/// A result with its payload replaced by the payload's view.
pub open spec fn viewed<T: View>(r: Result<T, LexError>) -> Result<T::V, LexError> {
    match r {
        Ok(v) => Ok(v@),
        Err(e) => Err(e),
    }
}

/// One more character adds its width to the offset.
pub proof fn lemma_offset_step(s: Seq<char>, i: int)
    requires
        0 <= i < s.len(),
    ensures
        offset(s, i + 1) == offset(s, i) + utf8_width(s[i]),
{
    let t = s.take(i + 1);
    assert(t.drop_last() =~= s.take(i));
    assert(t.last() == s[i]);
    if i + 1 == s.len() {
        assert(t =~= s);
    }
    if i == 0 {
        assert(byte_len(s.take(0)) == 0);
    }
}

/// Offsets grow with positions.
pub proof fn lemma_offset_monotonic(s: Seq<char>, i: int, j: int)
    requires
        0 <= i <= j <= s.len(),
    ensures
        offset(s, i) <= offset(s, j),
        i < j ==> offset(s, i) < offset(s, j),
    decreases j - i,
{
    if i < j {
        lemma_offset_monotonic(s, i, j - 1);
        lemma_offset_step(s, j - 1);
    }
}

proof fn lemma_encoded_len_push(s: Seq<char>, c: char)
    ensures
        encode_utf8(s.push(c)).len() == encode_utf8(s).len() + utf8_width(c),
    decreases s.len(),
{
    if s.len() == 0 {
        assert(s.push(c).drop_first() =~= Seq::<char>::empty());
        assert(encode_utf8(Seq::<char>::empty()).len() == 0);
    } else {
        assert(s.push(c).drop_first() =~= s.drop_first().push(c));
        lemma_encoded_len_push(s.drop_first(), c);
    }
}

/// The UTF-8 encoding of `s` has `byte_len(s)` bytes.
pub proof fn lemma_encoded_len(s: Seq<char>)
    ensures
        encode_utf8(s).len() == byte_len(s),
    decreases s.len(),
{
    if s.len() > 0 {
        lemma_encoded_len(s.drop_last());
        lemma_encoded_len_push(s.drop_last(), s.last());
        assert(s.drop_last().push(s.last()) =~= s);
    }
}

/// The source text and a cursor into it.
pub struct Input {
    chars: Vec<char>,
    at: Place,
}

/// A position in the source, counted in code points and in bytes.
#[derive(Clone, Copy)]
struct Place {
    idx: usize,
    pos: usize,
}

impl Input {
    #[verifier::type_invariant]
    spec fn inv(&self) -> bool {
        &&& self.at.idx <= self.chars.len()
        &&& self.at.pos == offset(self.chars@, self.at.idx as int)
        &&& byte_len(self.chars@) <= usize::MAX
    }

    /// The code points of the source text.
    pub closed spec fn source(&self) -> Seq<char> {
        self.chars@
    }

    /// The position of the cursor: the number of code points behind it.
    pub closed spec fn cursor(&self) -> int {
        self.at.idx as int
    }

    /// An input over the code points of `src`, with the cursor at its start.
    pub fn new(src: &str) -> (r: Input)
        ensures
            r.source() == src@,
            r.cursor() == 0,
    {
        let bytes = src.as_bytes().len();
        let mut chars: Vec<char> = Vec::new();
        for c in it: src.chars()
            invariant
                it.seq() == src@,
                chars@ == src@.take(it.index()),
        {
            chars.push(c);
            assert(src@.take(it.index() + 1) =~= src@.take(it.index()).push(c));
        }
        proof {
            assert(src@.take(src@.len() as int) =~= src@);
            lemma_encoded_len(src@);
            assert(byte_len(chars@) == bytes);
        }
        Input { chars, at: Place { idx: 0, pos: 0 } }
    }

    /// The character at the cursor, or nothing at the end of the input.
    pub fn current(&self) -> (r: Option<char>)
        ensures
            r == char_at(self.source(), self.cursor()),
            0 <= self.cursor() <= self.source().len(),
    {
        proof {
            use_type_invariant(self);
        }
        if self.at.idx < self.chars.len() {
            Some(self.chars[self.at.idx])
        } else {
            None
        }
    }

    /// The character behind the one at the cursor.
    pub fn peek(&self) -> (r: Option<char>)
        ensures
            r == char_at(self.source(), self.cursor() + 1),
    {
        proof {
            use_type_invariant(self);
        }
        if self.at.idx < self.chars.len() && self.at.idx + 1 < self.chars.len() {
            Some(self.chars[self.at.idx + 1])
        } else {
            None
        }
    }

    /// The character two behind the one at the cursor.
    pub fn peek_ahead(&self) -> (r: Option<char>)
        ensures
            r == char_at(self.source(), self.cursor() + 2),
    {
        proof {
            use_type_invariant(self);
        }
        if self.at.idx < self.chars.len() && self.chars.len() - self.at.idx > 2 {
            Some(self.chars[self.at.idx + 2])
        } else {
            None
        }
    }

    /// The character `n` places behind the one at the cursor.
    pub fn peek_nth(&self, n: usize) -> (r: Option<char>)
        ensures
            r == char_at(self.source(), self.cursor() + n),
    {
        proof {
            use_type_invariant(self);
        }
        if n < self.chars.len() - self.at.idx {
            Some(self.chars[self.at.idx + n])
        } else {
            None
        }
    }

    /// Moves the cursor over one character; at the end of the input it
    /// stays.
    pub fn bump(&mut self)
        ensures
            final(self).source() == old(self).source(),
            final(self).cursor() == if old(self).cursor() < old(self).source().len() {
                old(self).cursor() + 1
            } else {
                old(self).cursor()
            },
    {
        proof {
            use_type_invariant(&*self);
        }
        if self.at.idx < self.chars.len() {
            let w = width_of(self.chars[self.at.idx]);
            proof {
                lemma_offset_step(self.chars@, self.at.idx as int);
                lemma_offset_monotonic(self.chars@, self.at.idx + 1, self.chars@.len() as int);
            }
            self.at = Place { idx: self.at.idx + 1, pos: self.at.pos + w };
        }
    }

    /// The byte offset of the cursor.
    pub fn cur_pos(&self) -> (r: usize)
        ensures
            r == offset(self.source(), self.cursor()),
            0 <= self.cursor() <= self.source().len(),
            byte_len(self.source()) <= usize::MAX,
    {
        proof {
            use_type_invariant(self);
        }
        self.at.pos
    }

    /// Whether the character at the cursor is `c`.
    pub fn is(&self, c: char) -> (r: bool)
        ensures
            r == (char_at(self.source(), self.cursor()) == Some(c)),
    {
        match self.current() {
            Some(d) => d == c,
            None => false,
        }
    }

    /// Moves over the character at the cursor if it is `c`, and tells
    /// whether it did.
    pub fn eat(&mut self, c: char) -> (r: bool)
        ensures
            final(self).source() == old(self).source(),
            r == (char_at(old(self).source(), old(self).cursor()) == Some(c)),
            final(self).cursor() == if r {
                old(self).cursor() + 1
            } else {
                old(self).cursor()
            },
    {
        if self.is(c) {
            self.bump();
            true
        } else {
            false
        }
    }

    /// Whether this input is where a scanner that computes `want` leaves an
    /// input over `source`, and `r` is what that scanner returns.
    pub open spec fn lands<T>(
        &self,
        source: Seq<char>,
        r: Result<T, LexError>,
        want: Scan<T>,
    ) -> bool {
        &&& self.source() == source
        &&& match want {
            Scan::Done { value, end } => r == Ok::<T, LexError>(value) && self.cursor() == end,
            Scan::Fail { error, end } => r == Err::<T, LexError>(error) && self.cursor() == end,
        }
    }

    /// Whether the cursor is at the end of the input.
    pub fn at_end(&self) -> (r: bool)
        ensures
            r == (self.cursor() >= self.source().len()),
    {
        proof {
            use_type_invariant(self);
        }
        self.at.idx >= self.chars.len()
    }

    /// The error of the given kind on the bytes from `start` up to the
    /// cursor.
    pub fn error_from(&self, start: usize, kind: SyntaxError) -> (r: LexError)
        ensures
            r == (LexError {
                kind,
                span: Span { lo: start, hi: offset(self.source(), self.cursor()) as usize },
            }),
    {
        LexError { kind, span: Span { lo: start, hi: self.cur_pos() } }
    }
}

} // verus!
