//! Runs of digits in the source.

use vstd::prelude::*;
use crate::chars::{digit_value, to_digit};
use crate::input::{char_at, Input};

verus! {

/// The value of the character at position `i` as a digit of the given
/// radix, if there is such a character and it is such a digit.
pub open spec fn digit_at(s: Seq<char>, i: int, radix: nat) -> Option<nat> {
    match char_at(s, i) {
        Some(c) => digit_value(c, radix),
        None => None,
    }
}

/// The position behind the longest run of digits that begins at `i`.
pub open spec fn run_end(s: Seq<char>, i: int, radix: nat) -> int
    decreases s.len() - i,
{
    if digit_at(s, i, radix) is Some {
        run_end(s, i + 1, radix)
    } else {
        i
    }
}

/// The number that the digits from `i` up to `j` stand for.
pub open spec fn run_value(s: Seq<char>, i: int, j: int, radix: nat) -> nat
    decreases j - i,
{
    if j <= i {
        0
    } else {
        run_value(s, i, j - 1, radix) * radix + digit_at(s, j - 1, radix).unwrap_or(0)
    }
}

/// The values of the digits from `i` up to `j`, one by one.
pub open spec fn run_digits(s: Seq<char>, i: int, j: int, radix: nat) -> Seq<u8> {
    Seq::new(
        if j >= i {
            (j - i) as nat
        } else {
            0
        },
        |k: int| digit_at(s, i + k, radix).unwrap_or(0) as u8,
    )
}

/// A run ends at or behind its start, inside the source, and holds digits
/// only.
pub proof fn lemma_run_end(s: Seq<char>, i: int, radix: nat)
    requires
        0 <= i <= s.len(),
    ensures
        i <= run_end(s, i, radix) <= s.len(),
        forall|k: int| i <= k < run_end(s, i, radix) ==> (#[trigger] digit_at(s, k, radix)) is Some,
        digit_at(s, run_end(s, i, radix), radix) is None,
    decreases s.len() - i,
{
    if digit_at(s, i, radix) is Some {
        lemma_run_end(s, i + 1, radix);
    }
}

impl Input {
    /// The character at the cursor as a digit of the given radix.
    pub fn digit_here(&self, radix: u8) -> (r: Option<u8>)
        requires
            radix <= 36,
        ensures
            match digit_at(self.source(), self.cursor(), radix as nat) {
                Some(v) => r == Some(v as u8),
                None => r is None,
            },
            0 <= self.cursor() <= self.source().len(),
    {
        match self.current() {
            Some(c) => to_digit(c, radix),
            None => None,
        }
    }

    /// Reads the longest run of digits at the cursor and returns their
    /// values.
    pub fn read_digits(&mut self, radix: u8) -> (r: Vec<u8>)
        requires
            radix <= 36,
        ensures
            final(self).source() == old(self).source(),
            final(self).cursor() == run_end(old(self).source(), old(self).cursor(), radix as nat),
            r@ == run_digits(
                old(self).source(),
                old(self).cursor(),
                final(self).cursor(),
                radix as nat,
            ),
            old(self).cursor() <= final(self).cursor() <= old(self).source().len(),
    {
        let ghost s = self.source();
        let ghost i0 = self.cursor();
        let mut out: Vec<u8> = Vec::new();
        let mut d = self.digit_here(radix);
        while d.is_some()
            invariant
                radix <= 36,
                self.source() == s,
                i0 <= self.cursor() <= s.len(),
                run_end(s, self.cursor(), radix as nat) == run_end(s, i0, radix as nat),
                out@ == run_digits(s, i0, self.cursor(), radix as nat),
                match digit_at(s, self.cursor(), radix as nat) {
                    Some(v) => d == Some(v as u8),
                    None => d is None,
                },
            decreases s.len() - self.cursor(),
        {
            let ghost i = self.cursor();
            out.push(d.unwrap());
            self.bump();
            d = self.digit_here(radix);
            assert(out@ =~= run_digits(s, i0, i + 1, radix as nat));
        }
        out
    }
}

} // verus!
