//! Numeric literals.

use vstd::prelude::*;
use crate::chars::{decimal_digit, ident_start, is_decimal_digit, is_ident_start};
use crate::digits::{digit_at, lemma_run_end, run_digits, run_end};
use crate::error::{LexError, SyntaxError};
use crate::input::{char_at, fail, offset, viewed, Input, Scan};
use crate::token::{Number, NumberView, Token, TokenView};

verus! {

/// Whether an identifier or a further digit begins at `i`. No number may end
/// there.
pub open spec fn runs_on(s: Seq<char>, i: int) -> bool {
    match char_at(s, i) {
        Some(c) => ident_start(c) || decimal_digit(c),
        None => false,
    }
}

/// The number `n`, read from byte `lo` up to position `end`, unless it runs
/// straight into an identifier or a digit.
pub open spec fn finish_number(s: Seq<char>, lo: usize, n: NumberView, end: int) -> Scan<
    TokenView,
> {
    if runs_on(s, end) {
        fail(s, SyntaxError::InvalidNumber, lo, end)
    } else {
        Scan::Done { value: TokenView::Num(n), end }
    }
}

/// A number without fraction and exponent.
pub open spec fn plain(radix: u8, int_digits: Seq<u8>) -> NumberView {
    NumberView {
        radix,
        int_digits,
        frac_digits: Seq::empty(),
        exp_negative: false,
        exp_digits: Seq::empty(),
    }
}

/// The radix that the prefix at `i` announces: `0x`, `0o` or `0b`, in
/// either case of the letter.
pub open spec fn radix_prefix(s: Seq<char>, i: int) -> Option<u8> {
    if char_at(s, i) == Some('0') {
        match char_at(s, i + 1) {
            Some(c) => if c == 'x' || c == 'X' {
                Some(16u8)
            } else if c == 'o' || c == 'O' {
                Some(8u8)
            } else if c == 'b' || c == 'B' {
                Some(2u8)
            } else {
                None
            },
            None => None,
        }
    } else {
        None
    }
}

/// The literal with a radix prefix that begins at `i`, with `0`: the prefix
/// of two characters and then at least one digit of that radix.
pub open spec fn radix_number(s: Seq<char>, i: int, radix: u8) -> Scan<TokenView> {
    let lo = offset(s, i) as usize;
    let j = run_end(s, i + 2, radix as nat);
    if j == i + 2 {
        fail(s, SyntaxError::InvalidNumber, lo, j)
    } else {
        finish_number(s, lo, plain(radix, run_digits(s, i + 2, j, radix as nat)), j)
    }
}

/// Whether `e` or `E` stands at `i`.
pub open spec fn exp_mark(s: Seq<char>, i: int) -> bool {
    char_at(s, i) == Some('e') || char_at(s, i) == Some('E')
}

/// Whether `+` or `-` stands at `i`.
pub open spec fn sign_mark(s: Seq<char>, i: int) -> bool {
    char_at(s, i) == Some('+') || char_at(s, i) == Some('-')
}

/// The position behind the fraction that begins at `j`, if one does: a dot
/// and the digits behind it.
pub open spec fn fraction_end(s: Seq<char>, j: int) -> int {
    if char_at(s, j) == Some('.') {
        run_end(s, j + 1, 10)
    } else {
        j
    }
}

/// What follows the integer part `int_digits` of a decimal literal, from
/// `j` on: a fraction, if a dot stands there, and then an exponent, if `e`
/// or `E` stands there, which is an optional sign and at least one digit.
pub open spec fn decimal_tail(s: Seq<char>, lo: usize, int_digits: Seq<u8>, j: int) -> Scan<
    TokenView,
> {
    let k = fraction_end(s, j);
    let frac_digits = run_digits(s, j + 1, k, 10);
    if exp_mark(s, k) {
        let m = if sign_mark(s, k + 1) {
            k + 2
        } else {
            k + 1
        };
        let n = run_end(s, m, 10);
        if n == m {
            fail(s, SyntaxError::InvalidNumber, lo, n)
        } else {
            finish_number(
                s,
                lo,
                NumberView {
                    radix: 10,
                    int_digits,
                    frac_digits,
                    exp_negative: char_at(s, k + 1) == Some('-'),
                    exp_digits: run_digits(s, m, n, 10),
                },
                n,
            )
        }
    } else {
        finish_number(
            s,
            lo,
            NumberView {
                radix: 10,
                int_digits,
                frac_digits,
                exp_negative: false,
                exp_digits: Seq::empty(),
            },
            k,
        )
    }
}

/// Whether every digit from `i` up to `j` is an octal one.
pub open spec fn all_octal(s: Seq<char>, i: int, j: int) -> bool {
    forall|k: int| i <= k < j ==> (#[trigger] digit_at(s, k, 8)) is Some
}

/// The literal without a radix prefix that begins at `i`, with a digit or
/// with the dot of a fraction. Digits behind a leading zero are an error in
/// strict code; elsewhere they make a legacy octal number if all of them are
/// octal digits, and a decimal number if not.
pub open spec fn number(s: Seq<char>, i: int, strict: bool) -> Scan<TokenView> {
    let lo = offset(s, i) as usize;
    if char_at(s, i) == Some('.') {
        decimal_tail(s, lo, Seq::empty(), i)
    } else {
        let j = run_end(s, i, 10);
        if char_at(s, i) == Some('0') && j > i + 1 {
            if strict {
                fail(s, SyntaxError::LegacyOctal, lo, j)
            } else if all_octal(s, i, j) {
                finish_number(s, lo, plain(8, run_digits(s, i, j, 8)), j)
            } else {
                decimal_tail(s, lo, run_digits(s, i, j, 10), j)
            }
        } else {
            decimal_tail(s, lo, run_digits(s, i, j, 10), j)
        }
    }
}

/// The digits of a run are below the radix.
pub proof fn lemma_run_digits(s: Seq<char>, i: int, j: int, radix: nat)
    requires
        0 <= i,
        j <= run_end(s, i, radix),
        radix <= 36,
    ensures
        forall|k: int| 0 <= k < j - i ==> (#[trigger] run_digits(s, i, j, radix)[k]) < radix,
{
    if i <= s.len() {
        lemma_run_end(s, i, radix);
        assert forall|k: int| 0 <= k < j - i implies (#[trigger] run_digits(s, i, j, radix)[k])
            < radix by {
            assert(digit_at(s, i + k, radix) is Some);
        }
    } else {
        assert(run_end(s, i, radix) == i);
    }
}

/// A literal with a radix prefix ends behind its prefix, inside the
/// source, and its digits are digits of its radix.
pub proof fn lemma_radix_number(s: Seq<char>, i: int, radix: u8)
    requires
        0 <= i,
        i + 2 <= s.len(),
        radix == 2 || radix == 8 || radix == 16,
    ensures
        match radix_number(s, i, radix) {
            Scan::Done { value, end } => i + 2 < end <= s.len() && value is Num && value->Num_0.wf(),
            Scan::Fail { error, end } => i + 2 <= end <= s.len() && error.kind.is_lexical(),
        },
{
    lemma_run_end(s, i + 2, radix as nat);
    let j = run_end(s, i + 2, radix as nat);
    lemma_run_digits(s, i + 2, j, radix as nat);
}

/// What follows the integer part of a decimal literal ends at or behind
/// its start, inside the source, and makes a well-formed number of
/// well-formed integer digits.
pub proof fn lemma_decimal_tail(s: Seq<char>, lo: usize, int_digits: Seq<u8>, j: int)
    requires
        0 <= j <= s.len(),
        forall|k: int| 0 <= k < int_digits.len() ==> (#[trigger] int_digits[k]) < 10,
    ensures
        match decimal_tail(s, lo, int_digits, j) {
            Scan::Done { value, end } => j <= end <= s.len() && (char_at(s, j) == Some('.') ==> j
                < end) && value is Num && value->Num_0.wf(),
            Scan::Fail { error, end } => j <= end <= s.len() && error.kind.is_lexical(),
        },
{
    let k = fraction_end(s, j);
    if char_at(s, j) == Some('.') {
        lemma_run_end(s, j + 1, 10);
        lemma_run_digits(s, j + 1, k, 10);
    }
    if exp_mark(s, k) {
        let m = if sign_mark(s, k + 1) {
            k + 2
        } else {
            k + 1
        };
        lemma_run_end(s, m, 10);
        lemma_run_digits(s, m, run_end(s, m, 10), 10);
    }
}

/// A literal without a radix prefix ends behind its start, inside the
/// source, and is a well-formed number.
pub proof fn lemma_number(s: Seq<char>, i: int, strict: bool)
    requires
        0 <= i < s.len(),
        decimal_digit(s[i]) || s[i] == '.',
    ensures
        match number(s, i, strict) {
            Scan::Done { value, end } => i < end <= s.len() && value is Num && value->Num_0.wf(),
            Scan::Fail { error, end } => i <= end <= s.len() && error.kind.is_lexical(),
        },
{
    let lo = offset(s, i) as usize;
    if s[i] == '.' {
        lemma_decimal_tail(s, lo, Seq::empty(), i);
    } else {
        lemma_run_end(s, i, 10);
        let j = run_end(s, i, 10);
        assert(digit_at(s, i, 10) is Some);
        lemma_run_digits(s, i, j, 10);
        lemma_decimal_tail(s, lo, run_digits(s, i, j, 10), j);
        if all_octal(s, i, j) {
            lemma_octal_digits(s, i, j);
        }
    }
}

/// Whether every digit in `digits` is below 8.
fn below_eight(digits: &Vec<u8>) -> (r: bool)
    ensures
        r == (forall|k: int| 0 <= k < digits.len() ==> digits[k] < 8),
{
    let mut i: usize = 0;
    while i < digits.len()
        invariant
            i <= digits.len(),
            forall|k: int| 0 <= k < i ==> digits[k] < 8,
        decreases digits.len() - i,
    {
        if digits[i] >= 8 {
            return false;
        }
        i += 1;
    }
    true
}

/// Decimal digits below 8 are the octal digits, with the same values.
proof fn lemma_octal_digits(s: Seq<char>, i: int, j: int)
    requires
        0 <= i <= j <= s.len(),
        forall|k: int| i <= k < j ==> (#[trigger] digit_at(s, k, 10)) is Some,
    ensures
        all_octal(s, i, j) == (forall|k: int|
            0 <= k < j - i ==> (#[trigger] run_digits(s, i, j, 10)[k]) < 8),
        all_octal(s, i, j) ==> run_digits(s, i, j, 8) == run_digits(s, i, j, 10),
{
    let dec = run_digits(s, i, j, 10);
    if all_octal(s, i, j) {
        assert forall|k: int| 0 <= k < j - i implies (#[trigger] dec[k]) < 8 by {
            assert(digit_at(s, i + k, 8) is Some);
        }
        assert forall|k: int| 0 <= k < j - i implies run_digits(s, i, j, 8)[k] == dec[k] by {
            assert(digit_at(s, i + k, 8) is Some);
        }
        assert(run_digits(s, i, j, 8) =~= dec);
    }
    if forall|k: int| 0 <= k < j - i ==> (#[trigger] dec[k]) < 8 {
        assert forall|k: int| i <= k < j implies (#[trigger] digit_at(s, k, 8)) is Some by {
            assert(digit_at(s, k, 10) is Some);
            assert(dec[k - i] < 8);
        }
    }
}

impl Input {
    /// Whether an identifier or a digit begins at the cursor.
    fn runs_on_here(&self) -> (r: bool)
        ensures
            r == runs_on(self.source(), self.cursor()),
    {
        match self.current() {
            Some(c) => is_ident_start(c) || is_decimal_digit(c),
            None => false,
        }
    }

    /// Ends a numeric literal that began at byte `lo`, at the cursor.
    fn finish_number(&self, lo: usize, n: Number) -> (r: Result<Token, LexError>)
        ensures
            self.lands(
                self.source(),
                viewed(r),
                finish_number(self.source(), lo, n@, self.cursor()),
            ),
    {
        if self.runs_on_here() {
            Err(self.error_from(lo, SyntaxError::InvalidNumber))
        } else {
            Ok(Token::Num(n))
        }
    }

    /// Reads the literal with a radix prefix at the cursor: `0`, the letter
    /// of the radix, and the digits.
    pub fn read_radix_number(&mut self, radix: u8) -> (r: Result<Token, LexError>)
        requires
            radix_prefix(old(self).source(), old(self).cursor()) == Some(radix),
        ensures
            final(self).lands(
                old(self).source(),
                viewed(r),
                radix_number(old(self).source(), old(self).cursor(), radix),
            ),
    {
        let lo = self.cur_pos();
        self.bump();
        self.bump();
        let digits = self.read_digits(radix);
        if digits.len() == 0 {
            return Err(self.error_from(lo, SyntaxError::InvalidNumber));
        }
        self.finish_number(
            lo,
            Number {
                radix,
                int_digits: digits,
                frac_digits: Vec::new(),
                exp_negative: false,
                exp_digits: Vec::new(),
            },
        )
    }

    /// Reads what follows the integer part of a decimal literal that began
    /// at byte `lo`.
    fn read_decimal_tail(&mut self, lo: usize, int_digits: Vec<u8>) -> (r: Result<Token, LexError>)
        ensures
            final(self).lands(
                old(self).source(),
                viewed(r),
                decimal_tail(old(self).source(), lo, int_digits@, old(self).cursor()),
            ),
    {
        let ghost s = self.source();
        let ghost j = self.cursor();
        let frac_digits = if self.eat('.') {
            self.read_digits(10)
        } else {
            Vec::new()
        };
        assert(frac_digits@ =~= run_digits(s, j + 1, fraction_end(s, j), 10));
        let ghost k = self.cursor();
        if self.is('e') || self.is('E') {
            self.bump();
            let negative = self.is('-');
            if negative || self.is('+') {
                self.bump();
            }
            let ghost m = self.cursor();
            let exp_digits = self.read_digits(10);
            if exp_digits.len() == 0 {
                return Err(self.error_from(lo, SyntaxError::InvalidNumber));
            }
            self.finish_number(
                lo,
                Number { radix: 10, int_digits, frac_digits, exp_negative: negative, exp_digits },
            )
        } else {
            self.finish_number(
                lo,
                Number {
                    radix: 10,
                    int_digits,
                    frac_digits,
                    exp_negative: false,
                    exp_digits: Vec::new(),
                },
            )
        }
    }

    /// Reads the literal without a radix prefix at the cursor, which begins
    /// with a digit or with the dot of a fraction.
    pub fn read_number(&mut self, strict: bool) -> (r: Result<Token, LexError>)
        requires
            match char_at(old(self).source(), old(self).cursor()) {
                Some(c) => decimal_digit(c) || (c == '.' && digit_at(
                    old(self).source(),
                    old(self).cursor() + 1,
                    10,
                ) is Some),
                None => false,
            },
        ensures
            final(self).lands(
                old(self).source(),
                viewed(r),
                number(old(self).source(), old(self).cursor(), strict),
            ),
    {
        let ghost s = self.source();
        let ghost i = self.cursor();
        let lo = self.cur_pos();
        if self.is('.') {
            return self.read_decimal_tail(lo, Vec::new());
        }
        let leading_zero = self.is('0');
        let digits = self.read_digits(10);
        proof {
            lemma_run_end(s, i, 10);
        }
        if leading_zero && digits.len() > 1 {
            if strict {
                return Err(self.error_from(lo, SyntaxError::LegacyOctal));
            }
            proof {
                lemma_octal_digits(s, i, self.cursor());
            }
            if below_eight(&digits) {
                return self.finish_number(
                    lo,
                    Number {
                        radix: 8,
                        int_digits: digits,
                        frac_digits: Vec::new(),
                        exp_negative: false,
                        exp_digits: Vec::new(),
                    },
                );
            }
        }
        self.read_decimal_tail(lo, digits)
    }
}

} // verus!
