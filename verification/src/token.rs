//! Tokens, their payloads and their source spans.

use vstd::prelude::*;

verus! {

/// A range of the source in bytes: `lo` is the first byte, `hi` the byte
/// after the last.
#[derive(Clone, Copy, Debug, PartialEq, Eq, Structural)]
pub struct Span {
    pub lo: usize,
    pub hi: usize,
}

/// Punctuators that are neither binary, assignment nor unary operators.
#[derive(Clone, Copy, Debug, PartialEq, Eq, Structural)]
pub enum Punct {
    /// `(`
    LParen,
    /// `)`
    RParen,
    /// `[`
    LBracket,
    /// `]`
    RBracket,
    /// `{`
    LBrace,
    /// `}`
    RBrace,
    /// `;`
    Semi,
    /// `,`
    Comma,
    /// `.`
    Dot,
    /// `...`
    DotDotDot,
    /// `:`
    Colon,
    /// `::`
    ColonColon,
    /// `?`
    QuestionMark,
    /// `@`
    At,
    /// `~`
    Tilde,
    /// `` ` ``
    Backtick,
    /// `${`
    DollarBrace,
    /// `=>`
    Arrow,
}

/// Binary operators.
#[derive(Clone, Copy, Debug, PartialEq, Eq, Structural)]
pub enum BinOp {
    /// `+`
    Add,
    /// `-`
    Sub,
    /// `*`
    Mul,
    /// `/`
    Div,
    /// `%`
    Mod,
    /// `**`
    Exp,
    /// `==`
    EqEq,
    /// `===`
    EqEqEq,
    /// `!=`
    NotEq,
    /// `!==`
    NotEqEq,
    /// `<`
    Lt,
    /// `<=`
    LtEq,
    /// `>`
    Gt,
    /// `>=`
    GtEq,
    /// `<<`
    LShift,
    /// `>>`
    RShift,
    /// `>>>`
    ZeroFillRShift,
    /// `&`
    BitAnd,
    /// `|`
    BitOr,
    /// `^`
    BitXor,
    /// `&&`
    LogicalAnd,
    /// `||`
    LogicalOr,
    /// `in`
    In,
    /// `instanceof`
    InstanceOf,
}

/// Assignment operators.
#[derive(Clone, Copy, Debug, PartialEq, Eq, Structural)]
pub enum AssignOp {
    /// `=`
    Assign,
    /// `+=`
    AddAssign,
    /// `-=`
    SubAssign,
    /// `*=`
    MulAssign,
    /// `/=`
    DivAssign,
    /// `%=`
    ModAssign,
    /// `**=`
    ExpAssign,
    /// `<<=`
    LShiftAssign,
    /// `>>=`
    RShiftAssign,
    /// `>>>=`
    ZeroFillRShiftAssign,
    /// `&=`
    BitAndAssign,
    /// `|=`
    BitOrAssign,
    /// `^=`
    BitXorAssign,
}

/// Operators that take one operand.
#[derive(Clone, Copy, Debug, PartialEq, Eq, Structural)]
pub enum UnaryOp {
    /// `!`
    Bang,
    /// `++`
    PlusPlus,
    /// `--`
    MinusMinus,
}

impl Punct {
    /// The characters that spell this punctuator.
    pub open spec fn spelling(self) -> Seq<char> {
        match self {
            Punct::LParen => seq!['('],
            Punct::RParen => seq![')'],
            Punct::LBracket => seq!['['],
            Punct::RBracket => seq![']'],
            Punct::LBrace => seq!['{'],
            Punct::RBrace => seq!['}'],
            Punct::Semi => seq![';'],
            Punct::Comma => seq![','],
            Punct::Dot => seq!['.'],
            Punct::DotDotDot => seq!['.', '.', '.'],
            Punct::Colon => seq![':'],
            Punct::ColonColon => seq![':', ':'],
            Punct::QuestionMark => seq!['?'],
            Punct::At => seq!['@'],
            Punct::Tilde => seq!['~'],
            Punct::Backtick => seq!['`'],
            Punct::DollarBrace => seq!['$', '{'],
            Punct::Arrow => seq!['=', '>'],
        }
    }
}

impl BinOp {
    /// The characters that spell this operator.
    pub open spec fn spelling(self) -> Seq<char> {
        match self {
            BinOp::Add => seq!['+'],
            BinOp::Sub => seq!['-'],
            BinOp::Mul => seq!['*'],
            BinOp::Div => seq!['/'],
            BinOp::Mod => seq!['%'],
            BinOp::Exp => seq!['*', '*'],
            BinOp::EqEq => seq!['=', '='],
            BinOp::EqEqEq => seq!['=', '=', '='],
            BinOp::NotEq => seq!['!', '='],
            BinOp::NotEqEq => seq!['!', '=', '='],
            BinOp::Lt => seq!['<'],
            BinOp::LtEq => seq!['<', '='],
            BinOp::Gt => seq!['>'],
            BinOp::GtEq => seq!['>', '='],
            BinOp::LShift => seq!['<', '<'],
            BinOp::RShift => seq!['>', '>'],
            BinOp::ZeroFillRShift => seq!['>', '>', '>'],
            BinOp::BitAnd => seq!['&'],
            BinOp::BitOr => seq!['|'],
            BinOp::BitXor => seq!['^'],
            BinOp::LogicalAnd => seq!['&', '&'],
            BinOp::LogicalOr => seq!['|', '|'],
            BinOp::In => seq!['i', 'n'],
            BinOp::InstanceOf => seq!['i', 'n', 's', 't', 'a', 'n', 'c', 'e', 'o', 'f'],
        }
    }
}

impl AssignOp {
    /// The characters that spell this operator.
    pub open spec fn spelling(self) -> Seq<char> {
        match self {
            AssignOp::Assign => seq!['='],
            AssignOp::AddAssign => seq!['+', '='],
            AssignOp::SubAssign => seq!['-', '='],
            AssignOp::MulAssign => seq!['*', '='],
            AssignOp::DivAssign => seq!['/', '='],
            AssignOp::ModAssign => seq!['%', '='],
            AssignOp::ExpAssign => seq!['*', '*', '='],
            AssignOp::LShiftAssign => seq!['<', '<', '='],
            AssignOp::RShiftAssign => seq!['>', '>', '='],
            AssignOp::ZeroFillRShiftAssign => seq!['>', '>', '>', '='],
            AssignOp::BitAndAssign => seq!['&', '='],
            AssignOp::BitOrAssign => seq!['|', '='],
            AssignOp::BitXorAssign => seq!['^', '='],
        }
    }
}

impl UnaryOp {
    /// The characters that spell this operator.
    pub open spec fn spelling(self) -> Seq<char> {
        match self {
            UnaryOp::Bang => seq!['!'],
            UnaryOp::PlusPlus => seq!['+', '+'],
            UnaryOp::MinusMinus => seq!['-', '-'],
        }
    }
}

/// Words that are emitted as keywords (`in` and `instanceof` are binary
/// operators, and `null`, `true` and `false` are words of their own).
#[derive(Clone, Copy, Debug, PartialEq, Eq, Structural)]
pub enum Keyword {
    Await,
    Break,
    Case,
    Catch,
    Class,
    Const,
    Continue,
    Debugger,
    Default_,
    Delete,
    Do,
    Else,
    Export,
    Extends,
    Finally,
    For,
    Function,
    If,
    Import,
    Let,
    New,
    Return,
    Super,
    Switch,
    This,
    Throw,
    Try,
    TypeOf,
    Var,
    Void,
    While,
    With,
    Yield,
}

/// A word in canonical form: a keyword, one of the three literal words, or
/// an identifier with its decoded name.
#[derive(Clone, Debug, PartialEq, Eq)]
pub enum Word {
    Keyword(Keyword),
    Null,
    True,
    False,
    Ident(String),
}

/// The mathematical value of a [`Word`].
pub enum WordView {
    Keyword(Keyword),
    Null,
    True,
    False,
    Ident(Seq<char>),
}

impl View for Word {
    type V = WordView;

    open spec fn view(&self) -> WordView {
        match self {
            Word::Keyword(k) => WordView::Keyword(*k),
            Word::Null => WordView::Null,
            Word::True => WordView::True,
            Word::False => WordView::False,
            Word::Ident(name) => WordView::Ident(name@),
        }
    }
}

/// A numeric literal, kept exactly: the digits of its integer part, of its
/// fraction and of its exponent, each as digit values in source order. The
/// literal stands for
/// `(integer part + fraction) * 10^exponent`, with the integer part read in
/// `radix`; only literals of radix 10 have a fraction or an exponent.
#[derive(Clone, Debug, PartialEq, Eq)]
pub struct Number {
    /// 2, 8, 10 or 16.
    pub radix: u8,
    pub int_digits: Vec<u8>,
    pub frac_digits: Vec<u8>,
    pub exp_negative: bool,
    pub exp_digits: Vec<u8>,
}

/// The mathematical value of a [`Number`].
pub struct NumberView {
    pub radix: u8,
    pub int_digits: Seq<u8>,
    pub frac_digits: Seq<u8>,
    pub exp_negative: bool,
    pub exp_digits: Seq<u8>,
}

impl View for Number {
    type V = NumberView;

    open spec fn view(&self) -> NumberView {
        NumberView {
            radix: self.radix,
            int_digits: self.int_digits@,
            frac_digits: self.frac_digits@,
            exp_negative: self.exp_negative,
            exp_digits: self.exp_digits@,
        }
    }
}

/// The number that a sequence of digits stands for in the given radix, most
/// significant digit first.
pub open spec fn digits_value(digits: Seq<u8>, radix: nat) -> nat
    decreases digits.len(),
{
    if digits.len() == 0 {
        0
    } else {
        digits_value(digits.drop_last(), radix) * radix + digits.last() as nat
    }
}

impl NumberView {
    /// Every digit is below the radix, and only a decimal literal has a
    /// fraction or an exponent.
    pub open spec fn wf(self) -> bool {
        &&& (self.radix == 2 || self.radix == 8 || self.radix == 10 || self.radix == 16)
        &&& forall|k: int|
            0 <= k < self.int_digits.len() ==> #[trigger] self.int_digits[k] < self.radix
        &&& forall|k: int| 0 <= k < self.frac_digits.len() ==> #[trigger] self.frac_digits[k] < 10
        &&& forall|k: int| 0 <= k < self.exp_digits.len() ==> #[trigger] self.exp_digits[k] < 10
        &&& self.radix != 10 ==> self.frac_digits.len() == 0 && self.exp_digits.len() == 0
            && !self.exp_negative
    }

    /// Whether the literal is written as a plain integer: no fraction digits
    /// and no exponent.
    pub open spec fn is_plain_integer(self) -> bool {
        self.frac_digits.len() == 0 && self.exp_digits.len() == 0
    }

    /// The value of the integer part.
    pub open spec fn int_value(self) -> nat {
        digits_value(self.int_digits, self.radix as nat)
    }

    /// The digits of the integer part and of the fraction as one number:
    /// the literal stands for `mantissa() * 10^exponent()`.
    pub open spec fn mantissa(self) -> nat {
        digits_value(self.int_digits + self.frac_digits, self.radix as nat)
    }

    /// The power of ten that scales the mantissa: the exponent that is
    /// written, less the number of fraction digits.
    pub open spec fn exponent(self) -> int {
        let written = digits_value(self.exp_digits, 10) as int;
        (if self.exp_negative {
            -written
        } else {
            written
        }) - self.frac_digits.len()
    }
}

/// Each step of `digits_value` can only grow the number, as long as the
/// radix is not zero.
pub proof fn lemma_digits_value_prefix(digits: Seq<u8>, radix: nat, n: int)
    requires
        radix >= 1,
        0 <= n <= digits.len(),
    ensures
        digits_value(digits.take(n), radix) <= digits_value(digits, radix),
    decreases digits.len(),
{
    if n == digits.len() {
        assert(digits.take(n) =~= digits);
    } else {
        let init = digits.drop_last();
        assert(init.take(n) =~= digits.take(n));
        lemma_digits_value_prefix(init, radix, n);
        assert(digits_value(init, radix) <= digits_value(init, radix) * radix)
            by (nonlinear_arith)
            requires
                radix >= 1,
        ;
    }
}

impl Number {
    /// The value of a literal written as a plain integer, when it fits in 64
    /// bits; nothing for a literal with a fraction or an exponent, or one
    /// that is too large.
    pub fn integer_value(&self) -> (r: Option<u64>)
        ensures
            match r {
                Some(v) => self@.is_plain_integer() && v == self@.int_value(),
                None => !self@.is_plain_integer() || self@.int_value() > u64::MAX,
            },
    {
        if self.frac_digits.len() != 0 || self.exp_digits.len() != 0 {
            return None;
        }
        let radix: u64 = self.radix as u64;
        let mut value: u64 = 0;
        let mut i: usize = 0;
        while i < self.int_digits.len()
            invariant
                i <= self.int_digits.len(),
                radix == self.radix,
                value == digits_value(self.int_digits@.take(i as int), radix as nat),
            decreases self.int_digits.len() - i,
        {
            let d: u64 = self.int_digits[i] as u64;
            proof {
                let next = self.int_digits@.take(i + 1);
                assert(next.drop_last() =~= self.int_digits@.take(i as int));
                assert(next.last() == self.int_digits@[i as int]);
                if radix >= 1 {
                    lemma_digits_value_prefix(self.int_digits@, radix as nat, i + 1);
                } else {
                    assert(value * radix == 0) by (nonlinear_arith)
                        requires
                            radix == 0,
                    ;
                }
            }
            let scaled = match value.checked_mul(radix) {
                Some(v) => v,
                None => {
                    return None;
                },
            };
            value = match scaled.checked_add(d) {
                Some(v) => v,
                None => {
                    return None;
                },
            };
            i += 1;
        }
        assert(self.int_digits@.take(i as int) =~= self.int_digits@);
        Some(value)
    }
}

/// What the lexer produces.
#[derive(Clone, Debug, PartialEq, Eq)]
pub enum Token {
    Punct(Punct),
    BinOp(BinOp),
    AssignOp(AssignOp),
    Unary(UnaryOp),
    /// An identifier or keyword; `has_escape` tells whether the source
    /// spelled any of its characters as a `\u` escape.
    Word { word: Word, has_escape: bool },
    Num(Number),
    /// A string literal with its decoded value; `has_escape` tells whether
    /// the source held a backslash.
    Str { value: String, has_escape: bool },
    /// The decoded text of one chunk of a template literal.
    Template(String),
    /// A regular expression literal: the raw text between the slashes and
    /// the raw flags.
    Regex { pattern: String, flags: String },
}

/// The mathematical value of a [`Token`].
pub enum TokenView {
    Punct(Punct),
    BinOp(BinOp),
    AssignOp(AssignOp),
    Unary(UnaryOp),
    Word { word: WordView, has_escape: bool },
    Num(NumberView),
    Str { value: Seq<char>, has_escape: bool },
    Template(Seq<char>),
    Regex { pattern: Seq<char>, flags: Seq<char> },
}

impl View for Token {
    type V = TokenView;

    open spec fn view(&self) -> TokenView {
        match self {
            Token::Punct(p) => TokenView::Punct(*p),
            Token::BinOp(op) => TokenView::BinOp(*op),
            Token::AssignOp(op) => TokenView::AssignOp(*op),
            Token::Unary(op) => TokenView::Unary(*op),
            Token::Word { word, has_escape } => TokenView::Word {
                word: word@,
                has_escape: *has_escape,
            },
            Token::Num(n) => TokenView::Num(n@),
            Token::Str { value, has_escape } => TokenView::Str {
                value: value@,
                has_escape: *has_escape,
            },
            Token::Template(text) => TokenView::Template(text@),
            Token::Regex { pattern, flags } => TokenView::Regex {
                pattern: pattern@,
                flags: flags@,
            },
        }
    }
}

/// The identity of a token without its payload.
#[derive(Clone, Copy, Debug, PartialEq, Eq, Structural)]
pub enum TokenKind {
    Punct(Punct),
    BinOp(BinOp),
    AssignOp(AssignOp),
    Unary(UnaryOp),
    Keyword(Keyword),
    Null,
    True,
    False,
    Ident,
    Num,
    Str,
    Template,
    Regex,
}

impl TokenView {
    /// The identity of this token without its payload.
    pub open spec fn kind(self) -> TokenKind {
        match self {
            TokenView::Punct(p) => TokenKind::Punct(p),
            TokenView::BinOp(op) => TokenKind::BinOp(op),
            TokenView::AssignOp(op) => TokenKind::AssignOp(op),
            TokenView::Unary(op) => TokenKind::Unary(op),
            TokenView::Word { word, has_escape } => match word {
                WordView::Keyword(k) => TokenKind::Keyword(k),
                WordView::Null => TokenKind::Null,
                WordView::True => TokenKind::True,
                WordView::False => TokenKind::False,
                WordView::Ident(_) => TokenKind::Ident,
            },
            TokenView::Num(_) => TokenKind::Num,
            TokenView::Str { value, has_escape } => TokenKind::Str,
            TokenView::Template(_) => TokenKind::Template,
            TokenView::Regex { pattern, flags } => TokenKind::Regex,
        }
    }
}

impl Token {
    /// The identity of this token without its payload.
    pub fn kind(&self) -> (r: TokenKind)
        ensures
            r == self@.kind(),
    {
        match self {
            Token::Punct(p) => TokenKind::Punct(*p),
            Token::BinOp(op) => TokenKind::BinOp(*op),
            Token::AssignOp(op) => TokenKind::AssignOp(*op),
            Token::Unary(op) => TokenKind::Unary(*op),
            Token::Word { word, has_escape } => match word {
                Word::Keyword(k) => TokenKind::Keyword(*k),
                Word::Null => TokenKind::Null,
                Word::True => TokenKind::True,
                Word::False => TokenKind::False,
                Word::Ident(_) => TokenKind::Ident,
            },
            Token::Num(_) => TokenKind::Num,
            Token::Str { value, has_escape } => TokenKind::Str,
            Token::Template(_) => TokenKind::Template,
            Token::Regex { pattern, flags } => TokenKind::Regex,
        }
    }
}

/// A token with its place in the source.
#[derive(Clone, Debug, PartialEq, Eq)]
pub struct SpannedToken {
    pub token: Token,
    /// Whether a line terminator was passed on the way to this token.
    pub had_line_break: bool,
    pub span: Span,
}

} // verus!
