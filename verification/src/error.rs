//! Lexical errors.

use vstd::prelude::*;
use crate::token::Span;

verus! {

/// The kinds of lexical error.
#[derive(Clone, Copy, Debug, PartialEq, Eq, Structural)]
pub enum SyntaxError {
    /// A character that begins no token.
    UnexpectedChar { c: char },
    /// A backslash at the very end of the input.
    InvalidStrEscape,
    /// `\x` or `\u` without that many hexadecimal digits behind it.
    ExpectedHexChars { count: u8 },
    /// `\uHHHH` that names a surrogate, which no string can hold.
    NonUtf8Char { val: u32 },
    /// `\u{...` without the closing brace.
    InvalidUnicodeEscape,
    /// `\u{...}` without digits, or above `0x10FFFF`, or a surrogate.
    InvalidCodePoint,
    /// An escape in an identifier that decodes to a character which may not
    /// stand there.
    InvalidIdentChar,
    /// A backslash in an identifier that is not followed by `u`.
    ExpectedUnicodeEscape,
    /// A reserved word spelled with an escape.
    EscapeInReservedWord,
    /// A number with a leading zero in strict code, or an octal escape in
    /// strict code or in a template.
    LegacyOctal,
    /// An HTML-like comment in module code. The lexer reads such characters
    /// as operators in module code and never reports this; the kind is for
    /// the parser that drives it.
    LegacyCommentInModule,
    UnterminatedStrLit,
    UnterminatedRegxp,
    UnterminatedTpl,
    UnterminatedBlockComment,
    /// A numeric separator where none may stand. The lexer reads no
    /// separators and never reports this; the kind is for the parser that
    /// drives it.
    NumericSeparatorMisplaced,
    /// A radix prefix or an exponent mark without digits, or a number that
    /// runs straight into an identifier or a further digit.
    InvalidNumber,
}

impl SyntaxError {
    /// Whether the lexer reports errors of this kind. It reports all but the
    /// two that are kept for the parser.
    pub open spec fn is_lexical(self) -> bool {
        !(self is LegacyCommentInModule) && !(self is NumericSeparatorMisplaced)
    }
}

/// A lexical error with the place it was found at.
#[derive(Clone, Copy, Debug, PartialEq, Eq, Structural)]
pub struct LexError {
    pub kind: SyntaxError,
    pub span: Span,
}

} // verus!
