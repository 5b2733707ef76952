//! What the lexer remembers from one token to the next.

use vstd::prelude::*;
use crate::token::{Keyword, Punct, TokenKind, UnaryOp};

verus! {

/// One level of nesting inside a template literal.
#[derive(Clone, Copy, Debug, PartialEq, Eq, Structural)]
pub enum Frame {
    /// In the text of a template whose opening backtick is at byte `lo`.
    Template { lo: usize },
    /// In the expression of an interpolation, behind its `${`.
    Interp,
    /// In braces inside the expression of an interpolation.
    Brace,
}

/// The state that the lexer keeps between tokens.
#[derive(Clone, Debug, PartialEq, Eq)]
pub struct State {
    /// Whether a line terminator was passed on the way to the last token.
    /// The start of the input counts as one.
    pub had_line_break: bool,
    /// Whether a `/` that comes next begins a regular expression.
    pub is_expr_allowed: bool,
    /// Whether no token was read yet.
    pub is_first: bool,
    /// The kind of the last token.
    pub last_token_kind: Option<TokenKind>,
    /// The templates, interpolations and braces that are open, the innermost
    /// last.
    pub frames: Vec<Frame>,
}

/// The mathematical value of a [`State`].
pub struct StateView {
    pub had_line_break: bool,
    pub is_expr_allowed: bool,
    pub is_first: bool,
    pub last_token_kind: Option<TokenKind>,
    pub frames: Seq<Frame>,
}

impl View for State {
    type V = StateView;

    open spec fn view(&self) -> StateView {
        StateView {
            had_line_break: self.had_line_break,
            is_expr_allowed: self.is_expr_allowed,
            is_first: self.is_first,
            last_token_kind: self.last_token_kind,
            frames: self.frames@,
        }
    }
}

/// Whether an expression may begin behind a token of the given kind, where
/// `before` tells whether one might have begun in its place. It may behind
/// every punctuator and operator that cannot end an expression and behind
/// the keywords that take an operand; behind `++` and `--`, which stand on
/// either side of their operand, it may if it might before them; behind
/// everything else it may not.
pub open spec fn expr_allowed_after(kind: TokenKind, before: bool) -> bool {
    match kind {
        TokenKind::Punct(p) => p == Punct::LParen || p == Punct::LBracket || p == Punct::LBrace
            || p == Punct::Comma || p == Punct::Semi || p == Punct::Colon || p
            == Punct::ColonColon || p == Punct::QuestionMark || p == Punct::Arrow || p
            == Punct::DotDotDot || p == Punct::Tilde || p == Punct::DollarBrace,
        TokenKind::BinOp(_) => true,
        TokenKind::AssignOp(_) => true,
        TokenKind::Unary(op) => op == UnaryOp::Bang || before,
        TokenKind::Keyword(k) => k == Keyword::Return || k == Keyword::Throw || k
            == Keyword::TypeOf || k == Keyword::Delete || k == Keyword::Void || k == Keyword::New
            || k == Keyword::Do || k == Keyword::Else || k == Keyword::Case || k
            == Keyword::Yield || k == Keyword::Await,
        _ => false,
    }
}

/// The frames that are open behind a token of the given kind that began at
/// byte `lo`. A backtick closes the template whose text it ends and opens
/// one anywhere else; `${` opens an interpolation; inside an interpolation
/// `{` opens braces, and `}` closes the innermost braces or, where none are
/// open, the interpolation.
pub open spec fn frames_after(frames: Seq<Frame>, kind: TokenKind, lo: usize) -> Seq<Frame> {
    if kind == TokenKind::Punct(Punct::Backtick) {
        if frames.len() > 0 && frames.last() is Template {
            frames.drop_last()
        } else {
            frames.push(Frame::Template { lo })
        }
    } else if kind == TokenKind::Punct(Punct::DollarBrace) {
        frames.push(Frame::Interp)
    } else if kind == TokenKind::Punct(Punct::LBrace) {
        if frames.len() > 0 {
            frames.push(Frame::Brace)
        } else {
            frames
        }
    } else if kind == TokenKind::Punct(Punct::RBrace) {
        if frames.len() > 0 && !(frames.last() is Template) {
            frames.drop_last()
        } else {
            frames
        }
    } else {
        frames
    }
}

impl StateView {
    /// The state before the first token: an expression may begin, and
    /// nothing is open.
    pub open spec fn initial() -> StateView {
        StateView {
            had_line_break: false,
            is_expr_allowed: true,
            is_first: true,
            last_token_kind: None,
            frames: Seq::empty(),
        }
    }

    /// The byte offset of the opening backtick of the template whose text
    /// the lexer is in, if it is in one.
    pub open spec fn template_lo(self) -> Option<usize> {
        if self.frames.len() > 0 {
            match self.frames.last() {
                Frame::Template { lo } => Some(lo),
                _ => None,
            }
        } else {
            None
        }
    }

    /// Whether the last token was a piece of the text of a template.
    pub open spec fn after_text(self) -> bool {
        self.last_token_kind == Some(TokenKind::Template)
    }

    /// The state behind a token of the given kind that began at byte `lo`,
    /// where `had_line_break` tells whether a line terminator was passed on
    /// the way to it.
    pub open spec fn after(self, kind: TokenKind, lo: usize, had_line_break: bool) -> StateView {
        StateView {
            had_line_break,
            is_expr_allowed: expr_allowed_after(kind, self.is_expr_allowed),
            is_first: false,
            last_token_kind: Some(kind),
            frames: frames_after(self.frames, kind, lo),
        }
    }
}

/// Whether an expression may begin behind a token of the given kind.
pub fn is_expr_allowed_after(kind: TokenKind, before: bool) -> (r: bool)
    ensures
        r == expr_allowed_after(kind, before),
{
    match kind {
        TokenKind::Punct(p) => match p {
            Punct::LParen
            | Punct::LBracket
            | Punct::LBrace
            | Punct::Comma
            | Punct::Semi
            | Punct::Colon
            | Punct::ColonColon
            | Punct::QuestionMark
            | Punct::Arrow
            | Punct::DotDotDot
            | Punct::Tilde
            | Punct::DollarBrace => true,
            _ => false,
        },
        TokenKind::BinOp(_) => true,
        TokenKind::AssignOp(_) => true,
        TokenKind::Unary(op) => match op {
            UnaryOp::Bang => true,
            _ => before,
        },
        TokenKind::Keyword(k) => match k {
            Keyword::Return
            | Keyword::Throw
            | Keyword::TypeOf
            | Keyword::Delete
            | Keyword::Void
            | Keyword::New
            | Keyword::Do
            | Keyword::Else
            | Keyword::Case
            | Keyword::Yield
            | Keyword::Await => true,
            _ => false,
        },
        _ => false,
    }
}

impl State {
    /// The state before the first token.
    pub fn new() -> (r: State)
        ensures
            r@ == StateView::initial(),
    {
        State {
            had_line_break: false,
            is_expr_allowed: true,
            is_first: true,
            last_token_kind: None,
            frames: Vec::new(),
        }
    }

    /// The byte offset of the opening backtick of the template whose text
    /// the lexer is in, if it is in one.
    pub fn template_lo(&self) -> (r: Option<usize>)
        ensures
            r == self@.template_lo(),
    {
        let n = self.frames.len();
        if n > 0 {
            match self.frames[n - 1] {
                Frame::Template { lo } => Some(lo),
                _ => None,
            }
        } else {
            None
        }
    }

    /// Whether the last token was a piece of the text of a template.
    pub fn last_was_tpl_element(&self) -> (r: bool)
        ensures
            r == self@.after_text(),
    {
        match self.last_token_kind {
            Some(TokenKind::Template) => true,
            _ => false,
        }
    }

    /// Takes note of a token of the given kind that began at byte `lo`.
    pub fn update(&mut self, kind: TokenKind, lo: usize, had_line_break: bool)
        ensures
            final(self)@ == old(self)@.after(kind, lo, had_line_break),
    {
        let n = self.frames.len();
        let in_text = match self.template_lo() {
            Some(_) => true,
            None => false,
        };
        match kind {
            TokenKind::Punct(Punct::Backtick) => {
                if in_text {
                    self.frames.pop();
                } else {
                    self.frames.push(Frame::Template { lo });
                }
            },
            TokenKind::Punct(Punct::DollarBrace) => {
                self.frames.push(Frame::Interp);
            },
            TokenKind::Punct(Punct::LBrace) => {
                if n > 0 {
                    self.frames.push(Frame::Brace);
                }
            },
            TokenKind::Punct(Punct::RBrace) => {
                if n > 0 && !in_text {
                    self.frames.pop();
                }
            },
            _ => {},
        }
        self.is_expr_allowed = is_expr_allowed_after(kind, self.is_expr_allowed);
        self.had_line_break = had_line_break;
        self.is_first = false;
        self.last_token_kind = Some(kind);
        assert(self.frames@ =~= frames_after(old(self).frames@, kind, lo));
    }
}

} // verus!
