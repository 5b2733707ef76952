//! Punctuators and operators.

use vstd::prelude::*;
use crate::input::{char_at, Input};
use crate::token::{AssignOp, BinOp, Punct, Token, TokenView, UnaryOp};

verus! {

/// A punctuator or operator and the number of characters that spell it.
pub struct Mark {
    pub token: TokenView,
    pub len: int,
}

/// The punctuator `p`, spelled with `len` characters.
pub open spec fn punct(p: Punct, len: int) -> Option<Mark> {
    Some(Mark { token: TokenView::Punct(p), len })
}

/// The binary operator `op`, spelled with `len` characters.
pub open spec fn bin_op(op: BinOp, len: int) -> Option<Mark> {
    Some(Mark { token: TokenView::BinOp(op), len })
}

/// The assignment operator `op`, spelled with `len` characters.
pub open spec fn assign_op(op: AssignOp, len: int) -> Option<Mark> {
    Some(Mark { token: TokenView::AssignOp(op), len })
}

/// The unary operator `op`, spelled with `len` characters.
pub open spec fn unary_op(op: UnaryOp, len: int) -> Option<Mark> {
    Some(Mark { token: TokenView::Unary(op), len })
}

/// The operator that begins with the `<` or `>` at position `i`: the
/// character once, twice, or for `>` three times, and then `=` or not.
pub open spec fn lt_gt(s: Seq<char>, i: int) -> Option<Mark> {
    let c1 = char_at(s, i + 1);
    let c2 = char_at(s, i + 2);
    let c3 = char_at(s, i + 3);
    if char_at(s, i) == Some('<') {
        if c1 == Some('<') {
            if c2 == Some('=') {
                assign_op(AssignOp::LShiftAssign, 3)
            } else {
                bin_op(BinOp::LShift, 2)
            }
        } else if c1 == Some('=') {
            bin_op(BinOp::LtEq, 2)
        } else {
            bin_op(BinOp::Lt, 1)
        }
    } else if char_at(s, i) == Some('>') {
        if c1 == Some('>') {
            if c2 == Some('>') {
                if c3 == Some('=') {
                    assign_op(AssignOp::ZeroFillRShiftAssign, 4)
                } else {
                    bin_op(BinOp::ZeroFillRShift, 3)
                }
            } else if c2 == Some('=') {
                assign_op(AssignOp::RShiftAssign, 3)
            } else {
                bin_op(BinOp::RShift, 2)
            }
        } else if c1 == Some('=') {
            bin_op(BinOp::GtEq, 2)
        } else {
            bin_op(BinOp::Gt, 1)
        }
    } else {
        None
    }
}

/// The punctuator or operator at position `i`, the longest that the
/// characters there spell, where `/` is read as division. `::` is one token
/// only with `fn_bind`.
pub open spec fn mark(s: Seq<char>, i: int, fn_bind: bool) -> Option<Mark> {
    let c1 = char_at(s, i + 1);
    let c2 = char_at(s, i + 2);
    match char_at(s, i) {
        None => None,
        Some(c) => {
            if c == '(' {
                punct(Punct::LParen, 1)
            } else if c == ')' {
                punct(Punct::RParen, 1)
            } else if c == ';' {
                punct(Punct::Semi, 1)
            } else if c == ',' {
                punct(Punct::Comma, 1)
            } else if c == '[' {
                punct(Punct::LBracket, 1)
            } else if c == ']' {
                punct(Punct::RBracket, 1)
            } else if c == '{' {
                punct(Punct::LBrace, 1)
            } else if c == '}' {
                punct(Punct::RBrace, 1)
            } else if c == '@' {
                punct(Punct::At, 1)
            } else if c == '?' {
                punct(Punct::QuestionMark, 1)
            } else if c == '~' {
                punct(Punct::Tilde, 1)
            } else if c == '`' {
                punct(Punct::Backtick, 1)
            } else if c == '.' {
                if c1 == Some('.') && c2 == Some('.') {
                    punct(Punct::DotDotDot, 3)
                } else {
                    punct(Punct::Dot, 1)
                }
            } else if c == ':' {
                if fn_bind && c1 == Some(':') {
                    punct(Punct::ColonColon, 2)
                } else {
                    punct(Punct::Colon, 1)
                }
            } else if c == '/' {
                if c1 == Some('=') {
                    assign_op(AssignOp::DivAssign, 2)
                } else {
                    bin_op(BinOp::Div, 1)
                }
            } else if c == '*' {
                if c1 == Some('*') {
                    if c2 == Some('=') {
                        assign_op(AssignOp::ExpAssign, 3)
                    } else {
                        bin_op(BinOp::Exp, 2)
                    }
                } else if c1 == Some('=') {
                    assign_op(AssignOp::MulAssign, 2)
                } else {
                    bin_op(BinOp::Mul, 1)
                }
            } else if c == '%' {
                if c1 == Some('=') {
                    assign_op(AssignOp::ModAssign, 2)
                } else {
                    bin_op(BinOp::Mod, 1)
                }
            } else if c == '|' {
                if c1 == Some('=') {
                    assign_op(AssignOp::BitOrAssign, 2)
                } else if c1 == Some('|') {
                    bin_op(BinOp::LogicalOr, 2)
                } else {
                    bin_op(BinOp::BitOr, 1)
                }
            } else if c == '&' {
                if c1 == Some('=') {
                    assign_op(AssignOp::BitAndAssign, 2)
                } else if c1 == Some('&') {
                    bin_op(BinOp::LogicalAnd, 2)
                } else {
                    bin_op(BinOp::BitAnd, 1)
                }
            } else if c == '^' {
                if c1 == Some('=') {
                    assign_op(AssignOp::BitXorAssign, 2)
                } else {
                    bin_op(BinOp::BitXor, 1)
                }
            } else if c == '+' {
                if c1 == Some('+') {
                    unary_op(UnaryOp::PlusPlus, 2)
                } else if c1 == Some('=') {
                    assign_op(AssignOp::AddAssign, 2)
                } else {
                    bin_op(BinOp::Add, 1)
                }
            } else if c == '-' {
                if c1 == Some('-') {
                    unary_op(UnaryOp::MinusMinus, 2)
                } else if c1 == Some('=') {
                    assign_op(AssignOp::SubAssign, 2)
                } else {
                    bin_op(BinOp::Sub, 1)
                }
            } else if c == '<' || c == '>' {
                lt_gt(s, i)
            } else if c == '!' {
                if c1 == Some('=') {
                    if c2 == Some('=') {
                        bin_op(BinOp::NotEqEq, 3)
                    } else {
                        bin_op(BinOp::NotEq, 2)
                    }
                } else {
                    unary_op(UnaryOp::Bang, 1)
                }
            } else if c == '=' {
                if c1 == Some('=') {
                    if c2 == Some('=') {
                        bin_op(BinOp::EqEqEq, 3)
                    } else {
                        bin_op(BinOp::EqEq, 2)
                    }
                } else if c1 == Some('>') {
                    punct(Punct::Arrow, 2)
                } else {
                    assign_op(AssignOp::Assign, 1)
                }
            } else {
                None
            }
        },
    }
}

/// A punctuator or operator takes between one and four characters of the
/// source, and is a token of one of these four kinds.
pub proof fn lemma_mark_len(s: Seq<char>, i: int, fn_bind: bool)
    ensures
        match mark(s, i, fn_bind) {
            Some(m) => 0 <= i && 1 <= m.len <= 4 && i + m.len <= s.len() && (m.token is Punct
                || m.token is BinOp || m.token is AssignOp || m.token is Unary),
            None => true,
        },
{
}

/// The characters that spell a punctuator or operator.
pub open spec fn spelling(t: TokenView) -> Seq<char> {
    match t {
        TokenView::Punct(p) => p.spelling(),
        TokenView::BinOp(op) => op.spelling(),
        TokenView::AssignOp(op) => op.spelling(),
        TokenView::Unary(op) => op.spelling(),
        _ => Seq::empty(),
    }
}

/// The punctuator or operator that is read at a position is spelled there:
/// the characters of the source that it takes are its spelling.
pub proof fn lemma_mark_spelling(s: Seq<char>, i: int, fn_bind: bool)
    ensures
        match mark(s, i, fn_bind) {
            Some(m) => 0 <= i && i + m.len <= s.len() && s.subrange(i, i + m.len) == spelling(
                m.token,
            ),
            None => true,
        },
{
    match mark(s, i, fn_bind) {
        Some(m) => {
            assert(s.subrange(i, i + m.len) =~= spelling(m.token));
        },
        None => {},
    }
}

/// Whether `t` is a punctuator or operator that is spelled with signs and
/// read where its first sign stands: all but the two operators that are
/// words, `${`, which only a template yields, and `::` without `fn_bind`.
pub open spec fn is_sign(t: TokenView, fn_bind: bool) -> bool {
    match t {
        TokenView::Punct(p) => p != Punct::DollarBrace && (fn_bind || p != Punct::ColonColon),
        TokenView::BinOp(op) => op != BinOp::In && op != BinOp::InstanceOf,
        TokenView::AssignOp(_) => true,
        TokenView::Unary(_) => true,
        _ => false,
    }
}

/// The punctuator or operator that is read at a position is the longest
/// that is spelled there: wherever the spelling of one stands, one is read
/// that is at least as long.
pub proof fn lemma_mark_longest(s: Seq<char>, i: int, fn_bind: bool, t: TokenView)
    requires
        is_sign(t, fn_bind),
        0 <= i,
        i + spelling(t).len() <= s.len(),
        s.subrange(i, i + spelling(t).len()) == spelling(t),
    ensures
        match mark(s, i, fn_bind) {
            Some(m) => spelling(t).len() <= m.len,
            None => false,
        },
{
    let q = spelling(t);
    let part = s.subrange(i, i + q.len());
    assert forall|k: int| 0 <= k < q.len() implies s[i + k] == q[k] by {
        assert(part[k] == q[k]);
    }
    assert(q.len() >= 1);
    assert(s[i] == q[0]);
    if q.len() >= 2 {
        assert(s[i + 1] == q[1]);
    }
    if q.len() >= 3 {
        assert(s[i + 2] == q[2]);
    }
    if q.len() >= 4 {
        assert(s[i + 3] == q[3]);
    }
}

/// Whether `r` is the token of `want`, if there is one.
pub open spec fn is_mark(r: Option<Token>, want: Option<Mark>) -> bool {
    match want {
        Some(m) => r is Some && r.unwrap()@ == m.token,
        None => r is None,
    }
}

/// The number of characters that `want` takes.
pub open spec fn mark_len(want: Option<Mark>) -> int {
    match want {
        Some(m) => m.len,
        None => 0,
    }
}

impl Input {
    /// Reads the operator that begins with the `<` or `>` at the cursor.
    pub fn read_token_lt_gt(&mut self) -> (r: Option<Token>)
        requires
            char_at(old(self).source(), old(self).cursor()) == Some('<') || char_at(
                old(self).source(),
                old(self).cursor(),
            ) == Some('>'),
        ensures
            final(self).source() == old(self).source(),
            is_mark(r, lt_gt(old(self).source(), old(self).cursor())),
            final(self).cursor() == old(self).cursor() + mark_len(
                lt_gt(old(self).source(), old(self).cursor()),
            ),
    {
        let less = self.is('<');
        let c = if less {
            '<'
        } else {
            '>'
        };
        self.bump();
        let mut op = if less {
            BinOp::Lt
        } else {
            BinOp::Gt
        };
        if self.eat(c) {
            op = if less {
                BinOp::LShift
            } else {
                BinOp::RShift
            };
            if !less && self.eat('>') {
                op = BinOp::ZeroFillRShift;
            }
        }
        let token = if self.eat('=') {
            match op {
                BinOp::Lt => Token::BinOp(BinOp::LtEq),
                BinOp::Gt => Token::BinOp(BinOp::GtEq),
                BinOp::LShift => Token::AssignOp(AssignOp::LShiftAssign),
                BinOp::RShift => Token::AssignOp(AssignOp::RShiftAssign),
                _ => Token::AssignOp(AssignOp::ZeroFillRShiftAssign),
            }
        } else {
            Token::BinOp(op)
        };
        Some(token)
    }

    /// Reads the punctuator or operator at the cursor, where `/` is read as
    /// division. Where none begins, the cursor stays and nothing comes back.
    pub fn read_mark(&mut self, fn_bind: bool) -> (r: Option<Token>)
        ensures
            final(self).source() == old(self).source(),
            is_mark(r, mark(old(self).source(), old(self).cursor(), fn_bind)),
            final(self).cursor() == old(self).cursor() + mark_len(
                mark(old(self).source(), old(self).cursor(), fn_bind),
            ),
    {
        let c = match self.current() {
            Some(c) => c,
            None => {
                return None;
            },
        };
        if c == '<' || c == '>' {
            return self.read_token_lt_gt();
        }
        let simple = if c == '(' {
            Some(Punct::LParen)
        } else if c == ')' {
            Some(Punct::RParen)
        } else if c == ';' {
            Some(Punct::Semi)
        } else if c == ',' {
            Some(Punct::Comma)
        } else if c == '[' {
            Some(Punct::LBracket)
        } else if c == ']' {
            Some(Punct::RBracket)
        } else if c == '{' {
            Some(Punct::LBrace)
        } else if c == '}' {
            Some(Punct::RBrace)
        } else if c == '@' {
            Some(Punct::At)
        } else if c == '?' {
            Some(Punct::QuestionMark)
        } else if c == '~' {
            Some(Punct::Tilde)
        } else if c == '`' {
            Some(Punct::Backtick)
        } else {
            None
        };
        match simple {
            Some(p) => {
                self.bump();
                return Some(Token::Punct(p));
            },
            None => {},
        }
        if c == '.' {
            let dots = self.peek() == Some('.') && self.peek_ahead() == Some('.');
            self.bump();
            if dots {
                self.bump();
                self.bump();
                Some(Token::Punct(Punct::DotDotDot))
            } else {
                Some(Token::Punct(Punct::Dot))
            }
        } else if c == ':' {
            self.bump();
            if fn_bind && self.eat(':') {
                Some(Token::Punct(Punct::ColonColon))
            } else {
                Some(Token::Punct(Punct::Colon))
            }
        } else if c == '/' {
            self.bump();
            if self.eat('=') {
                Some(Token::AssignOp(AssignOp::DivAssign))
            } else {
                Some(Token::BinOp(BinOp::Div))
            }
        } else if c == '*' {
            self.bump();
            if self.eat('*') {
                if self.eat('=') {
                    Some(Token::AssignOp(AssignOp::ExpAssign))
                } else {
                    Some(Token::BinOp(BinOp::Exp))
                }
            } else if self.eat('=') {
                Some(Token::AssignOp(AssignOp::MulAssign))
            } else {
                Some(Token::BinOp(BinOp::Mul))
            }
        } else if c == '%' {
            self.bump();
            if self.eat('=') {
                Some(Token::AssignOp(AssignOp::ModAssign))
            } else {
                Some(Token::BinOp(BinOp::Mod))
            }
        } else if c == '|' || c == '&' {
            self.bump();
            if self.eat('=') {
                Some(
                    Token::AssignOp(
                        if c == '&' {
                            AssignOp::BitAndAssign
                        } else {
                            AssignOp::BitOrAssign
                        },
                    ),
                )
            } else if self.eat(c) {
                Some(
                    Token::BinOp(
                        if c == '&' {
                            BinOp::LogicalAnd
                        } else {
                            BinOp::LogicalOr
                        },
                    ),
                )
            } else {
                Some(
                    Token::BinOp(
                        if c == '&' {
                            BinOp::BitAnd
                        } else {
                            BinOp::BitOr
                        },
                    ),
                )
            }
        } else if c == '^' {
            self.bump();
            if self.eat('=') {
                Some(Token::AssignOp(AssignOp::BitXorAssign))
            } else {
                Some(Token::BinOp(BinOp::BitXor))
            }
        } else if c == '+' || c == '-' {
            self.bump();
            if self.eat(c) {
                Some(
                    Token::Unary(
                        if c == '+' {
                            UnaryOp::PlusPlus
                        } else {
                            UnaryOp::MinusMinus
                        },
                    ),
                )
            } else if self.eat('=') {
                Some(
                    Token::AssignOp(
                        if c == '+' {
                            AssignOp::AddAssign
                        } else {
                            AssignOp::SubAssign
                        },
                    ),
                )
            } else {
                Some(
                    Token::BinOp(
                        if c == '+' {
                            BinOp::Add
                        } else {
                            BinOp::Sub
                        },
                    ),
                )
            }
        } else if c == '!' || c == '=' {
            self.bump();
            if self.eat('=') {
                if self.eat('=') {
                    Some(
                        Token::BinOp(
                            if c == '!' {
                                BinOp::NotEqEq
                            } else {
                                BinOp::EqEqEq
                            },
                        ),
                    )
                } else {
                    Some(
                        Token::BinOp(
                            if c == '!' {
                                BinOp::NotEq
                            } else {
                                BinOp::EqEq
                            },
                        ),
                    )
                }
            } else if c == '=' && self.eat('>') {
                Some(Token::Punct(Punct::Arrow))
            } else if c == '!' {
                Some(Token::Unary(UnaryOp::Bang))
            } else {
                Some(Token::AssignOp(AssignOp::Assign))
            }
        } else {
            None
        }
    }
}

} // verus!
