use ecma_lexer::context::Context;
use ecma_lexer::lexer::Lexer;
use ecma_lexer::token::{AssignOp, BinOp, Punct, Span, Token, UnaryOp};

fn lex_with(src: &str, ctx: Context) -> Vec<Token> {
    let mut lexer = Lexer::new(src);
    lexer.tokens(ctx).unwrap().into_iter().map(|t| t.token).collect()
}

fn lex(src: &str) -> Vec<Token> {
    lex_with(src, Context::default())
}

#[test]
fn every_punctuator() {
    assert_eq!(
        lex("( ) [ ] { } ; , . ... : ? @ ~ =>"),
        vec![
            Token::Punct(Punct::LParen),
            Token::Punct(Punct::RParen),
            Token::Punct(Punct::LBracket),
            Token::Punct(Punct::RBracket),
            Token::Punct(Punct::LBrace),
            Token::Punct(Punct::RBrace),
            Token::Punct(Punct::Semi),
            Token::Punct(Punct::Comma),
            Token::Punct(Punct::Dot),
            Token::Punct(Punct::DotDotDot),
            Token::Punct(Punct::Colon),
            Token::Punct(Punct::QuestionMark),
            Token::Punct(Punct::At),
            Token::Punct(Punct::Tilde),
            Token::Punct(Punct::Arrow),
        ]
    );
}

#[test]
fn every_binary_operator() {
    assert_eq!(
        lex("a + - * % ** == === != !== < <= > >= << >> >>> & | ^ && || in instanceof b / c"),
        vec![
            Token::Word { word: ecma_lexer::token::Word::Ident("a".to_string()), has_escape: false },
            Token::BinOp(BinOp::Add),
            Token::BinOp(BinOp::Sub),
            Token::BinOp(BinOp::Mul),
            Token::BinOp(BinOp::Mod),
            Token::BinOp(BinOp::Exp),
            Token::BinOp(BinOp::EqEq),
            Token::BinOp(BinOp::EqEqEq),
            Token::BinOp(BinOp::NotEq),
            Token::BinOp(BinOp::NotEqEq),
            Token::BinOp(BinOp::Lt),
            Token::BinOp(BinOp::LtEq),
            Token::BinOp(BinOp::Gt),
            Token::BinOp(BinOp::GtEq),
            Token::BinOp(BinOp::LShift),
            Token::BinOp(BinOp::RShift),
            Token::BinOp(BinOp::ZeroFillRShift),
            Token::BinOp(BinOp::BitAnd),
            Token::BinOp(BinOp::BitOr),
            Token::BinOp(BinOp::BitXor),
            Token::BinOp(BinOp::LogicalAnd),
            Token::BinOp(BinOp::LogicalOr),
            Token::BinOp(BinOp::In),
            Token::BinOp(BinOp::InstanceOf),
            Token::Word { word: ecma_lexer::token::Word::Ident("b".to_string()), has_escape: false },
            Token::BinOp(BinOp::Div),
            Token::Word { word: ecma_lexer::token::Word::Ident("c".to_string()), has_escape: false },
        ]
    );
}

#[test]
fn every_assignment_operator() {
    assert_eq!(
        lex("a = += -= *= %= **= <<= >>= >>>= &= |= ^= 1 /= 2"),
        vec![
            Token::Word { word: ecma_lexer::token::Word::Ident("a".to_string()), has_escape: false },
            Token::AssignOp(AssignOp::Assign),
            Token::AssignOp(AssignOp::AddAssign),
            Token::AssignOp(AssignOp::SubAssign),
            Token::AssignOp(AssignOp::MulAssign),
            Token::AssignOp(AssignOp::ModAssign),
            Token::AssignOp(AssignOp::ExpAssign),
            Token::AssignOp(AssignOp::LShiftAssign),
            Token::AssignOp(AssignOp::RShiftAssign),
            Token::AssignOp(AssignOp::ZeroFillRShiftAssign),
            Token::AssignOp(AssignOp::BitAndAssign),
            Token::AssignOp(AssignOp::BitOrAssign),
            Token::AssignOp(AssignOp::BitXorAssign),
            Token::Num(ecma_lexer::token::Number {
                radix: 10,
                int_digits: vec![1],
                frac_digits: vec![],
                exp_negative: false,
                exp_digits: vec![],
            }),
            Token::AssignOp(AssignOp::DivAssign),
            Token::Num(ecma_lexer::token::Number {
                radix: 10,
                int_digits: vec![2],
                frac_digits: vec![],
                exp_negative: false,
                exp_digits: vec![],
            }),
        ]
    );
}

#[test]
fn unary_markers() {
    assert_eq!(
        lex("! ++ --"),
        vec![
            Token::Unary(UnaryOp::Bang),
            Token::Unary(UnaryOp::PlusPlus),
            Token::Unary(UnaryOp::MinusMinus),
        ]
    );
}

#[test]
fn the_longest_operator_wins() {
    assert_eq!(
        lex(">>>=>>=>="),
        vec![
            Token::AssignOp(AssignOp::ZeroFillRShiftAssign),
            Token::AssignOp(AssignOp::RShiftAssign),
            Token::BinOp(BinOp::GtEq),
        ]
    );
    assert_eq!(
        lex("===>"),
        vec![Token::BinOp(BinOp::EqEqEq), Token::BinOp(BinOp::Gt)]
    );
    assert_eq!(
        lex("+++"),
        vec![Token::Unary(UnaryOp::PlusPlus), Token::BinOp(BinOp::Add)]
    );
    assert_eq!(
        lex("..."),
        vec![Token::Punct(Punct::DotDotDot)]
    );
    assert_eq!(
        lex(".."),
        vec![Token::Punct(Punct::Dot), Token::Punct(Punct::Dot)]
    );
    assert_eq!(
        lex("||="),
        vec![Token::BinOp(BinOp::LogicalOr), Token::AssignOp(AssignOp::Assign)]
    );
}

#[test]
fn colon_colon_needs_fn_bind() {
    assert_eq!(
        lex("::"),
        vec![Token::Punct(Punct::Colon), Token::Punct(Punct::Colon)]
    );
    let bind = Context { fn_bind: true, ..Context::default() };
    assert_eq!(lex_with("::", bind), vec![Token::Punct(Punct::ColonColon)]);
    assert_eq!(
        lex_with(":::", bind),
        vec![Token::Punct(Punct::ColonColon), Token::Punct(Punct::Colon)]
    );
}

#[test]
fn operator_spans() {
    let mut lexer = Lexer::new(">>>= !");
    let tokens = lexer.tokens(Context::default()).unwrap();
    assert_eq!(tokens[0].span, Span { lo: 0, hi: 4 });
    assert_eq!(tokens[1].span, Span { lo: 5, hi: 6 });
    assert_eq!(lexer.cur_pos(), 6);
}
