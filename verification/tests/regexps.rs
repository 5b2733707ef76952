use ecma_lexer::context::Context;
use ecma_lexer::error::SyntaxError;
use ecma_lexer::lexer::Lexer;
use ecma_lexer::token::{BinOp, Keyword, Punct, Span, Token, UnaryOp, Word};

fn lex(src: &str) -> Vec<Token> {
    let mut lexer = Lexer::new(src);
    lexer.tokens(Context::default()).unwrap().into_iter().map(|t| t.token).collect()
}

fn first_error(src: &str) -> (SyntaxError, Span) {
    let mut lexer = Lexer::new(src);
    let e = lexer.tokens(Context::default()).unwrap_err();
    (e.kind, e.span)
}

fn regex(pattern: &str, flags: &str) -> Token {
    Token::Regex { pattern: pattern.to_string(), flags: flags.to_string() }
}

fn ident(name: &str) -> Token {
    Token::Word { word: Word::Ident(name.to_string()), has_escape: false }
}

fn num(d: u8) -> Token {
    Token::Num(ecma_lexer::token::Number {
        radix: 10,
        int_digits: vec![d],
        frac_digits: vec![],
        exp_negative: false,
        exp_digits: vec![],
    })
}

#[test]
fn regex_at_the_start_of_input() {
    assert_eq!(lex("/ab+c/gi"), vec![regex("ab+c", "gi")]);
    assert_eq!(lex("/a/"), vec![regex("a", "")]);
    assert_eq!(lex("/=/"), vec![regex("=", "")]);
}

#[test]
fn regex_body_is_kept_raw() {
    assert_eq!(lex("/a\\/b/"), vec![regex("a\\/b", "")]);
    assert_eq!(lex("/\\d+\\.\\d*/"), vec![regex("\\d+\\.\\d*", "")]);
    assert_eq!(lex("/\\\\/"), vec![regex("\\\\", "")]);
    assert_eq!(lex("/\\u0041/"), vec![regex("\\u0041", "")]);
}

#[test]
fn slash_inside_a_class_is_literal() {
    assert_eq!(lex("/[/]/g"), vec![regex("[/]", "g")]);
    assert_eq!(lex("/[a/b]c/"), vec![regex("[a/b]c", "")]);
    assert_eq!(lex("/[\\]/]/"), vec![regex("[\\]/]", "")]);
    assert_eq!(lex("/\\[/"), vec![regex("\\[", "")]);
    assert_eq!(lex("/]/"), vec![regex("]", "")]);
    assert_eq!(lex("/[[]/"), vec![regex("[[]", "")]);
}

#[test]
fn regex_flags_are_an_identifier_run() {
    assert_eq!(lex("/a/gimsuy"), vec![regex("a", "gimsuy")]);
    assert_eq!(lex("/a/xyz123"), vec![regex("a", "xyz123")]);
    assert_eq!(lex("/a/g\\u0069"), vec![regex("a", "gi")]);
    assert_eq!(lex("/a/ g"), vec![regex("a", ""), ident("g")]);
    assert_eq!(lex("/a/.test"), vec![regex("a", ""), Token::Punct(Punct::Dot), ident("test")]);
}

#[test]
fn unterminated_regex() {
    assert_eq!(first_error("/abc"), (SyntaxError::UnterminatedRegxp, Span { lo: 0, hi: 4 }));
    assert_eq!(first_error("/"), (SyntaxError::UnterminatedRegxp, Span { lo: 0, hi: 1 }));
    assert_eq!(first_error("/a\nb/"), (SyntaxError::UnterminatedRegxp, Span { lo: 0, hi: 2 }));
    assert_eq!(first_error("/a\\\nb/"), (SyntaxError::UnterminatedRegxp, Span { lo: 0, hi: 3 }));
    assert_eq!(first_error("/[/"), (SyntaxError::UnterminatedRegxp, Span { lo: 0, hi: 3 }));
    assert_eq!(first_error("/a\\/"), (SyntaxError::UnterminatedRegxp, Span { lo: 0, hi: 4 }));
    assert_eq!(first_error("x = /\u{e9}\u{2028}/"), (SyntaxError::UnterminatedRegxp, Span { lo: 4, hi: 7 }));
}

#[test]
fn error_in_regex_flags() {
    assert_eq!(first_error("/a/g\\x"), (SyntaxError::ExpectedUnicodeEscape, Span { lo: 4, hi: 5 }));
}

#[test]
fn slash_after_a_value_is_division() {
    assert_eq!(lex("a / b"), vec![ident("a"), Token::BinOp(BinOp::Div), ident("b")]);
    assert_eq!(lex("1/2/3"), vec![
        num(1),
        Token::BinOp(BinOp::Div),
        num(2),
        Token::BinOp(BinOp::Div),
        num(3),
    ]);
    assert_eq!(
        lex("(a)/b/g"),
        vec![
            Token::Punct(Punct::LParen),
            ident("a"),
            Token::Punct(Punct::RParen),
            Token::BinOp(BinOp::Div),
            ident("b"),
            Token::BinOp(BinOp::Div),
            ident("g"),
        ]
    );
    assert_eq!(
        lex("a[0]/b/g").len(),
        8
    );
    assert_eq!(
        lex("'s'/b/g"),
        vec![
            Token::Str { value: "s".to_string(), has_escape: false },
            Token::BinOp(BinOp::Div),
            ident("b"),
            Token::BinOp(BinOp::Div),
            ident("g"),
        ]
    );
    assert_eq!(
        lex("}/b/g"),
        vec![
            Token::Punct(Punct::RBrace),
            Token::BinOp(BinOp::Div),
            ident("b"),
            Token::BinOp(BinOp::Div),
            ident("g"),
        ]
    );
    assert_eq!(
        lex("this/b/g")[1],
        Token::BinOp(BinOp::Div)
    );
    assert_eq!(lex("/a/ /b/")[1], Token::BinOp(BinOp::Div));
    assert_eq!(lex("a /= 2")[1], Token::AssignOp(ecma_lexer::token::AssignOp::DivAssign));
}

#[test]
fn slash_where_an_expression_may_begin_is_a_regex() {
    for before in ["(", "[", "{", ",", ";", ":", "?", "=>", "=", "+=", "+", "*", "<", "&&", "!", "~", "...", "in", "instanceof"] {
        let src = format!("{} /b/g", before);
        let tokens = lex(&src);
        assert_eq!(tokens.last(), Some(&regex("b", "g")), "{}", src);
        assert_eq!(tokens.len(), 2, "{}", src);
    }
    for before in ["return", "throw", "typeof", "delete", "void", "new", "do", "else", "case", "yield", "await"] {
        let src = format!("{} /b/g", before);
        let tokens = lex(&src);
        assert_eq!(tokens.last(), Some(&regex("b", "g")), "{}", src);
    }
    assert_eq!(
        lex("typeof /a/"),
        vec![Token::Word { word: Word::Keyword(Keyword::TypeOf), has_escape: false }, regex("a", "")]
    );
}

#[test]
fn increment_keeps_what_was_allowed_before() {
    assert_eq!(
        lex("a++ /b/g"),
        vec![
            ident("a"),
            Token::Unary(UnaryOp::PlusPlus),
            Token::BinOp(BinOp::Div),
            ident("b"),
            Token::BinOp(BinOp::Div),
            ident("g"),
        ]
    );
    assert_eq!(lex("++/b/g"), vec![Token::Unary(UnaryOp::PlusPlus), regex("b", "g")]);
    assert_eq!(
        lex("x = --/b/g")[2..],
        [Token::Unary(UnaryOp::MinusMinus), regex("b", "g")]
    );
}

#[test]
fn other_keywords_and_punctuators_end_an_expression_context() {
    assert_eq!(lex("if /b/g")[1], Token::BinOp(BinOp::Div));
    assert_eq!(lex(". /b/g")[1], Token::BinOp(BinOp::Div));
    assert_eq!(lex("@ /b/g")[1], Token::BinOp(BinOp::Div));
    assert_eq!(lex("null /b/g")[1], Token::BinOp(BinOp::Div));
}
