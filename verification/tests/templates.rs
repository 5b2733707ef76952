use ecma_lexer::context::Context;
use ecma_lexer::error::SyntaxError;
use ecma_lexer::lexer::Lexer;
use ecma_lexer::token::{BinOp, Punct, Span, SpannedToken, Token, Word};

fn all(src: &str) -> Vec<SpannedToken> {
    let mut lexer = Lexer::new(src);
    lexer.tokens(Context::default()).unwrap()
}

fn lex(src: &str) -> Vec<Token> {
    all(src).into_iter().map(|t| t.token).collect()
}

fn first_error(src: &str, ctx: Context) -> (SyntaxError, Span) {
    let mut lexer = Lexer::new(src);
    let e = lexer.tokens(ctx).unwrap_err();
    (e.kind, e.span)
}

fn text(s: &str) -> Token {
    Token::Template(s.to_string())
}

fn ident(name: &str) -> Token {
    Token::Word { word: Word::Ident(name.to_string()), has_escape: false }
}

const TICK: Token = Token::Punct(Punct::Backtick);
const OPEN: Token = Token::Punct(Punct::DollarBrace);
const CLOSE: Token = Token::Punct(Punct::RBrace);

#[test]
fn template_without_interpolation() {
    assert_eq!(lex("`abc`"), vec![TICK, text("abc"), TICK]);
    assert_eq!(lex("``"), vec![TICK, text(""), TICK]);
    assert_eq!(lex("`a b` x"), vec![TICK, text("a b"), TICK, ident("x")]);
    assert_eq!(lex("`$a{}$`"), vec![TICK, text("$a{}$"), TICK]);
    assert_eq!(lex("`// no comment /* here */`"), vec![TICK, text("// no comment /* here */"), TICK]);
}

#[test]
fn template_pieces_around_interpolations() {
    assert_eq!(
        lex("`${a}`"),
        vec![TICK, text(""), OPEN, ident("a"), CLOSE, text(""), TICK]
    );
    assert_eq!(
        lex("`a${b}c${d}e`"),
        vec![
            TICK,
            text("a"),
            OPEN,
            ident("b"),
            CLOSE,
            text("c"),
            OPEN,
            ident("d"),
            CLOSE,
            text("e"),
            TICK,
        ]
    );
    assert_eq!(
        lex("`${a}${b}`"),
        vec![
            TICK,
            text(""),
            OPEN,
            ident("a"),
            CLOSE,
            text(""),
            OPEN,
            ident("b"),
            CLOSE,
            text(""),
            TICK,
        ]
    );
}

#[test]
fn white_space_is_text_in_a_template_and_space_in_an_interpolation() {
    assert_eq!(
        lex("` a ${ b } c `"),
        vec![TICK, text(" a "), OPEN, ident("b"), CLOSE, text(" c "), TICK]
    );
}

#[test]
fn braces_inside_an_interpolation_are_balanced() {
    assert_eq!(
        lex("`${ {a} }x`"),
        vec![
            TICK,
            text(""),
            OPEN,
            Token::Punct(Punct::LBrace),
            ident("a"),
            Token::Punct(Punct::RBrace),
            CLOSE,
            text("x"),
            TICK,
        ]
    );
    assert_eq!(
        lex("`${{{}}}`"),
        vec![
            TICK,
            text(""),
            OPEN,
            Token::Punct(Punct::LBrace),
            Token::Punct(Punct::LBrace),
            Token::Punct(Punct::RBrace),
            Token::Punct(Punct::RBrace),
            CLOSE,
            text(""),
            TICK,
        ]
    );
}

#[test]
fn nested_templates() {
    assert_eq!(
        lex("`a${`b${c}d`}e`"),
        vec![
            TICK,
            text("a"),
            OPEN,
            TICK,
            text("b"),
            OPEN,
            ident("c"),
            CLOSE,
            text("d"),
            TICK,
            CLOSE,
            text("e"),
            TICK,
        ]
    );
}

#[test]
fn braces_outside_templates_are_plain() {
    assert_eq!(
        lex("{ } `a` }"),
        vec![
            Token::Punct(Punct::LBrace),
            Token::Punct(Punct::RBrace),
            TICK,
            text("a"),
            TICK,
            Token::Punct(Punct::RBrace),
        ]
    );
}

#[test]
fn regex_and_division_inside_an_interpolation() {
    assert_eq!(
        lex("`${/a/g}`")[3],
        Token::Regex { pattern: "a".to_string(), flags: "g".to_string() }
    );
    assert_eq!(lex("`${a/b}`")[4], Token::BinOp(BinOp::Div));
}

#[test]
fn line_terminators_in_template_text() {
    assert_eq!(lex("`a\nb`"), vec![TICK, text("a\nb"), TICK]);
    assert_eq!(lex("`a\r\nb`"), vec![TICK, text("a\nb"), TICK]);
    assert_eq!(lex("`a\rb`"), vec![TICK, text("a\rb"), TICK]);
    assert_eq!(lex("`a\r\r\nb`"), vec![TICK, text("a\r\nb"), TICK]);
    assert_eq!(lex("`a\u{2028}b\u{2029}`"), vec![TICK, text("a\u{2028}b\u{2029}"), TICK]);
}

#[test]
fn line_terminator_in_template_text_sets_the_flag() {
    let tokens = all("x`a\nb${c}d`");
    let flags: Vec<bool> = tokens.iter().map(|t| t.had_line_break).collect();
    assert_eq!(flags, vec![true, false, true, false, false, false, false, false]);
    let mut lexer = Lexer::new("`\n`");
    let ctx = Context::default();
    lexer.next_token(ctx).unwrap();
    lexer.next_token(ctx).unwrap();
    assert!(lexer.had_line_break_before_last());
    lexer.next_token(ctx).unwrap();
    assert!(!lexer.had_line_break_before_last());
}

#[test]
fn escapes_in_template_text() {
    assert_eq!(lex("`\\n\\x41\\u0042\\u{43}`"), vec![TICK, text("\nABC"), TICK]);
    assert_eq!(lex("`\\`\\${\\\\`"), vec![TICK, text("`${\\"), TICK]);
    assert_eq!(lex("`a\\\nb`"), vec![TICK, text("ab"), TICK]);
    assert_eq!(lex("`\\0`"), vec![TICK, text("\0"), TICK]);
}

#[test]
fn octal_escape_in_template_is_an_error() {
    assert_eq!(
        first_error("`\\1`", Context::default()),
        (SyntaxError::LegacyOctal, Span { lo: 1, hi: 3 })
    );
    assert_eq!(first_error("`\\01`", Context::default()).0, SyntaxError::LegacyOctal);
    assert_eq!(first_error("`a${b}\\7`", Context::default()).0, SyntaxError::LegacyOctal);
}

#[test]
fn unterminated_template() {
    assert_eq!(
        first_error("`abc", Context::default()),
        (SyntaxError::UnterminatedTpl, Span { lo: 0, hi: 4 })
    );
    assert_eq!(
        first_error("`", Context::default()),
        (SyntaxError::UnterminatedTpl, Span { lo: 0, hi: 1 })
    );
    assert_eq!(
        first_error("x = `a${b}c", Context::default()),
        (SyntaxError::UnterminatedTpl, Span { lo: 4, hi: 11 })
    );
    assert_eq!(
        first_error("`a${`b", Context::default()),
        (SyntaxError::UnterminatedTpl, Span { lo: 4, hi: 6 })
    );
}

#[test]
fn template_spans() {
    let tokens = all("`h\u{e9} ${n}!`");
    let spans: Vec<(usize, usize)> = tokens.iter().map(|t| (t.span.lo, t.span.hi)).collect();
    assert_eq!(spans, vec![(0, 1), (1, 5), (5, 7), (7, 8), (8, 9), (9, 10), (10, 11)]);
    let tokens = all("`${a}`");
    let spans: Vec<(usize, usize)> = tokens.iter().map(|t| (t.span.lo, t.span.hi)).collect();
    assert_eq!(spans, vec![(0, 1), (1, 1), (1, 3), (3, 4), (4, 5), (5, 5), (5, 6)]);
}
