use ecma_lexer::context::Context;
use ecma_lexer::error::SyntaxError;
use ecma_lexer::lexer::Lexer;
use ecma_lexer::token::{Number, Punct, Span, Token};

fn lex_with(src: &str, ctx: Context) -> Vec<Token> {
    let mut lexer = Lexer::new(src);
    lexer.tokens(ctx).unwrap().into_iter().map(|t| t.token).collect()
}

fn lex(src: &str) -> Vec<Token> {
    lex_with(src, Context::default())
}

fn first_error(src: &str, ctx: Context) -> (SyntaxError, Span) {
    let mut lexer = Lexer::new(src);
    let e = lexer.tokens(ctx).unwrap_err();
    (e.kind, e.span)
}

fn strict() -> Context {
    Context { strict: true, ..Context::default() }
}

fn whole(radix: u8, digits: &[u8]) -> Token {
    Token::Num(Number {
        radix,
        int_digits: digits.to_vec(),
        frac_digits: vec![],
        exp_negative: false,
        exp_digits: vec![],
    })
}

fn dec(int_digits: &[u8], frac_digits: &[u8], exp_negative: bool, exp_digits: &[u8]) -> Token {
    Token::Num(Number {
        radix: 10,
        int_digits: int_digits.to_vec(),
        frac_digits: frac_digits.to_vec(),
        exp_negative,
        exp_digits: exp_digits.to_vec(),
    })
}

fn number(src: &str) -> Number {
    match lex(src).pop() {
        Some(Token::Num(n)) => n,
        other => panic!("not a number: {:?}", other),
    }
}

#[test]
fn decimal_integers() {
    assert_eq!(lex("0"), vec![whole(10, &[0])]);
    assert_eq!(lex("7"), vec![whole(10, &[7])]);
    assert_eq!(lex("1234567890"), vec![whole(10, &[1, 2, 3, 4, 5, 6, 7, 8, 9, 0])]);
}

#[test]
fn fractions() {
    assert_eq!(lex("0.5"), vec![dec(&[0], &[5], false, &[])]);
    assert_eq!(lex(".5"), vec![dec(&[], &[5], false, &[])]);
    assert_eq!(lex("5."), vec![dec(&[5], &[], false, &[])]);
    assert_eq!(lex("12.034"), vec![dec(&[1, 2], &[0, 3, 4], false, &[])]);
}

#[test]
fn exponents() {
    assert_eq!(lex("1e3"), vec![dec(&[1], &[], false, &[3])]);
    assert_eq!(lex("1E+30"), vec![dec(&[1], &[], false, &[3, 0])]);
    assert_eq!(lex("1e-2"), vec![dec(&[1], &[], true, &[2])]);
    assert_eq!(lex(".5e1"), vec![dec(&[], &[5], false, &[1])]);
    assert_eq!(lex("2.5e10"), vec![dec(&[2], &[5], false, &[1, 0])]);
    assert_eq!(lex("1.e5"), vec![dec(&[1], &[], false, &[5])]);
    assert_eq!(lex("0e0"), vec![dec(&[0], &[], false, &[0])]);
}

#[test]
fn radix_prefixes() {
    assert_eq!(lex("0x1F"), vec![whole(16, &[1, 15])]);
    assert_eq!(lex("0Xff"), vec![whole(16, &[15, 15])]);
    assert_eq!(lex("0b11"), vec![whole(2, &[1, 1])]);
    assert_eq!(lex("0B0"), vec![whole(2, &[0])]);
    assert_eq!(lex("0o17"), vec![whole(8, &[1, 7])]);
    assert_eq!(lex("0O7"), vec![whole(8, &[7])]);
}

#[test]
fn legacy_octal_and_leading_zero_decimal() {
    assert_eq!(lex("017"), vec![whole(8, &[0, 1, 7])]);
    assert_eq!(lex("00"), vec![whole(8, &[0, 0])]);
    assert_eq!(lex("09"), vec![whole(10, &[0, 9])]);
    assert_eq!(lex("018"), vec![whole(10, &[0, 1, 8])]);
    assert_eq!(lex("09.5"), vec![dec(&[0, 9], &[5], false, &[])]);
    assert_eq!(lex("017.5"), vec![whole(8, &[0, 1, 7]), dec(&[], &[5], false, &[])]);
}

#[test]
fn leading_zero_in_strict_code() {
    assert_eq!(first_error("017", strict()), (SyntaxError::LegacyOctal, Span { lo: 0, hi: 3 }));
    assert_eq!(first_error("09", strict()), (SyntaxError::LegacyOctal, Span { lo: 0, hi: 2 }));
    assert_eq!(first_error("00", strict()), (SyntaxError::LegacyOctal, Span { lo: 0, hi: 2 }));
    assert_eq!(lex_with("0", strict()), vec![whole(10, &[0])]);
    assert_eq!(lex_with("0.5", strict()), vec![dec(&[0], &[5], false, &[])]);
    assert_eq!(lex_with("0x10 0o10 0b10", strict()), vec![
        whole(16, &[1, 0]),
        whole(8, &[1, 0]),
        whole(2, &[1, 0]),
    ]);
}

#[test]
fn radix_prefix_needs_a_digit() {
    assert_eq!(first_error("0x", Context::default()), (SyntaxError::InvalidNumber, Span { lo: 0, hi: 2 }));
    assert_eq!(first_error("0b", Context::default()), (SyntaxError::InvalidNumber, Span { lo: 0, hi: 2 }));
    assert_eq!(first_error("0o;", Context::default()), (SyntaxError::InvalidNumber, Span { lo: 0, hi: 2 }));
    assert_eq!(first_error("0b2", Context::default()), (SyntaxError::InvalidNumber, Span { lo: 0, hi: 2 }));
    assert_eq!(first_error("0xg", Context::default()), (SyntaxError::InvalidNumber, Span { lo: 0, hi: 2 }));
}

#[test]
fn exponent_needs_a_digit() {
    assert_eq!(first_error("1e", Context::default()), (SyntaxError::InvalidNumber, Span { lo: 0, hi: 2 }));
    assert_eq!(first_error("1e+", Context::default()), (SyntaxError::InvalidNumber, Span { lo: 0, hi: 3 }));
    assert_eq!(first_error("1.5E-x", Context::default()), (SyntaxError::InvalidNumber, Span { lo: 0, hi: 5 }));
}

#[test]
fn number_must_not_run_into_identifier_or_digit() {
    assert_eq!(first_error("3in", Context::default()), (SyntaxError::InvalidNumber, Span { lo: 0, hi: 1 }));
    assert_eq!(first_error("1.5px", Context::default()), (SyntaxError::InvalidNumber, Span { lo: 0, hi: 3 }));
    assert_eq!(first_error("0b12", Context::default()), (SyntaxError::InvalidNumber, Span { lo: 0, hi: 3 }));
    assert_eq!(first_error("0o18", Context::default()), (SyntaxError::InvalidNumber, Span { lo: 0, hi: 3 }));
    assert_eq!(first_error("0x1g", Context::default()), (SyntaxError::InvalidNumber, Span { lo: 0, hi: 3 }));
    assert_eq!(first_error("017a", Context::default()), (SyntaxError::InvalidNumber, Span { lo: 0, hi: 3 }));
    assert_eq!(first_error("1e5$", Context::default()), (SyntaxError::InvalidNumber, Span { lo: 0, hi: 3 }));
    assert_eq!(first_error("12\u{3c0}", Context::default()), (SyntaxError::InvalidNumber, Span { lo: 0, hi: 2 }));
}

#[test]
fn number_before_punctuation() {
    assert_eq!(
        lex("5..toString"),
        vec![
            dec(&[5], &[], false, &[]),
            Token::Punct(Punct::Dot),
            Token::Word {
                word: ecma_lexer::token::Word::Ident("toString".to_string()),
                has_escape: false,
            },
        ]
    );
    assert_eq!(
        lex("1.5.2"),
        vec![dec(&[1], &[5], false, &[]), dec(&[], &[2], false, &[])]
    );
    assert_eq!(lex("1;"), vec![whole(10, &[1]), Token::Punct(Punct::Semi)]);
}

#[test]
fn integer_value_is_exact() {
    assert_eq!(number("0").integer_value(), Some(0));
    assert_eq!(number("12").integer_value(), Some(12));
    assert_eq!(number("0x1F").integer_value(), Some(31));
    assert_eq!(number("0b11").integer_value(), Some(3));
    assert_eq!(number("0o17").integer_value(), Some(15));
    assert_eq!(number("017").integer_value(), Some(15));
    assert_eq!(number("09").integer_value(), Some(9));
    assert_eq!(number("18446744073709551615").integer_value(), Some(u64::MAX));
    assert_eq!(number("0xFFFFFFFFFFFFFFFF").integer_value(), Some(u64::MAX));
    assert_eq!(number("0o1777777777777777777777").integer_value(), Some(u64::MAX));
    assert_eq!(number("000000000000000000000000000007").integer_value(), Some(7));
}

#[test]
fn integer_value_of_what_is_no_small_integer() {
    assert_eq!(number("18446744073709551616").integer_value(), None);
    assert_eq!(number("0x10000000000000000").integer_value(), None);
    assert_eq!(number("0o2000000000000000000000").integer_value(), None);
    assert_eq!(number("99999999999999999999999999").integer_value(), None);
    assert_eq!(number("1.5").integer_value(), None);
    assert_eq!(number("5.").integer_value(), Some(5));
    assert_eq!(number("1e3").integer_value(), None);
    assert_eq!(number(".5").integer_value(), None);
}
