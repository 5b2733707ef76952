use ecma_lexer::context::Context;
use ecma_lexer::error::SyntaxError;
use ecma_lexer::input::Input;
use ecma_lexer::lexer::Lexer;
use ecma_lexer::token::{Span, Token};

fn lex_with(src: &str, ctx: Context) -> Vec<Token> {
    let mut lexer = Lexer::new(src);
    lexer.tokens(ctx).unwrap().into_iter().map(|t| t.token).collect()
}

fn lex(src: &str) -> Vec<Token> {
    lex_with(src, Context::default())
}

fn first_error(src: &str, ctx: Context) -> (SyntaxError, Span) {
    let mut lexer = Lexer::new(src);
    let e = lexer.tokens(ctx).unwrap_err();
    (e.kind, e.span)
}

fn strict() -> Context {
    Context { strict: true, ..Context::default() }
}

fn plain(value: &str) -> Token {
    Token::Str { value: value.to_string(), has_escape: false }
}

fn escaped(value: &str) -> Token {
    Token::Str { value: value.to_string(), has_escape: true }
}

#[test]
fn strings_without_escapes() {
    assert_eq!(lex("\"abc\""), vec![plain("abc")]);
    assert_eq!(lex("'abc'"), vec![plain("abc")]);
    assert_eq!(lex("''"), vec![plain("")]);
    assert_eq!(lex("\"it's\""), vec![plain("it's")]);
    assert_eq!(lex("'say \"hi\"'"), vec![plain("say \"hi\"")]);
    assert_eq!(lex("'\u{e9}\u{1f600}'"), vec![plain("\u{e9}\u{1f600}")]);
    assert_eq!(lex("'a''b'"), vec![plain("a"), plain("b")]);
}

#[test]
fn control_escapes() {
    assert_eq!(lex("'\\n\\r\\t\\b\\v\\f'"), vec![escaped("\n\r\t\u{8}\u{b}\u{c}")]);
}

#[test]
fn escapes_of_the_char_itself() {
    assert_eq!(lex("'\\\\ \\' \\\" \\`'"), vec![escaped("\\ ' \" `")]);
    assert_eq!(lex("'\\a\\z\\8\\9\\-'"), vec![escaped("az89-")]);
    assert_eq!(lex("'\\\u{e9}'"), vec![escaped("\u{e9}")]);
}

#[test]
fn nul_escape() {
    assert_eq!(lex("'\\0'"), vec![escaped("\0")]);
    assert_eq!(lex("'\\0a'"), vec![escaped("\0a")]);
    assert_eq!(lex("'\\08'"), vec![escaped("\u{0}8")]);
    assert_eq!(lex_with("'\\0'", strict()), vec![escaped("\0")]);
    assert_eq!(lex_with("'\\09'", strict()), vec![escaped("\u{0}9")]);
}

#[test]
fn hex_escapes() {
    assert_eq!(lex("'\\x41\\x7a\\xFf'"), vec![escaped("Az\u{ff}")]);
    assert_eq!(lex("'\\x411'"), vec![escaped("A1")]);
}

#[test]
fn unicode_escapes() {
    assert_eq!(lex("'\\u0041\\u00e9\\u20AC'"), vec![escaped("A\u{e9}\u{20ac}")]);
    assert_eq!(lex("'\\u00410'"), vec![escaped("A0")]);
    assert_eq!(lex("'\\u{41}\\u{1F600}\\u{10FFFF}\\u{000000061}'"), vec![escaped("A\u{1f600}\u{10ffff}a")]);
    assert_eq!(lex("'\\u{0}'"), vec![escaped("\0")]);
}

#[test]
fn line_continuations() {
    assert_eq!(lex("'a\\\nb'"), vec![escaped("ab")]);
    assert_eq!(lex("'a\\\rb'"), vec![escaped("ab")]);
    assert_eq!(lex("'a\\\r\nb'"), vec![escaped("ab")]);
    assert_eq!(lex("'a\\\u{2028}b'"), vec![escaped("ab")]);
    assert_eq!(lex("'a\\\u{2029}b'"), vec![escaped("ab")]);
    assert_eq!(lex("'\\\n'"), vec![escaped("")]);
    assert_eq!(first_error("'a\\\r\n\nb'", Context::default()).0, SyntaxError::UnterminatedStrLit);
}

#[test]
fn legacy_octal_escapes() {
    assert_eq!(lex("'\\1'"), vec![escaped("\u{1}")]);
    assert_eq!(lex("'\\7x'"), vec![escaped("\u{7}x")]);
    assert_eq!(lex("'\\12'"), vec![escaped("\n")]);
    assert_eq!(lex("'\\101'"), vec![escaped("A")]);
    assert_eq!(lex("'\\143'"), vec![escaped("c")]);
    assert_eq!(lex("'\\377'"), vec![escaped("\u{ff}")]);
    assert_eq!(lex("'\\400'"), vec![escaped(" 0")]);
    assert_eq!(lex("'\\477'"), vec![escaped("'7")]);
    assert_eq!(lex("'\\1011'"), vec![escaped("A1")]);
    assert_eq!(lex("'\\18'"), vec![escaped("\u{1}8")]);
    assert_eq!(lex("'\\00'"), vec![escaped("\0")]);
    assert_eq!(lex("'\\000'"), vec![escaped("\0")]);
    assert_eq!(lex("'\\0000'"), vec![escaped("\u{0}0")]);
    assert_eq!(lex("'\\07'"), vec![escaped("\u{7}")]);
}

#[test]
fn legacy_octal_escapes_in_strict_code() {
    assert_eq!(first_error("'\\1'", strict()), (SyntaxError::LegacyOctal, Span { lo: 1, hi: 3 }));
    assert_eq!(first_error("'a\\101'", strict()), (SyntaxError::LegacyOctal, Span { lo: 2, hi: 4 }));
    assert_eq!(first_error("'\\00'", strict()), (SyntaxError::LegacyOctal, Span { lo: 1, hi: 3 }));
    assert_eq!(lex_with("'\\8'", strict()), vec![escaped("8")]);
}

#[test]
fn unterminated_strings() {
    assert_eq!(first_error("\"abc", Context::default()), (SyntaxError::UnterminatedStrLit, Span { lo: 0, hi: 4 }));
    assert_eq!(first_error("'", Context::default()), (SyntaxError::UnterminatedStrLit, Span { lo: 0, hi: 1 }));
    assert_eq!(first_error("x 'a\nb'", Context::default()), (SyntaxError::UnterminatedStrLit, Span { lo: 2, hi: 4 }));
    assert_eq!(first_error("'a\rb'", Context::default()).0, SyntaxError::UnterminatedStrLit);
    assert_eq!(first_error("'a\u{2028}b'", Context::default()).0, SyntaxError::UnterminatedStrLit);
    assert_eq!(first_error("'a\u{2029}b'", Context::default()).0, SyntaxError::UnterminatedStrLit);
    assert_eq!(first_error("'abc\"", Context::default()), (SyntaxError::UnterminatedStrLit, Span { lo: 0, hi: 5 }));
}

#[test]
fn malformed_escapes() {
    assert_eq!(first_error("'\\", Context::default()), (SyntaxError::InvalidStrEscape, Span { lo: 1, hi: 2 }));
    assert_eq!(first_error("'\\x4'", Context::default()), (SyntaxError::ExpectedHexChars { count: 2 }, Span { lo: 1, hi: 4 }));
    assert_eq!(first_error("'\\xg0'", Context::default()), (SyntaxError::ExpectedHexChars { count: 2 }, Span { lo: 1, hi: 3 }));
    assert_eq!(first_error("'\\u12'", Context::default()), (SyntaxError::ExpectedHexChars { count: 4 }, Span { lo: 1, hi: 5 }));
    assert_eq!(first_error("'\\u", Context::default()), (SyntaxError::ExpectedHexChars { count: 4 }, Span { lo: 1, hi: 3 }));
    assert_eq!(first_error("'ab\\uD800'", Context::default()), (SyntaxError::NonUtf8Char { val: 0xd800 }, Span { lo: 3, hi: 9 }));
    assert_eq!(first_error("'\\uDFFF'", Context::default()).0, SyntaxError::NonUtf8Char { val: 0xdfff });
    assert_eq!(first_error("'\\u{110000}'", Context::default()), (SyntaxError::InvalidCodePoint, Span { lo: 1, hi: 10 }));
    assert_eq!(first_error("'\\u{}'", Context::default()), (SyntaxError::InvalidCodePoint, Span { lo: 1, hi: 4 }));
    assert_eq!(first_error("'\\u{D800}'", Context::default()).0, SyntaxError::InvalidCodePoint);
    assert_eq!(first_error("'\\u{fffffffffffffffff}'", Context::default()).0, SyntaxError::InvalidCodePoint);
    assert_eq!(first_error("'\\u{41'", Context::default()), (SyntaxError::InvalidUnicodeEscape, Span { lo: 1, hi: 6 }));
    assert_eq!(first_error("'\\u{41 }'", Context::default()).0, SyntaxError::InvalidUnicodeEscape);
}

#[test]
fn string_span_includes_the_quotes() {
    let mut lexer = Lexer::new(" '\u{e9}\\n' ");
    let t = lexer.next_token(Context::default()).unwrap().unwrap();
    assert_eq!(t.span, Span { lo: 1, hi: 7 });
}

#[test]
fn escape_scanner_alone() {
    let mut input = Input::new("\\x41rest");
    assert_eq!(input.read_escaped_char(false, false).unwrap(), Some('A'));
    assert_eq!(input.cur_pos(), 4);
    let mut input = Input::new("\\\r\nx");
    assert_eq!(input.read_escaped_char(false, false).unwrap(), None);
    assert_eq!(input.cur_pos(), 3);
    let mut input = Input::new("\\101");
    assert_eq!(input.read_escaped_char(true, false).unwrap_err().kind, SyntaxError::LegacyOctal);
    let mut input = Input::new("u{1F600}");
    assert_eq!(input.read_unicode_escape(0).unwrap(), '\u{1f600}');
    let mut input = Input::new("00e9");
    assert_eq!(input.read_hex_char(0, 4).unwrap(), '\u{e9}');
    let mut input = Input::new("10FFFF}");
    assert_eq!(input.read_code_point(0).unwrap(), '\u{10ffff}');
    assert_eq!(input.current(), Some('}'));
}
