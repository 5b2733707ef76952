use ecma_lexer::context::Context;
use ecma_lexer::error::SyntaxError;
use ecma_lexer::input::Input;
use ecma_lexer::lexer::Lexer;
use ecma_lexer::token::{BinOp, Keyword, Span, Token, Word};

fn lex_with(src: &str, ctx: Context) -> Vec<Token> {
    let mut lexer = Lexer::new(src);
    lexer.tokens(ctx).unwrap().into_iter().map(|t| t.token).collect()
}

fn lex(src: &str) -> Vec<Token> {
    lex_with(src, Context::default())
}

fn ident(name: &str) -> Token {
    Token::Word { word: Word::Ident(name.to_string()), has_escape: false }
}

fn escaped_ident(name: &str) -> Token {
    Token::Word { word: Word::Ident(name.to_string()), has_escape: true }
}

fn keyword(k: Keyword) -> Token {
    Token::Word { word: Word::Keyword(k), has_escape: false }
}

fn chars(s: &str) -> Vec<char> {
    s.chars().collect()
}

#[test]
fn every_keyword() {
    assert_eq!(
        lex(
            "await break case catch class const continue debugger default delete do else export \
             extends finally for function if import let new return super switch this throw try \
             typeof var void while with yield"
        ),
        vec![
            keyword(Keyword::Await),
            keyword(Keyword::Break),
            keyword(Keyword::Case),
            keyword(Keyword::Catch),
            keyword(Keyword::Class),
            keyword(Keyword::Const),
            keyword(Keyword::Continue),
            keyword(Keyword::Debugger),
            keyword(Keyword::Default_),
            keyword(Keyword::Delete),
            keyword(Keyword::Do),
            keyword(Keyword::Else),
            keyword(Keyword::Export),
            keyword(Keyword::Extends),
            keyword(Keyword::Finally),
            keyword(Keyword::For),
            keyword(Keyword::Function),
            keyword(Keyword::If),
            keyword(Keyword::Import),
            keyword(Keyword::Let),
            keyword(Keyword::New),
            keyword(Keyword::Return),
            keyword(Keyword::Super),
            keyword(Keyword::Switch),
            keyword(Keyword::This),
            keyword(Keyword::Throw),
            keyword(Keyword::Try),
            keyword(Keyword::TypeOf),
            keyword(Keyword::Var),
            keyword(Keyword::Void),
            keyword(Keyword::While),
            keyword(Keyword::With),
            keyword(Keyword::Yield),
        ]
    );
}

#[test]
fn literal_words_and_word_operators() {
    assert_eq!(
        lex("null true false in instanceof"),
        vec![
            Token::Word { word: Word::Null, has_escape: false },
            Token::Word { word: Word::True, has_escape: false },
            Token::Word { word: Word::False, has_escape: false },
            Token::BinOp(BinOp::In),
            Token::BinOp(BinOp::InstanceOf),
        ]
    );
}

#[test]
fn words_that_only_look_like_keywords() {
    assert_eq!(
        lex("iff returns In nul enum of async"),
        vec![
            ident("iff"),
            ident("returns"),
            ident("In"),
            ident("nul"),
            ident("enum"),
            ident("of"),
            ident("async"),
        ]
    );
}

#[test]
fn identifiers_of_ascii() {
    assert_eq!(lex("$ _ $a_1 a1b2"), vec![ident("$"), ident("_"), ident("$a_1"), ident("a1b2")]);
}

#[test]
fn identifiers_outside_ascii() {
    assert_eq!(
        lex("caf\u{e9} \u{65e5}\u{672c}\u{8a9e} \u{3c0}2"),
        vec![ident("caf\u{e9}"), ident("\u{65e5}\u{672c}\u{8a9e}"), ident("\u{3c0}2")]
    );
}

#[test]
fn joiners_continue_an_identifier() {
    assert_eq!(lex("a\u{200c}b\u{200d}c"), vec![ident("a\u{200c}b\u{200d}c")]);
}

#[test]
fn combining_mark_continues_but_does_not_begin() {
    // U+0301 has XID_Continue and not XID_Start.
    assert_eq!(lex("e\u{301}"), vec![ident("e\u{301}")]);
    let mut lexer = Lexer::new("\u{301}");
    let err = lexer.next_token(Context::default()).unwrap_err();
    assert_eq!(err.kind, SyntaxError::UnexpectedChar { c: '\u{301}' });
}

#[test]
fn identifier_without_escape_is_the_raw_slice() {
    let src = "  caf\u{e9}+1";
    let mut lexer = Lexer::new(src);
    let t = lexer.next_token(Context::default()).unwrap().unwrap();
    assert_eq!(t.token, ident("caf\u{e9}"));
    assert_eq!(t.span, Span { lo: 2, hi: 7 });
    assert_eq!(&src[t.span.lo..t.span.hi], "caf\u{e9}");
}

#[test]
fn identifier_with_escapes_is_resolved() {
    assert_eq!(lex("\\u0061bc"), vec![escaped_ident("abc")]);
    assert_eq!(lex("a\\u{62}c"), vec![escaped_ident("abc")]);
    assert_eq!(lex("ab\\u0063"), vec![escaped_ident("abc")]);
    assert_eq!(lex("a\\u0031"), vec![escaped_ident("a1")]);
    assert_eq!(lex("\\u{65e5}x"), vec![escaped_ident("\u{65e5}x")]);
    assert_eq!(lex("\\u{00000061}"), vec![escaped_ident("a")]);
}

#[test]
fn escaped_identifier_span_covers_the_escapes() {
    let mut lexer = Lexer::new("a\\u{62}c d");
    let t = lexer.next_token(Context::default()).unwrap().unwrap();
    assert_eq!(t.span, Span { lo: 0, hi: 8 });
}

#[test]
fn escape_in_reserved_word_is_an_error() {
    let mut lexer = Lexer::new("\\u0069f");
    let err = lexer.next_token(Context::default()).unwrap_err();
    assert_eq!(err.kind, SyntaxError::EscapeInReservedWord);
    assert_eq!(err.span, Span { lo: 0, hi: 7 });
    let mut lexer = Lexer::new("nul\\u006c");
    let err = lexer.next_token(Context::default()).unwrap_err();
    assert_eq!(err.kind, SyntaxError::EscapeInReservedWord);
    let mut lexer = Lexer::new("\\u0069n");
    let err = lexer.next_token(Context::default()).unwrap_err();
    assert_eq!(err.kind, SyntaxError::EscapeInReservedWord);
}

#[test]
fn escaped_contextual_word_depends_on_context() {
    let escaped_let = Token::Word { word: Word::Keyword(Keyword::Let), has_escape: true };
    assert_eq!(lex("l\\u0065t"), vec![escaped_let]);
    let strict = Context { strict: true, ..Context::default() };
    let mut lexer = Lexer::new("l\\u0065t");
    assert_eq!(lexer.next_token(strict).unwrap_err().kind, SyntaxError::EscapeInReservedWord);

    let escaped_yield = Token::Word { word: Word::Keyword(Keyword::Yield), has_escape: true };
    assert_eq!(lex("yi\\u0065ld"), vec![escaped_yield]);
    let generator = Context { in_generator: true, ..Context::default() };
    let mut lexer = Lexer::new("yi\\u0065ld");
    assert_eq!(lexer.next_token(generator).unwrap_err().kind, SyntaxError::EscapeInReservedWord);

    let escaped_await = Token::Word { word: Word::Keyword(Keyword::Await), has_escape: true };
    assert_eq!(lex("aw\\u0061it"), vec![escaped_await]);
    let module = Context { module: true, ..Context::default() };
    let mut lexer = Lexer::new("aw\\u0061it");
    assert_eq!(lexer.next_token(module).unwrap_err().kind, SyntaxError::EscapeInReservedWord);
    let in_async = Context { in_async: true, ..Context::default() };
    let mut lexer = Lexer::new("aw\\u0061it");
    assert_eq!(lexer.next_token(in_async).unwrap_err().kind, SyntaxError::EscapeInReservedWord);

    assert_eq!(lex("st\\u0061tic"), vec![escaped_ident("static")]);
    let mut lexer = Lexer::new("st\\u0061tic");
    assert_eq!(lexer.next_token(strict).unwrap_err().kind, SyntaxError::EscapeInReservedWord);
}

#[test]
fn escape_must_name_an_identifier_character() {
    let mut lexer = Lexer::new("\\u0031a");
    let err = lexer.next_token(Context::default()).unwrap_err();
    assert_eq!(err.kind, SyntaxError::InvalidIdentChar);
    assert_eq!(err.span, Span { lo: 0, hi: 6 });
    let mut lexer = Lexer::new("a\\u0020");
    let err = lexer.next_token(Context::default()).unwrap_err();
    assert_eq!(err.kind, SyntaxError::InvalidIdentChar);
    assert_eq!(err.span, Span { lo: 1, hi: 7 });
}

#[test]
fn backslash_in_identifier_must_begin_a_unicode_escape() {
    let mut lexer = Lexer::new("a\\x41");
    let err = lexer.next_token(Context::default()).unwrap_err();
    assert_eq!(err.kind, SyntaxError::ExpectedUnicodeEscape);
    assert_eq!(err.span, Span { lo: 1, hi: 2 });
    let mut lexer = Lexer::new("\\");
    let err = lexer.next_token(Context::default()).unwrap_err();
    assert_eq!(err.kind, SyntaxError::ExpectedUnicodeEscape);
    assert_eq!(err.span, Span { lo: 0, hi: 1 });
}

#[test]
fn malformed_unicode_escapes_in_identifiers() {
    let mut lexer = Lexer::new("\\u00g1");
    let err = lexer.next_token(Context::default()).unwrap_err();
    assert_eq!(err.kind, SyntaxError::ExpectedHexChars { count: 4 });
    assert_eq!(err.span, Span { lo: 0, hi: 4 });
    let mut lexer = Lexer::new("\\u{61");
    let err = lexer.next_token(Context::default()).unwrap_err();
    assert_eq!(err.kind, SyntaxError::InvalidUnicodeEscape);
    let mut lexer = Lexer::new("\\u{}");
    let err = lexer.next_token(Context::default()).unwrap_err();
    assert_eq!(err.kind, SyntaxError::InvalidCodePoint);
    let mut lexer = Lexer::new("\\u{110000}");
    let err = lexer.next_token(Context::default()).unwrap_err();
    assert_eq!(err.kind, SyntaxError::InvalidCodePoint);
    let mut lexer = Lexer::new("\\u{ffffffffffffffffffffff}");
    let err = lexer.next_token(Context::default()).unwrap_err();
    assert_eq!(err.kind, SyntaxError::InvalidCodePoint);
    let mut lexer = Lexer::new("\\u{d800}");
    let err = lexer.next_token(Context::default()).unwrap_err();
    assert_eq!(err.kind, SyntaxError::InvalidCodePoint);
    let mut lexer = Lexer::new("\\ud800");
    let err = lexer.next_token(Context::default()).unwrap_err();
    assert_eq!(err.kind, SyntaxError::NonUtf8Char { val: 0xd800 });
}

#[test]
fn reserved_words_by_context() {
    let sloppy = Context::default();
    let strict = Context { strict: true, ..Context::default() };
    let module = Context { module: true, ..Context::default() };
    let generator = Context { in_generator: true, ..Context::default() };
    let in_async = Context { in_async: true, ..Context::default() };
    for w in ["if", "return", "in", "instanceof", "null", "true", "false", "enum", "this"] {
        assert!(sloppy.is_reserved_word(&chars(w)), "{}", w);
        assert!(strict.is_reserved_word(&chars(w)), "{}", w);
    }
    for w in ["let", "static", "implements", "interface", "package", "private", "protected", "public"] {
        assert!(!sloppy.is_reserved_word(&chars(w)), "{}", w);
        assert!(strict.is_reserved_word(&chars(w)), "{}", w);
    }
    assert!(!sloppy.is_reserved_word(&chars("yield")));
    assert!(strict.is_reserved_word(&chars("yield")));
    assert!(generator.is_reserved_word(&chars("yield")));
    assert!(!module.is_reserved_word(&chars("yield")));
    assert!(!sloppy.is_reserved_word(&chars("await")));
    assert!(!strict.is_reserved_word(&chars("await")));
    assert!(module.is_reserved_word(&chars("await")));
    assert!(in_async.is_reserved_word(&chars("await")));
    for w in ["", "x", "of", "async", "If", "returned"] {
        assert!(!strict.is_reserved_word(&chars(w)), "{}", w);
    }
}

#[test]
fn read_word_gives_text_and_flag() {
    let mut input = Input::new("ab\\u0063 d");
    assert_eq!(input.read_word_as_str().unwrap(), (chars("abc"), true));
    assert_eq!(input.cur_pos(), 8);
    let mut input = Input::new("abc");
    assert_eq!(input.read_word_as_str().unwrap(), (chars("abc"), false));
    let mut input = Input::new("1abc");
    assert_eq!(input.read_word_as_str().unwrap(), (chars(""), false));
    assert_eq!(input.cur_pos(), 0);
    assert_eq!(input.may_read_word_as_str().unwrap(), None);
    let mut input = Input::new("g1 ");
    assert_eq!(input.may_read_word_as_str().unwrap(), Some((chars("g1"), false)));
}
