use ecma_lexer::input::Input;

#[test]
fn cursor_counts_code_points_and_bytes() {
    let mut input = Input::new("a\u{e9}\u{20ac}\u{1f600}");
    assert_eq!(input.current(), Some('a'));
    assert_eq!(input.peek(), Some('\u{e9}'));
    assert_eq!(input.peek_ahead(), Some('\u{20ac}'));
    assert_eq!(input.peek_nth(3), Some('\u{1f600}'));
    assert_eq!(input.peek_nth(4), None);
    assert_eq!(input.cur_pos(), 0);
    input.bump();
    assert_eq!(input.cur_pos(), 1);
    input.bump();
    assert_eq!(input.cur_pos(), 3);
    input.bump();
    assert_eq!(input.cur_pos(), 6);
    assert_eq!(input.current(), Some('\u{1f600}'));
    assert_eq!(input.peek(), None);
    assert!(!input.at_end());
    input.bump();
    assert_eq!(input.cur_pos(), 10);
    assert_eq!(input.current(), None);
    assert!(input.at_end());
}

#[test]
fn bump_at_the_end_stays() {
    let mut input = Input::new("x");
    input.bump();
    input.bump();
    input.bump();
    assert_eq!(input.current(), None);
    assert_eq!(input.cur_pos(), 1);
}

#[test]
fn empty_input_is_at_its_end() {
    let input = Input::new("");
    assert_eq!(input.current(), None);
    assert_eq!(input.peek(), None);
    assert_eq!(input.peek_ahead(), None);
    assert_eq!(input.cur_pos(), 0);
}

#[test]
fn eat_moves_only_over_the_char_asked_for() {
    let mut input = Input::new("ab");
    assert!(input.is('a'));
    assert!(!input.is('b'));
    assert!(!input.eat('b'));
    assert_eq!(input.cur_pos(), 0);
    assert!(input.eat('a'));
    assert_eq!(input.cur_pos(), 1);
    assert!(input.eat('b'));
    assert!(!input.eat('b'));
    assert!(!input.is('b'));
}

#[test]
fn digits_are_read_by_radix() {
    let mut input = Input::new("1f9z");
    assert_eq!(input.digit_here(10), Some(1));
    assert_eq!(input.read_digits(16), vec![1, 15, 9]);
    assert_eq!(input.current(), Some('z'));
    assert_eq!(input.digit_here(16), None);
    assert_eq!(input.digit_here(36), Some(35));
    assert_eq!(input.read_digits(10), Vec::<u8>::new());
    let mut upper = Input::new("AbC");
    assert_eq!(upper.read_digits(16), vec![10, 11, 12]);
}
