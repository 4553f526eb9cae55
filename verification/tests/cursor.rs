//! Tests of the cursor: reading, peeking, exact matching, rollback.

use parsing::input::Input;

#[test]
fn get_char_should_return_char_and_index() {
    let mut input = Input::new("string");

    let c = input.get_char().expect("Should be able to get 's'");
    assert_eq!((0, 's'), c);

    let c = input.get_char().expect("Should be able to get 't'");
    assert_eq!((1, 't'), c);

    let c = input.get_char().expect("Should be able to get 'r'");
    assert_eq!((2, 'r'), c);

    let c = input.get_char().expect("Should be able to get 'i'");
    assert_eq!((3, 'i'), c);

    let c = input.get_char().expect("Should be able to get 'n'");
    assert_eq!((4, 'n'), c);

    let c = input.get_char().expect("Should be able to get 'g'");
    assert_eq!((5, 'g'), c);
}

#[test]
fn get_char_returns_failure_index() {
    let mut input = Input::new("ab");
    input.get_char().unwrap();
    input.get_char().unwrap();
    assert_eq!(input.get_char(), Err(2));
}

#[test]
fn exact_failure_should_not_change_index() {
    let mut input = Input::new("string");

    let result = input.exact("yy");

    assert!(matches!(result, Err(_)));

    let result = input.exact("string");

    assert!(matches!(result, Ok(_)));
}

#[test]
fn exact_success_should_change_index() {
    let mut input = Input::new("string");

    let result = input.exact("st");

    assert!(matches!(result, Ok(_)));

    let result = input.exact("ring");

    assert!(matches!(result, Ok(_)));
}

#[test]
fn exact_returns_index_on_failure() {
    let mut input = Input::new("string");
    // 's' matches, 'x' mismatches at offset 1.
    assert_eq!(input.exact("sx"), Err(1));
    // Running out of input reports the total length.
    assert_eq!(input.exact("stringy"), Err(6));
}

#[test]
fn exact_returns_target_string() {
    let mut input = Input::new("string");
    let (s, _, _) = input.exact("str").unwrap();
    assert_eq!(s, "str");
}

#[test]
fn exact_returns_correct_start_index() {
    let mut input = Input::new("string");
    input.exact("st").unwrap();
    let (_, start, _) = input.exact("ring").unwrap();
    assert_eq!(start, 2);
}

#[test]
fn exact_returns_correct_end_index() {
    let mut input = Input::new("string");
    input.exact("st").unwrap();
    let (_, _, end) = input.exact("ring").unwrap();
    // The produced range is half-open: [2, 6).
    assert_eq!(end, 6);
}

#[test]
fn peek_error_returns_index() {
    let mut input = Input::new("");
    assert_eq!(input.peek(), Err(0));
}

#[test]
fn peek_success_returns_index_and_value() {
    let mut input = Input::new("string");
    assert_eq!(input.peek(), Ok((0, 's')));
}

#[test]
fn peek_success_does_not_increase_index() {
    let mut input = Input::new("string");
    input.peek().unwrap();
    input.peek().unwrap();
    assert_eq!(input.get_char(), Ok((0, 's')));
}

#[test]
fn restore_rolls_back_to_snapshot() {
    let mut input = Input::new("abc");
    let rp = input.restore_point();
    input.get_char().unwrap();
    input.get_char().unwrap();
    input.restore(rp);
    assert_eq!(input.get_char(), Ok((0, 'a')));
}
