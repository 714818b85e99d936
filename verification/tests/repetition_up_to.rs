use yapcol::input::Position;
use yapcol::{and, any, end_of_input, is, up_to, Error, Input};

/// Checks that `value` is an unexpected-token error at `position` whose mismatch mentions
/// `expected` before "found:" and `found` after it.
fn assert_unexpected_error<T: std::fmt::Debug>(
    value: Result<T, Error>,
    position: Position,
    expected: &str,
    found: &str,
) {
    let error = value.unwrap_err();
    if let Error::UnexpectedToken(_, error_pos, mismatch) = error {
        if error_pos != position {
            panic!("Expected error position to be {position:?}, but got {error_pos:?}");
        }
        let mismatch_message = mismatch.unwrap().text();
        let mut split = mismatch_message.split("found:");
        let expected_message = split.next().unwrap();
        assert!(expected_message.contains(expected));
        let found_message = split.next().unwrap();
        assert!(found_message.contains(found));
    } else {
        panic!("Expected error to be of type UnexpectedToken, but got {:?}", error);
    }
}

#[test]
fn up_to_empty() {
    let parser = is('h');
    let mut input = Input::new_from_chars("".chars().collect(), None);
    let parser_up_to = up_to(&parser, 1);
    let output = parser_up_to(&mut input).unwrap();
    assert_eq!(output, 0);
}

#[test]
fn up_to_empty_shortcut() {
    let parser_inner = is('h');
    let parser = up_to(&parser_inner, 1);
    let mut input = Input::new_from_chars("".chars().collect(), None);
    let output = parser(&mut input).unwrap();
    assert_eq!(output, 0);
}

#[test]
fn up_to_no_match() {
    let parser = is('h');
    let mut input = Input::new_from_chars("jklmno".chars().collect(), None);
    let parser_up_to = up_to(&parser, 1);
    let output = parser_up_to(&mut input).unwrap();
    assert_eq!(output, 0);
    assert!(end_of_input()(&mut input).is_err()); // Ensure that the input was NOT consumed.
}

#[test]
fn up_to_no_match_shortcut() {
    let parser_inner = is('h');
    let parser = up_to(&parser_inner, 1);
    let mut input = Input::new_from_chars("jklmno".chars().collect(), None);
    let output = parser(&mut input).unwrap();
    assert_eq!(output, 0);
    assert!(end_of_input()(&mut input).is_err()); // Ensure that the input was NOT consumed.
}

#[test]
fn up_to_one_match() {
    let parser = is('h');
    let mut input = Input::new_from_chars("hello".chars().collect(), None);
    let parser_up_to = up_to(&parser, 1);
    let output = parser_up_to(&mut input).unwrap();
    assert_eq!(output, 1);
    assert_eq!(input.consumed_count(), 1);
    assert!(end_of_input()(&mut input).is_err()); // Ensure that the input was NOT consumed.
    assert_eq!(any()(&mut input), Ok('e'));
}

#[test]
fn up_to_less_than_max_count() {
    let parser = is('h');
    let mut input = Input::new_from_chars("hhello".chars().collect(), None);
    let parser_up_to = up_to(&parser, 3);
    let output = parser_up_to(&mut input).unwrap();
    assert_eq!(output, 2);
    assert_eq!(input.consumed_count(), 2);
    assert!(end_of_input()(&mut input).is_err()); // Ensure that the input was NOT consumed.
    assert_eq!(any()(&mut input), Ok('e'));
}

#[test]
fn up_to_equal_to_max_count() {
    let parser = is('h');
    let mut input = Input::new_from_chars("hhhello".chars().collect(), None);
    let parser_up_to = up_to(&parser, 3);
    let output = parser_up_to(&mut input).unwrap();
    assert_eq!(output, 3);
    assert_eq!(input.consumed_count(), 3);
    assert!(end_of_input()(&mut input).is_err()); // Ensure that the input was NOT consumed.
    assert_eq!(any()(&mut input), Ok('e'));
}

#[test]
fn up_to_more_than_max_count() {
    let parser = is('h');
    let mut input = Input::new_from_chars("hhhhello".chars().collect(), None);
    let parser_up_to = up_to(&parser, 3);
    let output = parser_up_to(&mut input);
    let position = Position::new(1, 4);
    assert_unexpected_error(output, position, "3", "4");
}

#[test]
fn up_to_zero_empty() {
    let parser = is('h');
    let mut input = Input::new_from_chars("".chars().collect(), None);
    let parser_up_to = up_to(&parser, 0);
    let output = parser_up_to(&mut input).unwrap();
    assert_eq!(output, 0);
    assert_eq!(input.consumed_count(), 0);
}

#[test]
fn up_to_zero_success() {
    let parser = is('h');
    let mut input = Input::new_from_chars("ello".chars().collect(), None);
    let parser_up_to = up_to(&parser, 0);
    let output = parser_up_to(&mut input).unwrap();
    assert_eq!(output, 0);
    assert_eq!(input.consumed_count(), 0);
    assert!(end_of_input()(&mut input).is_err()); // Ensure that the input was NOT consumed.
    assert_eq!(any()(&mut input), Ok('e'));
}

#[test]
fn up_to_zero_fail() {
    let parser = is('h');
    let mut input = Input::new_from_chars("hello".chars().collect(), None);
    let parser_up_to = up_to(&parser, 0);
    let output = parser_up_to(&mut input);
    let position = Position::new(1, 1);
    assert_unexpected_error(output, position, "0", "1");
    assert_eq!(input.consumed_count(), 1);
    assert!(end_of_input()(&mut input).is_err()); // Ensure that the input was NOT consumed.
    assert_eq!(any()(&mut input), Ok('e'));
}
