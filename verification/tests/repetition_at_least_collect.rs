use yapcol::input::Position;
use yapcol::{and, any, at_least_collect, end_of_input, is, Error, Input};

/// Checks that `value` is an unexpected-token error at `position` whose mismatch mentions
/// `expected` before "found:" and `found` after it.
fn assert_unexpected_error<T: std::fmt::Debug>(
    value: Result<T, Error>,
    position: Position,
    expected: &str,
    found: &str,
) {
    let error = value.unwrap_err();
    if let Error::UnexpectedToken(_, error_pos, mismatch) = error {
        if error_pos != position {
            panic!("Expected error position to be {position:?}, but got {error_pos:?}");
        }
        let mismatch_message = mismatch.unwrap().text();
        let mut split = mismatch_message.split("found:");
        let expected_message = split.next().unwrap();
        assert!(expected_message.contains(expected));
        let found_message = split.next().unwrap();
        assert!(found_message.contains(found));
    } else {
        panic!("Expected error to be of type UnexpectedToken, but got {:?}", error);
    }
}

#[test]
fn at_least_collect_empty() {
    let parser = is('h');
    let mut input = Input::new_from_chars("".chars().collect(), None);
    let parser_up_to = at_least_collect(&parser, 1);
    assert_eq!(
        parser_up_to(&mut input),
        Err(Error::EndOfInput(Some("h".to_string())))
    );
}

#[test]
fn at_least_collect_empty_shortcut() {
    let parser_inner = is('h');
    let parser = at_least_collect(&parser_inner, 1);
    let mut input = Input::new_from_chars("".chars().collect(), None);
    assert_eq!(
        parser(&mut input),
        Err(Error::EndOfInput(Some("h".to_string())))
    );
}

#[test]
fn at_least_collect_no_match() {
    let parser = is('h');
    let mut input = Input::new_from_chars("jklmno".chars().collect(), None);
    let parser_up_to = at_least_collect(&parser, 1);
    let output = parser_up_to(&mut input);
    let position = Position::new(1, 1);
    assert_unexpected_error(output, position, "h", "j");
    assert!(end_of_input()(&mut input).is_err()); // Ensure that the input was NOT consumed.
}

#[test]
fn at_least_collect_no_match_shortcut() {
    let parser_inner = is('h');
    let parser = at_least_collect(&parser_inner, 1);
    let mut input = Input::new_from_chars("jklmno".chars().collect(), None);
    let output = parser(&mut input);
    let position = Position::new(1, 1);
    assert_unexpected_error(output, position, "h", "j");
    assert!(end_of_input()(&mut input).is_err()); // Ensure that the input was NOT consumed.
}

#[test]
fn exact_count_succeeds() {
    let parser = is('h');
    let mut input = Input::new_from_chars("hello".chars().collect(), None);
    let parser_up_to = at_least_collect(&parser, 1);
    let output = parser_up_to(&mut input).unwrap();
    assert_eq!(output, vec!['h']);
    assert_eq!(input.consumed_count(), 1);
    assert!(end_of_input()(&mut input).is_err()); // Ensure that the input was NOT consumed.
    assert_eq!(any()(&mut input), Ok('e'));
}

#[test]
fn more_than_count_succeeds() {
    let parser = is('h');
    let mut input = Input::new_from_chars("hhhello".chars().collect(), None);
    let parser_up_to = at_least_collect(&parser, 2);
    let output = parser_up_to(&mut input).unwrap();
    assert_eq!(output, vec!['h', 'h', 'h']);
    assert_eq!(input.consumed_count(), 3);
    assert!(end_of_input()(&mut input).is_err()); // Ensure that the input was NOT consumed.
    assert_eq!(any()(&mut input), Ok('e'));
}

#[test]
fn less_than_min_count_fails() {
    let parser = is('h');
    let mut input = Input::new_from_chars("hhello".chars().collect(), None);
    let parser_up_to = at_least_collect(&parser, 3);
    let output = parser_up_to(&mut input);
    let position = Position::new(1, 3);
    assert_unexpected_error(output, position, "h", "e");
}
