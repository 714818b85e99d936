use yapcol::input::Position;
use yapcol::{and, any, attempt, end_of_input, is, many0, many0_up_to, many1, many1_up_to, success, Error, Input, Mismatch, Parser, StringInput};

/// Checks that `value` is an unexpected-token error at `position` whose mismatch mentions
/// `expected` before "found:" and `found` after it.
fn assert_unexpected_error<T: std::fmt::Debug>(
    value: Result<T, Error>,
    position: Position,
    expected: &str,
    found: &str,
) {
    let error = value.unwrap_err();
    if let Error::UnexpectedToken(_, error_pos, mismatch) = error {
        if error_pos != position {
            panic!("Expected error position to be {position:?}, but got {error_pos:?}");
        }
        let mismatch_message = mismatch.unwrap().text();
        let mut split = mismatch_message.split("found:");
        let expected_message = split.next().unwrap();
        assert!(expected_message.contains(expected));
        let found_message = split.next().unwrap();
        assert!(found_message.contains(found));
    } else {
        panic!("Expected error to be of type UnexpectedToken, but got {:?}", error);
    }
}

#[test]
fn many_empty() {
    let parser = is('h');
    let mut input = Input::new_from_chars("".chars().collect(), None);
    let parser_many0 = many0(&parser);
    let output = parser_many0(&mut input).unwrap();
    assert_eq!(output.len(), 0);
}

#[test]
fn many_empty_shortcut() {
    let parser_inner = is('h');
    let parser = many0(&parser_inner);
    let mut input = Input::new_from_chars("".chars().collect(), None);
    let output = parser(&mut input).unwrap();
    assert_eq!(output.len(), 0);
}

#[test]
fn many_no_match_not_empty() {
    let token_count = 100;
    let parser = is('h');
    let tokens = std::iter::repeat_n('j', token_count).collect::<Vec<_>>();
    let mut input = Input::new_from_chars(tokens, None);
    let parser_many0 = many0(&parser);
    let output = parser_many0(&mut input).unwrap();
    assert_eq!(output.len(), 0);
    assert_eq!(input.consumed_count(), 0);
    assert!(end_of_input()(&mut input).is_err()); // Ensure that the input was NOT consumed.
}

#[test]
fn many_no_match_not_empty_shortcut() {
    let token_count = 100;
    let parser_inner = is('h');
    let parser = many0(&parser_inner);
    let tokens = std::iter::repeat_n('j', token_count).collect::<Vec<_>>();
    let mut input = Input::new_from_chars(tokens, None);
    let output = parser(&mut input).unwrap();
    assert_eq!(output.len(), 0);
    assert_eq!(input.consumed_count(), 0);
    assert!(end_of_input()(&mut input).is_err()); // Ensure that the input was NOT consumed.
}

#[test]
fn many_match_not_empty() {
    let token_count = 100;
    let parser = is('h');
    let tokens = std::iter::repeat_n('h', token_count).collect::<Vec<_>>();
    let mut input = Input::new_from_chars(tokens, None);
    let parser_many0 = many0(&parser);
    let output = parser_many0(&mut input).unwrap();
    assert_eq!(output.len(), token_count);
    assert_eq!(input.consumed_count(), token_count);
    assert!(end_of_input()(&mut input).is_ok()); // Ensure that the input was consumed.
}

#[test]
fn many_match_not_empty_shortcut() {
    let token_count = 100;
    let parser_inner = is('h');
    let parser = many0(&parser_inner);
    let tokens = std::iter::repeat_n('h', token_count).collect::<Vec<_>>();
    let mut input = Input::new_from_chars(tokens, None);
    let output = parser(&mut input).unwrap();
    assert_eq!(output.len(), token_count);
    assert_eq!(input.consumed_count(), token_count);
    assert!(end_of_input()(&mut input).is_ok()); // Ensure that the input was consumed.
}

#[test]
fn many_partial_match_then_stop() {
    let parser = is('#');
    let mut input = Input::new_from_chars("#####Hello".chars().collect(), None);
    let parser_many0 = many0(&parser);
    let output = parser_many0(&mut input).unwrap();
    assert_eq!(output, "#####".chars().collect::<Vec<_>>());
    assert_eq!(input.consumed_count(), 5);
    assert!(end_of_input()(&mut input).is_err()); // Ensure that the input was NOT consumed.
    assert_eq!(any()(&mut input), Ok('H'));
}

#[test]
fn many_non_consuming_parser_does_not_loop() {
    let parser = success(1); // Non-consuming parser.
    let mut input = Input::new_from_chars("hello".chars().collect(), None);
    let parser = many0(&parser);
    let output = parser(&mut input);
    let position = Position::new(1, 1);
    assert_eq!(output, Err(Error::NonConsumingLoop(None, position)));
}

#[test]
fn many_match_consuming_upon_failure() {
    // Parser that consumes input upon failure:
    let parser = |input: &mut StringInput| {
        let o1 = is('#')(input)?;
        let o2 = is('a')(input)?;
        Ok((o1, o2))
    };
    let mut input = Input::new_from_chars("#a#e".chars().collect(), None);
    let many_parser = many0(&parser);
    let output = many_parser(&mut input).unwrap();
    assert_eq!(output.len(), 1);
    assert_eq!(output[0], ('#', 'a'));
    assert_eq!(input.consumed_count(), 3); // The second attempt failed while consuming.
    assert_eq!(any()(&mut input), Ok('e'));
    assert!(end_of_input()(&mut input).is_ok()); // Ensure that the input was consumed.
}

#[test]
fn many1_empty() {
    let parser = is('h');
    let mut input = Input::new_from_chars("".chars().collect(), None);
    let parser_many1 = many1(&parser);
    assert_eq!(
        parser_many1(&mut input),
        Err(Error::EndOfInput(Some("h".to_string())))
    );
}

#[test]
fn many1_empty_shortcut() {
    let parser_inner = is('h');
    let parser = many1(&parser_inner);
    let mut input = Input::new_from_chars("".chars().collect(), None);
    assert_eq!(
        parser(&mut input),
        Err(Error::EndOfInput(Some("h".to_string())))
    );
}

#[test]
fn many_no_match() {
    let parser = is('h');
    let mut input = Input::new_from_chars("jklmno".chars().collect(), None);
    let parser_many1 = many1(&parser);
    let mismatch = Mismatch::new('h', 'j');
    assert_eq!(
        parser_many1(&mut input),
        Err(Error::UnexpectedToken(
            None,
            Position::new(1, 1),
            Some(mismatch)
        ))
    );
    assert!(end_of_input()(&mut input).is_err()); // Ensure that the input was NOT consumed.
}

#[test]
fn many_no_match_shortcut() {
    let parser_inner = is('h');
    let parser = many1(&parser_inner);
    let mut input = Input::new_from_chars("jklmno".chars().collect(), None);
    let mismatch = Mismatch::new('h', 'j');
    assert_eq!(
        parser(&mut input),
        Err(Error::UnexpectedToken(
            None,
            Position::new(1, 1),
            Some(mismatch)
        ))
    );
    assert!(end_of_input()(&mut input).is_err()); // Ensure that the input was NOT consumed.
}

#[test]
fn many_one_match() {
    let parser = is('h');
    let mut input = Input::new_from_chars("hallo".chars().collect(), None);
    let parser_many1 = many1(&parser);
    let output = parser_many1(&mut input).unwrap();
    assert_eq!(output, vec!['h']);
    assert_eq!(input.consumed_count(), 1);
    assert!(end_of_input()(&mut input).is_err()); // Ensure that the input was NOT consumed.
}

#[test]
fn many_one_match_shortcut() {
    let parser_inner = is('h');
    let parser = many1(&parser_inner);
    let mut input = Input::new_from_chars("hallo".chars().collect(), None);
    let output = parser(&mut input).unwrap();
    assert_eq!(output, vec!['h']);
    assert_eq!(input.consumed_count(), 1);
    assert!(end_of_input()(&mut input).is_err()); // Ensure that the input was NOT consumed.
}

#[test]
fn many_multiple_matches() {
    let token_count = 100;
    let parser = is('h');
    let tokens = std::iter::repeat_n('h', token_count).collect::<Vec<_>>();
    let mut input = Input::new_from_chars(tokens, None);
    let parser_many1 = many1(&parser);
    let output = parser_many1(&mut input).unwrap();
    assert_eq!(output.len(), token_count);
    assert!(output.iter().all(|x| *x == 'h'));
    assert!(end_of_input()(&mut input).is_ok()); // Ensure that the input was consumed.
}

#[test]
fn many1_partial_match_then_stop() {
    let parser = is('h');
    let mut input = Input::new_from_chars("hhjklmnop".chars().collect(), None);
    let parser_many1 = many1(&parser);
    let output = parser_many1(&mut input).unwrap();
    assert_eq!(output, vec!['h', 'h']);
    assert_eq!(input.consumed_count(), 2);
    assert!(end_of_input()(&mut input).is_err()); // Ensure that the input was NOT consumed.
    assert_eq!(any()(&mut input), Ok('j'));
}

#[test]
fn many1_non_consuming_parser_does_not_loop() {
    let parser = success(1); // Non-consuming parser.
    let mut input = Input::new_from_chars("hello".chars().collect(), None);
    let parser = many1(&parser);
    let output = parser(&mut input);
    let position = Position::new(1, 1);
    assert_eq!(output, Err(Error::NonConsumingLoop(None, position)));
}

#[test]
fn many1_match_consuming_upon_failure() {
    // Parser that consumes input upon failure:
    let parser = |input: &mut StringInput| {
        let o1 = is('#')(input)?;
        let o2 = is('a')(input)?;
        Ok((o1, o2))
    };
    let mut input = Input::new_from_chars("#a#e".chars().collect(), None);
    let many_parser = many1(&parser);
    let output = many_parser(&mut input).unwrap();
    assert_eq!(output.len(), 1);
    assert_eq!(output[0], ('#', 'a'));
    assert_eq!(input.consumed_count(), 3); // The second attempt failed while consuming.
    assert_eq!(any()(&mut input), Ok('e'));
    assert!(end_of_input()(&mut input).is_ok()); // Ensure that the input was consumed.
}

#[test]
fn many0_up_to_empty() {
    let parser = is('h');
    let mut input = Input::new_from_chars("".chars().collect(), None);
    let parser_up_to = many0_up_to(&parser, 1);
    let output = parser_up_to(&mut input).unwrap();
    assert_eq!(output.len(), 0);
}

#[test]
fn many0_up_to_empty_shortcut() {
    let parser_inner = is('h');
    let parser = many0_up_to(&parser_inner, 1);
    let mut input = Input::new_from_chars("".chars().collect(), None);
    let output = parser(&mut input).unwrap();
    assert_eq!(output.len(), 0);
}

#[test]
fn many0_up_to_no_match() {
    let parser = is('h');
    let mut input = Input::new_from_chars("jklmno".chars().collect(), None);
    let parser_up_to = many0_up_to(&parser, 1);
    let output = parser_up_to(&mut input).unwrap();
    assert_eq!(output.len(), 0);
    assert!(end_of_input()(&mut input).is_err()); // Ensure that the input was NOT consumed.
}

#[test]
fn many0_up_to_no_match_shortcut() {
    let parser_inner = is('h');
    let parser = many0_up_to(&parser_inner, 1);
    let mut input = Input::new_from_chars("jklmno".chars().collect(), None);
    let output = parser(&mut input).unwrap();
    assert_eq!(output.len(), 0);
    assert!(end_of_input()(&mut input).is_err()); // Ensure that the input was NOT consumed.
}

#[test]
fn many0_up_to_one_match() {
    let parser = is('h');
    let mut input = Input::new_from_chars("hello".chars().collect(), None);
    let parser_up_to = many0_up_to(&parser, 1);
    let output = parser_up_to(&mut input).unwrap();
    assert_eq!(output, vec!['h']);
    assert_eq!(input.consumed_count(), 1);
    assert!(end_of_input()(&mut input).is_err()); // Ensure that the input was NOT consumed.
    assert_eq!(any()(&mut input), Ok('e'));
}

#[test]
fn many_less_than_max_count() {
    let parser = is('h');
    let mut input = Input::new_from_chars("hhello".chars().collect(), None);
    let parser_up_to = many0_up_to(&parser, 3);
    let output = parser_up_to(&mut input).unwrap();
    assert_eq!(output, vec!['h', 'h']);
    assert_eq!(input.consumed_count(), 2);
    assert!(end_of_input()(&mut input).is_err()); // Ensure that the input was NOT consumed.
    assert_eq!(any()(&mut input), Ok('e'));
}

#[test]
fn many_equal_to_max_count() {
    let parser = is('h');
    let mut input = Input::new_from_chars("hhhello".chars().collect(), None);
    let parser_up_to = many0_up_to(&parser, 3);
    let output = parser_up_to(&mut input).unwrap();
    assert_eq!(output, vec!['h', 'h', 'h']);
    assert_eq!(input.consumed_count(), 3);
    assert!(end_of_input()(&mut input).is_err()); // Ensure that the input was NOT consumed.
    assert_eq!(any()(&mut input), Ok('e'));
}

#[test]
fn many_more_than_max_count() {
    let parser = is('h');
    let mut input = Input::new_from_chars("hhhhello".chars().collect(), None);
    let parser_up_to = many0_up_to(&parser, 3);
    let output = parser_up_to(&mut input);
    let position = Position::new(1, 4);
    assert_unexpected_error(output, position, "3", "4");
}

#[test]
fn many_zero_empty() {
    let parser = is('h');
    let mut input = Input::new_from_chars("".chars().collect(), None);
    let parser_up_to = many0_up_to(&parser, 0);
    let output = parser_up_to(&mut input).unwrap();
    assert_eq!(output.len(), 0);
    assert_eq!(input.consumed_count(), 0);
}

#[test]
fn many_zero_success() {
    let parser = is('h');
    let mut input = Input::new_from_chars("ello".chars().collect(), None);
    let parser_up_to = many0_up_to(&parser, 0);
    let output = parser_up_to(&mut input).unwrap();
    assert_eq!(output.len(), 0);
    assert_eq!(input.consumed_count(), 0);
    assert!(end_of_input()(&mut input).is_err()); // Ensure that the input was NOT consumed.
    assert_eq!(any()(&mut input), Ok('e'));
}

#[test]
fn many_zero_fail() {
    let parser = is('h');
    let mut input = Input::new_from_chars("hello".chars().collect(), None);
    let parser_up_to = many0_up_to(&parser, 0);
    let output = parser_up_to(&mut input);
    let position = Position::new(1, 1);
    assert_unexpected_error(output, position, "0", "1");
    assert_eq!(input.consumed_count(), 1);
    assert!(end_of_input()(&mut input).is_err()); // Ensure that the input was NOT consumed.
    assert_eq!(any()(&mut input), Ok('e'));
}

#[test]
fn many1_up_to_empty() {
    let parser = is('h');
    let mut input = Input::new_from_chars("".chars().collect(), None);
    let parser_up_to = many1_up_to(&parser, 1);
    assert_eq!(
        parser_up_to(&mut input),
        Err(Error::EndOfInput(Some("h".to_string())))
    );
}

#[test]
fn many1_up_to_empty_shortcut() {
    let parser_inner = is('h');
    let parser = many1_up_to(&parser_inner, 1);
    let mut input = Input::new_from_chars("".chars().collect(), None);
    assert_eq!(
        parser(&mut input),
        Err(Error::EndOfInput(Some("h".to_string())))
    );
}

#[test]
fn many1_up_to_no_match() {
    let parser = is('h');
    let mut input = Input::new_from_chars("jklmno".chars().collect(), None);
    let parser_up_to = many1_up_to(&parser, 1);
    let output = parser_up_to(&mut input);
    let position = Position::new(1, 1);
    assert_unexpected_error(output, position, "h", "j");
    assert!(end_of_input()(&mut input).is_err()); // Ensure that the input was NOT consumed.
}

#[test]
fn many1_up_to_no_match_shortcut() {
    let parser_inner = is('h');
    let parser = many1_up_to(&parser_inner, 1);
    let mut input = Input::new_from_chars("jklmno".chars().collect(), None);
    let output = parser(&mut input);
    let position = Position::new(1, 1);
    assert_unexpected_error(output, position, "h", "j");
    assert!(end_of_input()(&mut input).is_err()); // Ensure that the input was NOT consumed.
}

#[test]
fn many1_up_to_one_match() {
    let parser = is('h');
    let mut input = Input::new_from_chars("hello".chars().collect(), None);
    let parser_up_to = many1_up_to(&parser, 1);
    let output = parser_up_to(&mut input).unwrap();
    assert_eq!(output, vec!['h']);
    assert_eq!(input.consumed_count(), 1);
    assert!(end_of_input()(&mut input).is_err()); // Ensure that the input was NOT consumed.
    assert_eq!(any()(&mut input), Ok('e'));
}

#[test]
fn many1_up_to_less_than_max_count() {
    let parser = is('h');
    let mut input = Input::new_from_chars("hhello".chars().collect(), None);
    let parser_up_to = many1_up_to(&parser, 3);
    let output = parser_up_to(&mut input).unwrap();
    assert_eq!(output, vec!['h', 'h']);
    assert_eq!(input.consumed_count(), 2);
    assert!(end_of_input()(&mut input).is_err()); // Ensure that the input was NOT consumed.
    assert_eq!(any()(&mut input), Ok('e'));
}

#[test]
fn many1_up_to_equal_to_max_count() {
    let parser = is('h');
    let mut input = Input::new_from_chars("hhhello".chars().collect(), None);
    let parser_up_to = many1_up_to(&parser, 3);
    let output = parser_up_to(&mut input).unwrap();
    assert_eq!(output, vec!['h', 'h', 'h']);
    assert_eq!(input.consumed_count(), 3);
    assert!(end_of_input()(&mut input).is_err()); // Ensure that the input was NOT consumed.
    assert_eq!(any()(&mut input), Ok('e'));
}

#[test]
fn many1_up_to_more_than_max_count() {
    let parser = is('h');
    let mut input = Input::new_from_chars("hhhhello".chars().collect(), None);
    let parser_up_to = many1_up_to(&parser, 3);
    let output = parser_up_to(&mut input);
    let position = Position::new(1, 4);
    assert_unexpected_error(output, position, "3", "4");
}

