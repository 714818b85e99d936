use yapcol::input::Position;
use yapcol::{any, count, count_collect, end_of_input, is, Error, Input, Mismatch};

#[test]
fn count_collect_count_zero_empty() {
    let parser = is('h');
    let mut input = Input::new_from_chars("".chars().collect(), None);
    let parser = count_collect(&parser, 0);
    let output = parser(&mut input);
    assert_eq!(output, Ok(vec![]));
}

#[test]
fn count_zero_empty_shortcut() {
    let parser_inner = is('h');
    let parser = count_collect(&parser_inner, 0);
    let mut input = Input::new_from_chars("".chars().collect(), None);
    let output = parser(&mut input);
    assert_eq!(output, Ok(vec![]));
}

#[test]
fn count_0_not_empty_no_match_succeeds() {
    let parser = is('h');
    let mut input = Input::new_from_chars("jello".chars().collect(), None);
    let parser = count_collect(&parser, 0);
    let output = parser(&mut input);
    assert_eq!(output, Ok(vec![]));
}

#[test]
fn count_0_not_empty_shortcut_no_match_succeeds() {
    let parser_inner = is('h');
    let parser = count_collect(&parser_inner, 0);
    let mut input = Input::new_from_chars("jello".chars().collect(), None);
    let output = parser(&mut input);
    assert_eq!(output, Ok(vec![]));
}

#[test]
fn count_0_too_many_fails() {
    let parser = is('h');
    let mut input = Input::new_from_chars("hello".chars().collect(), None);
    let parser = count_collect(&parser, 0);
    let output = parser(&mut input);
    assert!(output.is_err());
    let mismatch = Mismatch::new("at most 0 occurrences", "1 occurrences");
    assert_eq!(
        output,
        Err(Error::UnexpectedToken(
            None,
            Position::new(1, 1),
            Some(mismatch)
        ))
    );
}

#[test]
fn count_too_many_fails() {
    let parser = is('h');
    let mut input = Input::new_from_chars("hhhhello".chars().collect(), None);
    let parser = count_collect(&parser, 3);
    let output = parser(&mut input);
    assert!(output.is_err());
    let mismatch = Mismatch::new("at most 3 occurrences", "4 occurrences");
    assert_eq!(
        output,
        Err(Error::UnexpectedToken(
            None,
            Position::new(1, 4),
            Some(mismatch)
        ))
    );
}

#[test]
fn count_all_same_succeeds() {
    let parser = is('h');
    let repeat_count: usize = 500;
    let tokens: Vec<_> = std::iter::repeat_n('h', repeat_count).collect();
    let mut input = Input::new_from_chars(tokens, None);
    let parser = count_collect(&parser, repeat_count);
    let output = parser(&mut input).unwrap();
    assert_eq!(output.len(), repeat_count); // The count matched the request.
    assert!(output.iter().all(|x| *x == 'h')); // All values match the parser's.
    assert!(end_of_input()(&mut input).is_ok()); // Ensure that the input was consumed.
}

#[test]
fn count_collect_count_one_different() {
    let parser = is('h');
    let repeat_count: usize = 500;
    let mut tokens: Vec<_> = std::iter::repeat_n('h', repeat_count).collect();
    tokens.push('x');
    let mut tail: Vec<_> = std::iter::repeat_n('h', repeat_count).collect();
    tokens.append(&mut tail);
    let mut input = Input::new_from_chars(tokens, None);
    let parser = count_collect(&parser, repeat_count);
    let output = parser(&mut input).unwrap();
    assert!(output.iter().all(|x| *x == 'h')); // All values match the parser's.
    assert_eq!(input.consumed_count(), repeat_count); // Input was left intact.
    assert_eq!(any()(&mut input), Ok('x')); // Input was consumed as much as possible.
}

#[test]
fn count_collect_count_not_enough() {
    let parser = is('h');
    let mut tokens: Vec<_> = std::iter::repeat_n('h', 3).collect();
    tokens.push('x');
    tokens.push('y');
    let mut input = Input::new_from_chars(tokens, None);
    let parser = count_collect(&parser, 4); // The 4th element is "x", so this should fail.
    let output = parser(&mut input);
    let mismatch = Mismatch::new('h', 'x');
    assert_eq!(
        output,
        Err(Error::UnexpectedToken(
            None,
            Position::new(1, 4),
            Some(mismatch)
        ))
    );
}

#[test]
fn count_not_enough_shortcut() {
    let parser_inner = is('h');
    let parser = count_collect(&parser_inner, 4);
    let mut tokens: Vec<_> = std::iter::repeat_n('h', 3).collect();
    tokens.push('x');
    tokens.push('y');
    let mut input = Input::new_from_chars(tokens, None);
    let output = parser(&mut input);
    let mismatch = Mismatch::new('h', 'x');
    assert_eq!(
        output,
        Err(Error::UnexpectedToken(
            None,
            Position::new(1, 4),
            Some(mismatch)
        ))
    );
}
