use yapcol::input::Position;
use yapcol::{is, separated_by0, separated_by1, Error, Input, Mismatch};

#[test]
fn separated_by_empty() {
    let parse_item = is('1');
    let parse_separator = is(',');
    let mut input = Input::new_from_chars("".chars().collect(), None);
    let output = separated_by0(&parse_item, &parse_separator)(&mut input);
    assert_eq!(output, Ok(vec![]));
}

#[test]
fn separated_by_single_no_separator_succeeds() {
    let parse_item = is('1');
    let parse_separator = is(',');
    let mut input = Input::new_from_chars("1".chars().collect(), None);
    let output = separated_by0(&parse_item, &parse_separator)(&mut input);
    assert_eq!(output, Ok(vec!['1']));
}

#[test]
fn separated_by_single_dangling_separator_fails() {
    let parse_item = is('1');
    let parse_separator = is(',');
    let mut input = Input::new_from_chars("1,".chars().collect(), None);
    let output = separated_by0(&parse_item, &parse_separator)(&mut input);
    assert_eq!(output, Err(Error::EndOfInput(Some("1".to_string()))));
}

#[test]
fn separated_by_two_with_separator_succeeds() {
    let parse_item = is('1');
    let parse_separator = is(',');
    let mut input = Input::new_from_chars("1,1".chars().collect(), None);
    let output = separated_by0(&parse_item, &parse_separator)(&mut input);
    assert_eq!(output, Ok(vec!['1', '1']));
}

#[test]
fn separated_by_two_wrong_last_element_fails() {
    let parse_item = is('1');
    let parse_separator = is(',');
    let mut input = Input::new_from_chars("1,2".chars().collect(), None);
    let output = separated_by0(&parse_item, &parse_separator)(&mut input);
    let mismatch = Mismatch::new('1', '2');
    assert_eq!(
        output,
        Err(Error::UnexpectedToken(
            None,
            Position::new(1, 3),
            Some(mismatch)
        ))
    );
}

#[test]
fn separated_by_two_no_separator_succeeds() {
    let parse_item = is('1');
    let parse_separator = is(',');
    let mut input = Input::new_from_chars("11".chars().collect(), None);
    let output = separated_by0(&parse_item, &parse_separator)(&mut input).unwrap();
    assert_eq!(output, vec!['1']);
}

#[test]
fn separated_by_many_properly_separated_succeeds() {
    let parse_item = is('1');
    let parse_separator = is(',');
    let mut input = Input::new_from_chars("1,1,1,1,1,1,1,1,1,1".chars().collect(), None);
    let output = separated_by0(&parse_item, &parse_separator)(&mut input).unwrap();
    assert_eq!(output.len(), 10);
}

#[test]
fn separated_by_many_dangling_separator_fails() {
    let parse_item = is('1');
    let parse_separator = is(',');
    let mut input = Input::new_from_chars("1,1,1,1,1,1,1,1,1,1,".chars().collect(), None);
    let output = separated_by0(&parse_item, &parse_separator)(&mut input);
    assert_eq!(output, Err(Error::EndOfInput(Some("1".to_string()))));
}

#[test]
fn separated_by_many_wrong_last_element_fails() {
    let parse_item = is('1');
    let parse_separator = is(',');
    let mut input = Input::new_from_chars("1,1,1,1,1,1,1,1,1,1,2".chars().collect(), None);
    let output = separated_by0(&parse_item, &parse_separator)(&mut input);
    let mismatch = Mismatch::new('1', '2');
    assert_eq!(
        output,
        Err(Error::UnexpectedToken(
            None,
            Position::new(1, 21),
            Some(mismatch)
        ))
    );
}

#[test]
fn separated_by1_empty() {
    let parse_item = is('1');
    let parse_separator = is(',');
    let mut input = Input::new_from_chars("".chars().collect(), None);
    let output = separated_by1(&parse_item, &parse_separator)(&mut input);
    assert_eq!(output, Err(Error::EndOfInput(Some("1".to_string()))));
}

#[test]
fn separated_by1_single_no_separator_succeeds() {
    let parse_item = is('1');
    let parse_separator = is(',');
    let mut input = Input::new_from_chars("1".chars().collect(), None);
    let output = separated_by1(&parse_item, &parse_separator)(&mut input);
    assert_eq!(output, Ok(vec!['1']));
}

#[test]
fn separated_by1_single_dangling_separator_fails() {
    let parse_item = is('1');
    let parse_separator = is(',');
    let mut input = Input::new_from_chars("1,".chars().collect(), None);
    let output = separated_by1(&parse_item, &parse_separator)(&mut input);
    assert_eq!(output, Err(Error::EndOfInput(Some("1".to_string()))));
}

#[test]
fn separated_by1_two_with_separator_succeeds() {
    let parse_item = is('1');
    let parse_separator = is(',');
    let mut input = Input::new_from_chars("1,1".chars().collect(), None);
    let output = separated_by1(&parse_item, &parse_separator)(&mut input);
    assert_eq!(output, Ok(vec!['1', '1']));
}

#[test]
fn separated_by1_two_wrong_last_element_fails() {
    let parse_item = is('1');
    let parse_separator = is(',');
    let mut input = Input::new_from_chars("1,2".chars().collect(), None);
    let output = separated_by1(&parse_item, &parse_separator)(&mut input);
    let mismatch = Mismatch::new('1', '2');
    assert_eq!(
        output,
        Err(Error::UnexpectedToken(
            None,
            Position::new(1, 3),
            Some(mismatch)
        ))
    );
}

#[test]
fn separated_by1_two_no_separator_succeeds() {
    let parse_item = is('1');
    let parse_separator = is(',');
    let mut input = Input::new_from_chars("11".chars().collect(), None);
    let output = separated_by1(&parse_item, &parse_separator)(&mut input).unwrap();
    assert_eq!(output, vec!['1']);
}

#[test]
fn separated_by1_many_properly_separated_succeeds() {
    let parse_item = is('1');
    let parse_separator = is(',');
    let mut input = Input::new_from_chars("1,1,1,1,1,1,1,1,1,1".chars().collect(), None);
    let output = separated_by1(&parse_item, &parse_separator)(&mut input).unwrap();
    assert_eq!(output.len(), 10);
}

#[test]
fn separated_by1_many_dangling_separator_fails() {
    let parse_item = is('1');
    let parse_separator = is(',');
    let mut input = Input::new_from_chars("1,1,1,1,1,1,1,1,1,1,".chars().collect(), None);
    let output = separated_by1(&parse_item, &parse_separator)(&mut input);
    assert_eq!(output, Err(Error::EndOfInput(Some("1".to_string()))));
}

#[test]
fn separated_by1_many_wrong_last_element_fails() {
    let parse_item = is('1');
    let parse_separator = is(',');
    let mut input = Input::new_from_chars("1,1,1,1,1,1,1,1,1,1,2".chars().collect(), None);
    let output = separated_by1(&parse_item, &parse_separator)(&mut input);
    let mismatch = Mismatch::new('1', '2');
    assert_eq!(
        output,
        Err(Error::UnexpectedToken(
            None,
            Position::new(1, 21),
            Some(mismatch)
        ))
    );
}
