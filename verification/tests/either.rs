use yapcol::input::Position;
use yapcol::{any, either, end_of_input, is, Error, Input, Mismatch};

#[test]
fn either_success_first() {
    let parser1 = is('h');
    let parser2 = is('j');
    let mut input = Input::new_from_chars("h".chars().collect(), None);
    let parse_either = either(&parser1, &parser2);
    let output = parse_either(&mut input).unwrap();
    assert_eq!(output, 'h');
    assert!(end_of_input()(&mut input).is_ok()); // Ensure that the input was consumed.
}

#[test]
fn either_success_second() {
    let parser1 = is('h');
    let parser2 = is('j');
    let mut input = Input::new_from_chars("j".chars().collect(), None);
    let parse_either = either(&parser1, &parser2);
    let output = parse_either(&mut input).unwrap();
    assert_eq!(output, 'j');
    assert!(end_of_input()(&mut input).is_ok()); // Ensure that the input was consumed.
}

#[test]
fn either_fail_not_consuming() {
    let parser1 = is('h');
    let parser2 = is('j');
    let mut input = Input::new_from_chars("kello".chars().collect(), None);
    let parse_either = either(&parser1, &parser2);
    let mismatch = Mismatch::new('j', 'k');
    assert_eq!(
        parse_either(&mut input),
        Err(Error::UnexpectedToken(
            None,
            Position::new(1, 1),
            Some(mismatch)
        ))
    );
    assert_eq!(any()(&mut input), Ok('k')); // Ensure that the input was NOT consumed.
}

#[test]
fn either_fail_consuming() {
    let parser1 = is('h');
    let parser2 = is('j');
    let mut input = Input::new_from_chars("hello".chars().collect(), None);
    let consuming_parser = |input: &mut Input<_>| {
        parser1(input)?;
        parser2(input)
    };
    let parse_either = either(&consuming_parser, &parser2);
    let output = parse_either(&mut input);
    let mismatch = Mismatch::new('j', 'e');
    assert_eq!(
        output,
        Err(Error::UnexpectedToken(
            None,
            Position::new(1, 2),
            Some(mismatch)
        ))
    );
    assert_eq!(any()(&mut input), Ok('e')); // Ensure that the input was consumed.
}
