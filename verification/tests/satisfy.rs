use yapcol::input::Position;
use yapcol::{and, any, end_of_input, satisfy, Error, Input};

#[test]
fn digits() {
    let parser = satisfy(|token: &char| {
        if token.is_ascii_digit() {
            Some(*token)
        } else {
            None
        }
    });
    // Digits.
    let mut input = Input::new_from_chars("1".chars().collect(), None);
    assert_eq!(parser(&mut input), Ok('1'));
    assert!(end_of_input()(&mut input).is_ok());
    // Words fails and does not consume.
    let mut input = Input::new_from_chars("hello".chars().collect(), None);
    assert_eq!(
        parser(&mut input),
        Err(Error::UnexpectedToken(None, Position::new(1, 1), None))
    );
    assert_eq!(any()(&mut input), Ok('h'));
    assert_eq!(any()(&mut input), Ok('e'));
}
