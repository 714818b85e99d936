use yapcol::input::Position;
use yapcol::{end_of_input, is, Error, Input, Mismatch};

#[test]
fn is_success() {
    let parser = is('h');
    let mut input = Input::new_from_chars("h".chars().collect(), None);
    assert_eq!(parser(&mut input), Ok('h'));
    assert!(end_of_input()(&mut input).is_ok()); // Ensure that the input was consumed.
}

#[test]
fn is_fail() {
    let parser = is('j');
    let mut input = Input::new_from_chars("h".chars().collect(), None);
    let mismatch = Mismatch::new('j', 'h');
    assert_eq!(
        parser(&mut input),
        Err(Error::UnexpectedToken(
            None,
            Position::new(1, 1),
            Some(mismatch)
        ))
    );
    assert!(end_of_input()(&mut input).is_err()); // Ensure that the input was NOT consumed.
}
