use yapcol::input::Position;
use yapcol::{any, end_of_input, is, maybe, Error, Input, StringInput};

#[test]
fn maybe_empty() {
    let parser = is('h');
    let mut input = Input::new_from_chars("".chars().collect(), None);
    let parser_maybe = maybe(&parser);
    assert_eq!(parser_maybe(&mut input), Ok(None));
    assert!(end_of_input()(&mut input).is_ok()); // Ensure that the input was consumed.
}

#[test]
fn maybe_empty_shortcut() {
    let parser_inner = is('h');
    let parser = maybe(&parser_inner);
    let mut input = Input::new_from_chars("".chars().collect(), None);
    assert_eq!(parser(&mut input), Ok(None));
    assert!(end_of_input()(&mut input).is_ok()); // Ensure that the input was consumed.
}

#[test]
fn maybe_success() {
    let parser = is('h');
    let mut input = Input::new_from_chars("h".chars().collect(), None);
    let parser_maybe = maybe(&parser);
    assert_eq!(parser_maybe(&mut input), Ok(Some('h')));
    assert!(end_of_input()(&mut input).is_ok()); // Ensure that the input was consumed.
}

#[test]
fn success_shortcut() {
    let parser_inner = is('h');
    let parser = maybe(&parser_inner);
    let mut input = Input::new_from_chars("h".chars().collect(), None);
    assert_eq!(parser(&mut input), Ok(Some('h')));
    assert!(end_of_input()(&mut input).is_ok()); // Ensure that the input was consumed.
}

#[test]
fn fail_non_consuming() {
    let parser = is('h');
    let mut input = Input::new_from_chars("j".chars().collect(), None);
    let parser_maybe = maybe(&parser);
    assert_eq!(parser_maybe(&mut input), Ok(None));
    assert!(end_of_input()(&mut input).is_err()); // Ensure that the input was NOT consumed.
}

#[test]
fn maybe_fail_consuming() {
    let parser = |input: &mut StringInput| match any()(input) {
        Ok(token) => {
            if token == 'h' {
                Ok(1)
            } else {
                Err(Error::UnexpectedToken(None, Position::new(1, 1), None))
            }
        }
        Err(e) => Err(e),
    };
    let mut input = Input::new_from_chars("j".chars().collect(), None);
    let parser_maybe = maybe(&parser);
    assert_eq!(
        parser_maybe(&mut input),
        Err(Error::UnexpectedToken(None, Position::new(1, 1), None))
    );
    assert!(end_of_input()(&mut input).is_ok()); // Ensure that the input was consumed.
}
