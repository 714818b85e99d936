use yapcol::{end_of_input, Input};

#[test]
fn end_of_input_success() {
    let mut input = Input::new_from_chars("".chars().collect(), None);
    assert!(end_of_input()(&mut input).is_ok());
}

#[test]
fn end_of_input_fail() {
    let mut input = Input::new_from_chars("hello".chars().collect(), None);
    assert!(end_of_input()(&mut input).is_err());
}
