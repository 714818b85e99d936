use yapcol::input::Position;
use yapcol::{any, is, many_until_collect, success, Error, Input, Mismatch};

#[test]
fn many_until_collect_empty_fails() {
    let any_parser = any();
    let end_comment_parser = is('#');
    let mut input = Input::new_from_chars("".chars().collect(), None);
    let many_until_collect_parser = many_until_collect(&any_parser, &end_comment_parser);
    let output = many_until_collect_parser(&mut input);
    assert_eq!(output, Err(Error::EndOfInput(None)));
}

#[test]
fn no_matches_succeeds() {
    let any_parser = any();
    let end_comment_parser = is('#');
    let mut input = Input::new_from_chars("#".chars().collect(), None);
    let many_until_collect_parser = many_until_collect(&any_parser, &end_comment_parser);
    let (matches, end) = many_until_collect_parser(&mut input).unwrap();
    assert_eq!(matches, Vec::<char>::new());
    assert_eq!(end, '#');
}

#[test]
fn many_until_collect_multiple_matches_succeeds() {
    let any_parser = any();
    let end_comment_parser = is('#');
    let mut input = Input::new_from_chars("Hello world #".chars().collect(), None);
    let many_until_collect_parser = many_until_collect(&any_parser, &end_comment_parser);
    let (matches, end) = many_until_collect_parser(&mut input).unwrap();
    assert_eq!(matches, "Hello world ".chars().collect::<Vec<_>>());
    assert_eq!(end, '#');
}

#[test]
fn many_until_collect_no_end_fails() {
    let any_parser = is('x');
    let end_comment_parser = is('#');
    let mut input = Input::new_from_chars("xxxxxy".chars().collect(), None);
    let many_until_collect_parser = many_until_collect(&any_parser, &end_comment_parser);
    let output = many_until_collect_parser(&mut input);
    let mismatch = Mismatch::new('x', 'y');
    assert_eq!(
        output,
        Err(Error::UnexpectedToken(
            None,
            Position::new(1, 6),
            Some(mismatch)
        ))
    );
    assert_eq!(any()(&mut input), Ok('y')); // Input was consumed while looking for the end.
}

#[test]
fn many_until_collect_non_consuming_parser_does_not_loop() {
    let non_consuming = success(1); // Non-consuming parser.
    let mut input = Input::new_from_chars("hello#".chars().collect(), None);
    let end_parser = is('#');
    let many_until_collect_parser = many_until_collect(&non_consuming, &end_parser);
    let output = many_until_collect_parser(&mut input);
    let position = Position::new(1, 1);
    assert_eq!(output, Err(Error::NonConsumingLoop(None, position)));
}
