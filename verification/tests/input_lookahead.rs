use yapcol::Input;

#[test]
fn tests_lookahead_no_backtracking() {
    let mut input = Input::new_from_chars("12".chars().collect(), None);
    let handler = input.start_look_ahead();
    assert_eq!(input.next_token().unwrap().token, '1');
    assert_eq!(input.next_token().unwrap().token, '2');
    input.stop_look_ahead(handler, false);
    assert_eq!(input.look_ahead_buffer_len(), 0);
    assert_eq!(input.consumed_count(), 2);
    assert_eq!(input.look_ahead_depth(), 0);
    assert_eq!(input.next_token(), None);
}

#[test]
fn tests_lookahead_backtracking() {
    let mut input = Input::new_from_chars("12".chars().collect(), None);
    let handler = input.start_look_ahead();
    assert_eq!(input.next_token().unwrap().token, '1');
    assert_eq!(input.next_token().unwrap().token, '2');
    input.stop_look_ahead(handler, true);
    assert!(input.look_ahead_buffer_len() > 0);
    assert_eq!(input.consumed_count(), 0);
    assert_eq!(input.next_token().unwrap().token, '1');
}

#[test]
fn tests_peek_twice() {
    let mut input = Input::new_from_chars("12".chars().collect(), None);
    assert_eq!(input.peek().unwrap().token, '1');
    assert_eq!(input.peek().unwrap().token, '1');
}

#[test]
fn tests_peek_twice_while_looking_ahead_backtracking() {
    let mut input = Input::new_from_chars("12".chars().collect(), None);
    let handler = input.start_look_ahead();
    assert_eq!(input.peek().unwrap().token, '1');
    assert_eq!(input.peek().unwrap().token, '1');
    input.stop_look_ahead(handler, true);
    assert_eq!(input.peek().unwrap().token, '1');
}

#[test]
fn tests_peek_twice_while_looking_ahead_not_backtracking() {
    let mut input = Input::new_from_chars("12".chars().collect(), None);
    let handler = input.start_look_ahead();
    assert_eq!(input.peek().unwrap().token, '1');
    assert_eq!(input.peek().unwrap().token, '1');
    input.stop_look_ahead(handler, false);
    assert_eq!(input.peek().unwrap().token, '1');
}

#[test]
fn tests_repeat_peek_look_ahead_backtracking() {
    let mut input = Input::new_from_chars("12".chars().collect(), None);
    let handler = input.start_look_ahead();
    assert_eq!(input.next_token().unwrap().token, '1');
    input.stop_look_ahead(handler, true);
    assert_eq!(input.peek().unwrap().token, '1');

    let handler = input.start_look_ahead();
    assert_eq!(input.peek().unwrap().token, '1');
    input.stop_look_ahead(handler, true);
    assert_eq!(input.peek().unwrap().token, '1');
}

#[test]
fn tests_repeat_peek_look_ahead_not_backtracking() {
    let mut input = Input::new_from_chars("12".chars().collect(), None);
    let handler = input.start_look_ahead();
    assert_eq!(input.next_token().unwrap().token, '1');
    input.stop_look_ahead(handler, false);
    assert_eq!(input.peek().unwrap().token, '2');

    let handler = input.start_look_ahead();
    assert_eq!(input.next_token().unwrap().token, '2');
    input.stop_look_ahead(handler, true);
    assert_eq!(input.peek().unwrap().token, '2');
    assert_eq!(input.next_token().unwrap().token, '2');
}

#[test]
fn tests_nested_lookahead_backtrack() {
    let mut input = Input::new_from_chars("12345".chars().collect(), None);
    let handler1 = input.start_look_ahead();
    assert_eq!(input.next_token().unwrap().token, '1');
    let handler2 = input.start_look_ahead();
    assert_eq!(input.next_token().unwrap().token, '2');
    input.stop_look_ahead(handler2, true);
    assert_eq!(input.next_token().unwrap().token, '2');
    input.stop_look_ahead(handler1, true);
    assert_eq!(input.next_token().unwrap().token, '1');
}

#[test]
fn tests_nested_lookahead_no_backtrack() {
    let mut input = Input::new_from_chars("12345".chars().collect(), None);
    let handler1 = input.start_look_ahead();
    assert_eq!(input.next_token().unwrap().token, '1');
    let handler2 = input.start_look_ahead();
    assert_eq!(input.next_token().unwrap().token, '2');
    input.stop_look_ahead(handler2, false);
    assert_eq!(input.next_token().unwrap().token, '3');
    input.stop_look_ahead(handler1, false);
    assert_eq!(input.next_token().unwrap().token, '4');
}

#[test]
fn tests_nested_look_ahead_backtrack_first() {
    let mut input = Input::new_from_chars("12345".chars().collect(), None);
    let handler1 = input.start_look_ahead();
    assert_eq!(input.next_token().unwrap().token, '1');
    let handler2 = input.start_look_ahead();
    assert_eq!(input.next_token().unwrap().token, '2');
    input.stop_look_ahead(handler2, true);
    assert_eq!(input.next_token().unwrap().token, '2');
    input.stop_look_ahead(handler1, false);
    assert_eq!(input.next_token().unwrap().token, '3');
}

#[test]
fn tests_nested_look_ahead_backtrack_second() {
    let mut input = Input::new_from_chars("12345".chars().collect(), None);
    let handler1 = input.start_look_ahead();
    assert_eq!(input.next_token().unwrap().token, '1');
    let handler2 = input.start_look_ahead();
    assert_eq!(input.next_token().unwrap().token, '2');
    input.stop_look_ahead(handler2, false);
    assert_eq!(input.next_token().unwrap().token, '3');
    input.stop_look_ahead(handler1, true);
    assert_eq!(input.next_token().unwrap().token, '1');
}

