use yapcol::Input;

#[test]
fn input_lookahead_no_backtracking() {
    let tokens = vec!['1', '2'];
    let mut input = Input::new_from_chars(tokens, None);
    let handler1 = input.start_look_ahead();
    let next = input.next_token();
    assert_eq!(next.map(|t| t.token), Some('1'));
    let next = input.next_token();
    assert_eq!(next.map(|t| t.token), Some('2'));
    input.stop_look_ahead(handler1, false);
    assert_eq!(input.look_ahead_buffer_len(), 0);
    assert_eq!(input.consumed_count(), 2);
    assert_eq!(input.look_ahead_depth(), 0);
    assert_eq!(input.next_token().map(|t| t.token), None);
}

#[test]
fn input_lookahead_backtracking() {
    let tokens = vec!['1', '2'];
    let mut input = Input::new_from_chars(tokens, None);
    let handler2 = input.start_look_ahead();
    let next = input.next_token();
    assert_eq!(next.map(|t| t.token), Some('1'));
    let next = input.next_token();
    assert_eq!(next.map(|t| t.token), Some('2'));
    input.stop_look_ahead(handler2, true);
    assert!(input.look_ahead_buffer_len() > 0);
    assert_eq!(input.consumed_count(), 0);
    assert_eq!(input.next_token().map(|t| t.token), Some('1'));
}

#[test]
fn input_peek_twice() {
    let tokens = vec!['1', '2'];
    let mut input = Input::new_from_chars(tokens, None);
    assert_eq!(input.peek().map(|t| t.token), Some('1'));
    assert_eq!(input.peek().map(|t| t.token), Some('1'));
}

#[test]
fn input_peek_twice_while_looking_ahead_backtracking() {
    let tokens = vec!['1', '2'];
    let mut input = Input::new_from_chars(tokens, None);
    let handler3 = input.start_look_ahead();
    assert_eq!(input.peek().map(|t| t.token), Some('1'));
    assert_eq!(input.peek().map(|t| t.token), Some('1'));
    input.stop_look_ahead(handler3, true);
    assert_eq!(input.peek().map(|t| t.token), Some('1'));
}

#[test]
fn input_peek_twice_while_looking_ahead_not_backtracking() {
    let tokens = vec!['1', '2'];
    let mut input = Input::new_from_chars(tokens, None);
    let handler4 = input.start_look_ahead();
    assert_eq!(input.peek().map(|t| t.token), Some('1'));
    assert_eq!(input.peek().map(|t| t.token), Some('1'));
    input.stop_look_ahead(handler4, false);
    assert_eq!(input.peek().map(|t| t.token), Some('1'));
}

#[test]
fn input_repeat_peek_look_ahead_backtracking() {
    let tokens = vec!['1', '2'];
    let mut input = Input::new_from_chars(tokens, None);
    let handler5 = input.start_look_ahead();
    assert_eq!(input.next_token().map(|t| t.token), Some('1'));
    input.stop_look_ahead(handler5, true);
    assert_eq!(input.peek().map(|t| t.token), Some('1'));

    let handler6 = input.start_look_ahead();
    assert_eq!(input.peek().map(|t| t.token), Some('1'));
    input.stop_look_ahead(handler6, true);
    assert_eq!(input.peek().map(|t| t.token), Some('1'));
}

#[test]
fn input_repeat_peek_look_ahead_not_backtracking() {
    let tokens = vec!['1', '2'];
    let mut input = Input::new_from_chars(tokens, None);
    let handler7 = input.start_look_ahead();
    assert_eq!(input.next_token().map(|t| t.token), Some('1'));
    input.stop_look_ahead(handler7, false);
    assert_eq!(input.peek().map(|t| t.token), Some('2'));

    let handler8 = input.start_look_ahead();
    assert_eq!(input.next_token().map(|t| t.token), Some('2'));
    input.stop_look_ahead(handler8, true);
    assert_eq!(input.peek().map(|t| t.token), Some('2'));
    assert_eq!(input.next_token().map(|t| t.token), Some('2'));
}

#[test]
fn input_nested_lookahead_backtrack() {
    let tokens = vec!['1', '2', '3', '4', '5'];
    let mut input = Input::new_from_chars(tokens, None);
    let handler9 = input.start_look_ahead();
    assert_eq!(input.next_token().map(|t| t.token), Some('1'));
    let handler10 = input.start_look_ahead();
    assert_eq!(input.next_token().map(|t| t.token), Some('2'));
    input.stop_look_ahead(handler10, true);
    assert_eq!(input.next_token().map(|t| t.token), Some('2'));
    input.stop_look_ahead(handler9, true);
    assert_eq!(input.next_token().map(|t| t.token), Some('1'));
}

#[test]
fn input_nested_lookahead_no_backtrack() {
    let tokens = vec!['1', '2', '3', '4', '5'];
    let mut input = Input::new_from_chars(tokens, None);
    let handler11 = input.start_look_ahead();
    assert_eq!(input.next_token().map(|t| t.token), Some('1'));
    let handler12 = input.start_look_ahead();
    assert_eq!(input.next_token().map(|t| t.token), Some('2'));
    input.stop_look_ahead(handler12, false);
    assert_eq!(input.next_token().map(|t| t.token), Some('3'));
    input.stop_look_ahead(handler11, false);
    assert_eq!(input.next_token().map(|t| t.token), Some('4'));
}

#[test]
fn input_nested_look_ahead_backtrack_first() {
    let tokens = vec!['1', '2', '3', '4', '5'];
    let mut input = Input::new_from_chars(tokens, None);
    let handler13 = input.start_look_ahead();
    assert_eq!(input.next_token().map(|t| t.token), Some('1'));
    let handler14 = input.start_look_ahead();
    assert_eq!(input.next_token().map(|t| t.token), Some('2'));
    input.stop_look_ahead(handler14, true);
    assert_eq!(input.next_token().map(|t| t.token), Some('2'));
    input.stop_look_ahead(handler13, false);
    assert_eq!(input.next_token().map(|t| t.token), Some('3'));
}

#[test]
fn input_nested_look_ahead_backtrack_second() {
    let tokens = vec!['1', '2', '3', '4', '5'];
    let mut input = Input::new_from_chars(tokens, None);
    let handler15 = input.start_look_ahead();
    assert_eq!(input.next_token().map(|t| t.token), Some('1'));
    let handler16 = input.start_look_ahead();
    assert_eq!(input.next_token().map(|t| t.token), Some('2'));
    input.stop_look_ahead(handler16, false);
    assert_eq!(input.next_token().map(|t| t.token), Some('3'));
    input.stop_look_ahead(handler15, true);
    assert_eq!(input.next_token().map(|t| t.token), Some('1'));
}
