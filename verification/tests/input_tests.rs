use tact::input::{InputHistory, InputState, InsertOutcome};
use tact::keys::{Key, KeyPress};

fn typed(st: &mut InputState, text: &str) {
    for c in text.chars() {
        st.handle_key(KeyPress::plain(Key::Char(c)));
    }
}

#[test]
fn typing_and_submitting() {
    let mut st = InputState::new(vec![]);
    typed(&mut st, "héllo");
    assert_eq!(st.input, "héllo");
    assert_eq!(st.cursor, 6);
    st.handle_key(KeyPress::shift(Key::Enter));
    typed(&mut st, "x");
    assert_eq!(st.input, "héllo\nx");
    match st.handle_key(KeyPress::plain(Key::Enter)) {
        InsertOutcome::Submitted { task, history_changed } => {
            assert_eq!(task, "héllo\nx");
            assert!(history_changed);
        }
        _ => panic!("expected a submission"),
    }
    assert_eq!(st.input, "");
    assert_eq!(st.cursor, 0);
    assert_eq!(st.history.entries, vec!["héllo\nx".to_string()]);
    assert!(matches!(st.handle_key(KeyPress::plain(Key::Enter)), InsertOutcome::Stay));
    assert!(matches!(st.handle_key(KeyPress::plain(Key::Esc)), InsertOutcome::Leave));
}

#[test]
fn repeated_submission_keeps_history() {
    let mut st = InputState::new(vec!["same".to_string()]);
    typed(&mut st, "same");
    match st.handle_key(KeyPress::plain(Key::Enter)) {
        InsertOutcome::Submitted { history_changed, .. } => assert!(!history_changed),
        _ => panic!("expected a submission"),
    }
    assert_eq!(st.history.entries.len(), 1);
}

#[test]
fn history_is_capped() {
    let mut h = InputHistory::new((0..100).map(|i| i.to_string()).collect());
    assert!(h.record(&"new".to_string()));
    assert_eq!(h.entries.len(), 100);
    assert_eq!(h.entries[0], "1");
    assert_eq!(h.entries[99], "new");
    assert!(!h.record(&"new".to_string()));
}

#[test]
fn history_up_then_down_restores_draft() {
    let mut st = InputState::new(vec!["old task".to_string()]);
    typed(&mut st, "draft");
    st.handle_key(KeyPress::plain(Key::Up));
    assert_eq!(st.input, "old task");
    st.handle_key(KeyPress::plain(Key::Down));
    assert_eq!(st.input, "draft");
    assert_eq!(st.cursor, 5);
    assert!(st.history.index.is_none());
}

#[test]
fn editing_keys() {
    let mut st = InputState::new(vec![]);
    typed(&mut st, "one two three");
    st.handle_key(KeyPress::ctrl(Key::Char('w')));
    assert_eq!(st.input, "one two ");
    st.handle_key(KeyPress::ctrl(Key::Char('a')));
    assert_eq!(st.cursor, 0);
    st.handle_key(KeyPress::ctrl(Key::Char('d')));
    assert_eq!(st.input, "ne two ");
    st.handle_key(KeyPress::ctrl(Key::Char('k')));
    assert_eq!(st.input, "");
    typed(&mut st, "ab");
    st.handle_key(KeyPress::plain(Key::Left));
    st.handle_key(KeyPress::plain(Key::Backspace));
    assert_eq!(st.input, "b");
    st.handle_key(KeyPress::ctrl(Key::Char('e')));
    assert_eq!(st.cursor, 1);
    st.handle_key(KeyPress::ctrl(Key::Char('u')));
    assert_eq!(st.input, "");
}

#[test]
fn moving_between_lines() {
    let mut st = InputState::new(vec![]);
    typed(&mut st, "abc");
    st.handle_key(KeyPress::alt(Key::Enter));
    typed(&mut st, "d");
    st.handle_key(KeyPress::plain(Key::Up));
    assert_eq!(st.cursor, 1);
    st.handle_key(KeyPress::plain(Key::End));
    assert_eq!(st.cursor, 3);
    st.handle_key(KeyPress::plain(Key::Down));
    assert_eq!(st.cursor, 5);
    st.handle_key(KeyPress::plain(Key::Home));
    assert_eq!(st.cursor, 4);
}

#[test]
fn undo_snapshots_are_capped() {
    let mut st = InputState::new(vec![]);
    for _ in 0..105 {
        st.save_undo();
    }
    assert_eq!(st.undo_stack.len(), 100);
    assert!(st.redo_stack.is_empty());
}

#[test]
fn backspace_takes_back_a_typed_character() {
    let mut st = InputState::new(vec![]);
    typed(&mut st, "añb");
    st.handle_key(KeyPress::plain(Key::Left));
    assert_eq!(st.cursor, 3);
    typed(&mut st, "€");
    assert_eq!(st.input, "añ€b");
    assert_eq!(st.cursor, 6);
    st.handle_key(KeyPress::plain(Key::Backspace));
    assert_eq!(st.input, "añb");
    assert_eq!(st.cursor, 3);
}

#[test]
fn kill_line_keeps_the_break_mid_line() {
    let mut st = InputState::new(vec![]);
    typed(&mut st, "abc");
    st.handle_key(KeyPress::alt(Key::Enter));
    typed(&mut st, "de");
    st.handle_key(KeyPress::ctrl(Key::Char('a')));
    st.handle_key(KeyPress::plain(Key::Right));
    // Mid-line: the rest of the line goes, the break stays.
    st.handle_key(KeyPress::ctrl(Key::Char('k')));
    assert_eq!(st.input, "a\nde");
    assert_eq!(st.cursor, 1);
    // At the end of the line: the break goes and the lines are joined.
    st.handle_key(KeyPress::ctrl(Key::Char('k')));
    assert_eq!(st.input, "ade");
    assert_eq!(st.cursor, 1);
    // At the end of the text nothing is deleted.
    st.handle_key(KeyPress::ctrl(Key::Char('e')));
    st.handle_key(KeyPress::ctrl(Key::Char('k')));
    assert_eq!(st.input, "ade");
}
