//! The task input box: a multi-line text buffer with a byte cursor, line
//! editing keys, and navigation through previously submitted inputs.
use vstd::prelude::*;
use crate::text::strings_view;
use crate::cursor::{
    cursor_line_col, end_of_line, is_word_char, lemma_line_col_cursor_boundary,
    lemma_next_word_index_bounds, lemma_prev_word_index_bounds, lemma_start_end_of_line_bounds,
    last_newline_before, line_col_of, line_col_to_cursor, line_col_to_cursor_spec, line_len,
    line_length, next_boundary_spec, next_char_boundary, next_newline_from, next_word_boundary,
    next_word_index, prev_boundary_spec, prev_char_boundary, prev_word_boundary, prev_word_index,
    start_of_line,
};
use crate::keys::{Key, KeyPress};
use crate::text::{
    byte_len, byte_pos, char_byte_len, char_index_of, chars_before, collect_chars, insert_char,
    is_boundary, lemma_byte_pos_concat, lemma_byte_pos_end, lemma_byte_pos_le_len,
    lemma_byte_pos_concat_prefix, lemma_byte_pos_step, lemma_byte_pos_strict, lemma_byte_pos_take,
    lemma_char_index_of,
    lemma_chars_before_boundary,
    remove_chars, str_byte_len,
};
use crate::cursor::{char_index, is_white_space, punct_char, word_char};

verus! {

/// Most inputs the history keeps.
pub const HISTORY_LIMIT: usize = 100;

/// Most snapshots the undo stack keeps.
pub const UNDO_LIMIT: usize = 100;

/// Previously submitted inputs, and the state of navigating through them.
pub struct InputHistory {
    pub entries: Vec<String>,
    /// Position while navigating; `None` when not navigating.
    pub index: Option<usize>,
    /// What was being typed when navigation started (restored when leaving it).
    pub saved: String,
}

/// The history after submitting `task`: appended unless it repeats the last
/// entry, the oldest entry dropped when the history grows past its limit.
pub open spec fn record_entry(entries: Seq<Seq<char>>, task: Seq<char>) -> Seq<Seq<char>> {
    if entries.len() > 0 && entries.last() == task {
        entries
    } else if entries.len() + 1 > HISTORY_LIMIT {
        entries.push(task).drop_first()
    } else {
        entries.push(task)
    }
}

impl InputHistory {
    pub fn new(entries: Vec<String>) -> (h: InputHistory)
        ensures
            h.entries@ == entries@,
            h.index is None,
            h.saved@ == Seq::<char>::empty(),
    {
        InputHistory { entries, index: None, saved: String::new() }
    }

    /// Records a submitted input; returns whether the entries changed.
    pub fn record(&mut self, task: &String) -> (changed: bool)
        ensures
            strings_view(final(self).entries@) == record_entry(
                strings_view(old(self).entries@),
                task@,
            ),
            changed == (strings_view(final(self).entries@) != strings_view(old(self).entries@)),
            final(self).index == old(self).index,
            final(self).saved == old(self).saved,
    {
        let n = self.entries.len();
        let ghost old_view = strings_view(self.entries@);
        if n > 0 && self.entries[n - 1] == *task {
            assert(old_view.last() == task@);
            return false;
        }
        self.entries.push(task.clone());
        assert(strings_view(self.entries@) =~= old_view.push(task@));
        if self.entries.len() > HISTORY_LIMIT {
            self.entries.remove(0);
            assert(strings_view(self.entries@) =~= old_view.push(task@).drop_first());
        }
        proof {
            let nv = strings_view(self.entries@);
            if nv == old_view {
                if old_view.len() + 1 > HISTORY_LIMIT {
                    assert(nv.len() == old_view.len());
                    assert(nv[nv.len() - 1] == task@);
                    assert(old_view.len() > 0);
                } else {
                    assert(nv.len() == old_view.len() + 1);
                }
            }
        }
        true
    }
}

/// The abstract state of the input box.
pub ghost struct InputModel {
    pub input: Seq<char>,
    pub cursor: int,
    pub entries: Seq<Seq<char>>,
    pub index: Option<int>,
    pub saved: Seq<char>,
}

/// What a key press in the input box asks of the surrounding application.
#[derive(PartialEq, Eq)]
pub enum InsertAction {
    /// Nothing beyond the edit.
    Stay,
    /// Submit the text that was in the box as a new task.
    Submit,
    /// Leave the input box for normal mode.
    Leave,
}

pub open spec fn model_wf(m: InputModel) -> bool {
    &&& is_boundary(m.input, m.cursor)
    &&& (m.index matches Some(i) ==> 0 <= i < m.entries.len())
}

pub open spec fn exit_history(m: InputModel) -> InputModel {
    InputModel { index: None, saved: Seq::empty(), ..m }
}

pub open spec fn set_cursor(m: InputModel, cursor: int) -> InputModel {
    InputModel { cursor, ..m }
}

pub open spec fn set_text(m: InputModel, input: Seq<char>, cursor: int) -> InputModel {
    InputModel { input, cursor, ..m }
}

/// Delete backwards to the previous word boundary (Ctrl+W, Alt/Ctrl+Backspace).
pub open spec fn delete_word_back(m: InputModel) -> InputModel {
    let s = m.input;
    let k = char_index_of(s, m.cursor);
    let j = prev_word_index(s, k);
    set_text(exit_history(m), s.take(j) + s.skip(k), byte_pos(s, j) as int)
}

/// Delete forwards to the next word boundary (Alt+D), when not at the end.
pub open spec fn delete_word_forward(m: InputModel) -> InputModel {
    let s = m.input;
    let k = char_index_of(s, m.cursor);
    if k < s.len() {
        set_text(exit_history(m), s.take(k) + s.skip(next_word_index(s, k)), m.cursor)
    } else {
        exit_history(m)
    }
}

/// Delete to the end of the line (Ctrl+K); at the end of a line, where
/// there is nothing left to delete on it, delete the line break instead, so
/// that the next line is joined to it.
pub open spec fn kill_line(m: InputModel) -> InputModel {
    let s = m.input;
    let k = char_index_of(s, m.cursor);
    let q = next_newline_from(s, k);
    let qd = if q == k && q < s.len() {
        q + 1
    } else {
        q
    };
    set_text(exit_history(m), s.take(k) + s.skip(qd), m.cursor)
}

/// Delete back to the start of the line (Ctrl+U).
pub open spec fn kill_line_start(m: InputModel) -> InputModel {
    let s = m.input;
    let k = char_index_of(s, m.cursor);
    let j = last_newline_before(s, k) + 1;
    set_text(exit_history(m), s.take(j) + s.skip(k), byte_pos(s, j) as int)
}

/// Delete the character at the cursor (Ctrl+D, Delete), when not at the end.
pub open spec fn delete_char_forward(m: InputModel) -> InputModel {
    let s = m.input;
    let k = char_index_of(s, m.cursor);
    if k < s.len() {
        set_text(exit_history(m), s.take(k) + s.skip(k + 1), m.cursor)
    } else {
        exit_history(m)
    }
}

/// Delete the character before the cursor (Backspace), when not at the start.
pub open spec fn backspace(m: InputModel) -> InputModel {
    let s = m.input;
    let k = char_index_of(s, m.cursor);
    if k > 0 {
        set_text(exit_history(m), s.take(k - 1) + s.skip(k), byte_pos(s, k - 1) as int)
    } else {
        exit_history(m)
    }
}

/// Insert `c` at the cursor and move past it.
pub open spec fn insert_at_cursor(m: InputModel, c: char) -> InputModel {
    let s = m.input;
    let k = char_index_of(s, m.cursor);
    set_text(m, s.take(k) + seq![c] + s.skip(k), m.cursor + crate::text::char_len(c))
}

/// Up: move to the line above, or, on the first line, to an older history entry.
pub open spec fn key_up(m: InputModel) -> InputModel {
    let s = m.input;
    let k = char_index_of(s, m.cursor);
    let line = line_col_of(s, k).0;
    let col = line_col_of(s, k).1;
    if line > 0 {
        let l = line_len(s, (line - 1) as nat);
        let c = if col < l {
            col
        } else {
            l as int
        };
        set_cursor(m, line_col_to_cursor_spec(s, (line - 1) as nat, c as nat))
    } else if m.entries.len() > 0 {
        let (idx, saved) = match m.index {
            None => (m.entries.len() - 1, s),
            Some(i) => (
                if i > 0 {
                    i - 1
                } else {
                    i
                },
                m.saved,
            ),
        };
        let e = m.entries[idx];
        InputModel { input: e, cursor: byte_len(e) as int, entries: m.entries, index: Some(idx), saved }
    } else {
        m
    }
}

/// Down: move to the line below, or, on the last line while navigating the
/// history, to a newer entry, and past the newest back to the saved input.
pub open spec fn key_down(m: InputModel) -> InputModel {
    let s = m.input;
    let k = char_index_of(s, m.cursor);
    let line = line_col_of(s, k).0;
    let col = line_col_of(s, k).1;
    let next_len = line_len(s, (line + 1) as nat);
    if next_len > 0 || line_col_to_cursor_spec(s, (line + 1) as nat, 0) < byte_len(s) {
        let c = if col < next_len {
            col
        } else {
            next_len as int
        };
        set_cursor(m, line_col_to_cursor_spec(s, (line + 1) as nat, c as nat))
    } else {
        match m.index {
            None => m,
            Some(i) => if i + 1 < m.entries.len() {
                let e = m.entries[i + 1];
                InputModel { input: e, cursor: byte_len(e) as int, index: Some(i + 1), ..m }
            } else {
                InputModel {
                    input: m.saved,
                    cursor: byte_len(m.saved) as int,
                    index: None,
                    saved: Seq::empty(),
                    ..m
                }
            },
        }
    }
}

/// The effect of a key press on the input box, and what it asks of the application.
pub open spec fn insert_transition(m: InputModel, kp: KeyPress) -> (InputModel, InsertAction) {
    let s = m.input;
    let k = char_index_of(s, m.cursor);
    let line = line_col_of(s, k).0;
    match kp.key {
        Key::Enter => if kp.shift || kp.alt {
            (insert_at_cursor(m, '\n'), InsertAction::Stay)
        } else if s.len() > 0 {
            (
                InputModel {
                    input: Seq::empty(),
                    cursor: 0,
                    entries: record_entry(m.entries, s),
                    index: None,
                    saved: Seq::empty(),
                },
                InsertAction::Submit,
            )
        } else {
            (m, InsertAction::Stay)
        },
        Key::Char(c) => if c == 'w' && kp.ctrl {
            (if k > 0 {
                delete_word_back(m)
            } else {
                exit_history(m)
            }, InsertAction::Stay)
        } else if c == 'a' && kp.ctrl {
            (set_cursor(m, 0), InsertAction::Stay)
        } else if c == 'e' && kp.ctrl {
            (set_cursor(m, byte_len(s) as int), InsertAction::Stay)
        } else if c == 'k' && kp.ctrl {
            (kill_line(m), InsertAction::Stay)
        } else if c == 'd' && kp.alt {
            (delete_word_forward(m), InsertAction::Stay)
        } else if c == 'u' && kp.ctrl {
            (kill_line_start(m), InsertAction::Stay)
        } else if c == 'd' && kp.ctrl {
            (delete_char_forward(m), InsertAction::Stay)
        } else {
            (insert_at_cursor(exit_history(m), c), InsertAction::Stay)
        },
        Key::Backspace => if kp.alt {
            (if k > 0 {
                delete_word_back(m)
            } else {
                exit_history(m)
            }, InsertAction::Stay)
        } else if kp.ctrl {
            (delete_word_back(m), InsertAction::Stay)
        } else {
            (backspace(m), InsertAction::Stay)
        },
        Key::Home => if kp.ctrl {
            (set_cursor(m, 0), InsertAction::Stay)
        } else {
            (set_cursor(m, line_col_to_cursor_spec(s, line as nat, 0)), InsertAction::Stay)
        },
        Key::End => if kp.ctrl {
            (set_cursor(m, byte_len(s) as int), InsertAction::Stay)
        } else {
            (
                set_cursor(m, line_col_to_cursor_spec(s, line as nat, line_len(s, line as nat))),
                InsertAction::Stay,
            )
        },
        Key::Delete => (delete_char_forward(m), InsertAction::Stay),
        Key::Left => if kp.ctrl || kp.alt {
            (set_cursor(m, byte_pos(s, prev_word_index(s, k)) as int), InsertAction::Stay)
        } else {
            (set_cursor(m, prev_boundary_spec(s, m.cursor)), InsertAction::Stay)
        },
        Key::Right => if kp.ctrl || kp.alt {
            (set_cursor(m, byte_pos(s, next_word_index(s, k)) as int), InsertAction::Stay)
        } else {
            (set_cursor(m, next_boundary_spec(s, m.cursor)), InsertAction::Stay)
        },
        Key::Up => (key_up(m), InsertAction::Stay),
        Key::Down => (key_down(m), InsertAction::Stay),
        Key::Esc => (m, InsertAction::Leave),
        _ => (m, InsertAction::Stay),
    }
}

/// What the application is asked to do after a key press in the input box.
pub enum InsertOutcome {
    Stay,
    /// Submit `task`; `history_changed` tells whether the history must be saved.
    Submitted { task: String, history_changed: bool },
    Leave,
}

/// The input box: text, byte cursor, history, and undo/redo snapshots.
pub struct InputState {
    pub input: String,
    pub cursor: usize,
    pub history: InputHistory,
    pub undo_stack: Vec<(String, usize)>,
    pub redo_stack: Vec<(String, usize)>,
}

impl InputState {
    pub open spec fn model(&self) -> InputModel {
        InputModel {
            input: self.input@,
            cursor: self.cursor as int,
            entries: strings_view(self.history.entries@),
            index: match self.history.index {
                Some(i) => Some(i as int),
                None => None,
            },
            saved: self.history.saved@,
        }
    }

    pub open spec fn wf(&self) -> bool {
        &&& model_wf(self.model())
        &&& byte_len(self.input@) <= usize::MAX
    }

    /// An empty input box over previously submitted inputs.
    pub fn new(entries: Vec<String>) -> (st: InputState)
        ensures
            st.wf(),
            st.input@ == Seq::<char>::empty(),
            st.cursor == 0,
            st.history.entries@ == entries@,
            st.history.index is None,
            st.history.saved@ == Seq::<char>::empty(),
            st.undo_stack@.len() == 0,
            st.redo_stack@.len() == 0,
    {
        proof {
            lemma_char_index_of(Seq::<char>::empty(), 0);
        }
        let st = InputState {
            input: String::new(),
            cursor: 0,
            history: InputHistory::new(entries),
            undo_stack: Vec::new(),
            redo_stack: Vec::new(),
        };
        st
    }

    /// Saves the current text and cursor for undo, clearing the redo stack;
    /// at most `UNDO_LIMIT` snapshots are kept, the oldest dropped first.
    pub fn save_undo(&mut self)
        ensures
            final(self).redo_stack@.len() == 0,
            final(self).undo_stack@ == if old(self).undo_stack@.len() + 1 > UNDO_LIMIT {
                old(self).undo_stack@.push((old(self).input, old(self).cursor)).drop_first()
            } else {
                old(self).undo_stack@.push((old(self).input, old(self).cursor))
            },
            final(self).input == old(self).input,
            final(self).cursor == old(self).cursor,
            final(self).history == old(self).history,
    {
        self.redo_stack.clear();
        self.undo_stack.push((self.input.clone(), self.cursor));
        if self.undo_stack.len() > UNDO_LIMIT {
            self.undo_stack.remove(0);
        }
        proof {
            assert(self.undo_stack@ =~= if old(self).undo_stack@.len() + 1 > UNDO_LIMIT {
                old(self).undo_stack@.push((old(self).input, old(self).cursor)).drop_first()
            } else {
                old(self).undo_stack@.push((old(self).input, old(self).cursor))
            });
        }
    }

    fn leave_history(&mut self)
        ensures
            final(self).model() == exit_history(old(self).model()),
            final(self).input == old(self).input,
            final(self).cursor == old(self).cursor,
            final(self).history.entries == old(self).history.entries,
            final(self).undo_stack == old(self).undo_stack,
            final(self).redo_stack == old(self).redo_stack,
    {
        self.history.index = None;
        self.history.saved = String::new();
    }

    /// Replaces the text, learning that its length fits a `usize`.
    fn replace_text(&mut self, input: String, cursor: usize)
        ensures
            final(self).input == input,
            final(self).cursor == cursor,
            final(self).history == old(self).history,
            final(self).undo_stack == old(self).undo_stack,
            final(self).redo_stack == old(self).redo_stack,
            byte_len(input@) <= usize::MAX,
    {
        let _n = str_byte_len(input.as_str());
        self.input = input;
        self.cursor = cursor;
    }

    /// Applies a key press; returns what the application must do next.
    pub fn handle_key(&mut self, kp: KeyPress) -> (out: InsertOutcome)
        requires
            old(self).wf(),
        ensures
            final(self).wf(),
            final(self).model() == insert_transition(old(self).model(), kp).0,
            final(self).undo_stack == old(self).undo_stack,
            final(self).redo_stack == old(self).redo_stack,
            match out {
                InsertOutcome::Stay => insert_transition(old(self).model(), kp).1
                    == InsertAction::Stay,
                InsertOutcome::Leave => insert_transition(old(self).model(), kp).1
                    == InsertAction::Leave,
                InsertOutcome::Submitted { task, history_changed } => {
                    &&& insert_transition(old(self).model(), kp).1 == InsertAction::Submit
                    &&& task@ == old(self).input@
                    &&& history_changed == (final(self).model().entries != old(
                        self,
                    ).model().entries)
                },
            },
    {
        let ghost m = self.model();
        let ghost s = self.input@;
        let n = str_byte_len(self.input.as_str());
        let chars = collect_chars(self.input.as_str());
        let k = char_index(&chars, self.cursor);
        proof {
            lemma_chars_before_boundary(s, k as int);
            lemma_byte_pos_end(s);
        }
        match kp.key {
            Key::Enter => {
                if kp.shift || kp.alt {
                    self.insert_at(k, '\n');
                    InsertOutcome::Stay
                } else if n > 0 {
                    let changed = self.history.record(&self.input);
                    self.history.index = None;
                    self.history.saved = String::new();
                    let mut task = String::new();
                    std::mem::swap(&mut task, &mut self.input);
                    self.cursor = 0;
                    proof {
                        lemma_char_index_of(Seq::<char>::empty(), 0);
                    }
                    InsertOutcome::Submitted { task, history_changed: changed }
                } else {
                    InsertOutcome::Stay
                }
            },
            Key::Char(c) => {
                if c == 'w' && kp.ctrl {
                    if k > 0 {
                        self.delete_word_back(k);
                    } else {
                        self.leave_history();
                    }
                } else if c == 'a' && kp.ctrl {
                    self.cursor = 0;
                    proof {
                        lemma_char_index_of(s, 0);
                    }
                } else if c == 'e' && kp.ctrl {
                    self.cursor = n;
                    proof {
                        lemma_char_index_of(s, s.len() as int);
                    }
                } else if c == 'k' && kp.ctrl {
                    self.kill_line(k);
                } else if c == 'd' && kp.alt {
                    self.delete_word_forward(k);
                } else if c == 'u' && kp.ctrl {
                    self.kill_line_start(k);
                } else if c == 'd' && kp.ctrl {
                    self.delete_char_forward(k);
                } else {
                    self.leave_history();
                    self.insert_at(k, c);
                }
                InsertOutcome::Stay
            },
            Key::Backspace => {
                if kp.alt {
                    if k > 0 {
                        self.delete_word_back(k);
                    } else {
                        self.leave_history();
                    }
                } else if kp.ctrl {
                    if k > 0 {
                        self.delete_word_back(k);
                    } else {
                        self.leave_history();
                        proof {
                            lemma_prev_word_index_bounds(s, 0);
                            assert(s.take(0) + s.skip(0) =~= s);
                        }
                    }
                } else {
                    self.leave_history();
                    if k > 0 {
                        let nk = k - 1;
                        proof {
                            lemma_byte_pos_le_len(s, nk as int);
                        }
                        let prev = prev_char_boundary(self.input.as_str(), self.cursor);
                        let t = remove_chars(&self.input, nk, k);
                        self.replace_text(t, prev);
                        proof {
                            lemma_prefix_boundary(s, nk as int, s.skip(k as int));
                        }
                    }
                }
                InsertOutcome::Stay
            },
            Key::Home => {
                if kp.ctrl {
                    self.cursor = 0;
                    proof {
                        lemma_char_index_of(s, 0);
                    }
                } else {
                    let (line, _col) = cursor_line_col(self.input.as_str(), self.cursor);
                    let c = line_col_to_cursor(self.input.as_str(), line, 0);
                    proof {
                        lemma_line_col_cursor_boundary(s, line as nat, 0);
                    }
                    self.cursor = c;
                }
                InsertOutcome::Stay
            },
            Key::End => {
                if kp.ctrl {
                    self.cursor = n;
                    proof {
                        lemma_char_index_of(s, s.len() as int);
                    }
                } else {
                    let (line, _col) = cursor_line_col(self.input.as_str(), self.cursor);
                    let l = line_length(self.input.as_str(), line);
                    let c = line_col_to_cursor(self.input.as_str(), line, l);
                    proof {
                        lemma_line_col_cursor_boundary(s, line as nat, l as nat);
                    }
                    self.cursor = c;
                }
                InsertOutcome::Stay
            },
            Key::Delete => {
                self.delete_char_forward(k);
                InsertOutcome::Stay
            },
            Key::Left => {
                if kp.ctrl || kp.alt {
                    let c = prev_word_boundary(self.input.as_str(), self.cursor);
                    proof {
                        lemma_prev_word_index_bounds(s, k as int);
                        lemma_char_index_of(s, prev_word_index(s, k as int));
                    }
                    self.cursor = c;
                } else {
                    let c = prev_char_boundary(self.input.as_str(), self.cursor);
                    proof {
                        if k > 0 {
                            lemma_char_index_of(s, k - 1);
                        } else {
                            lemma_char_index_of(s, 0);
                        }
                    }
                    self.cursor = c;
                }
                InsertOutcome::Stay
            },
            Key::Right => {
                if kp.ctrl || kp.alt {
                    let c = next_word_boundary(self.input.as_str(), self.cursor);
                    proof {
                        lemma_next_word_index_bounds(s, k as int);
                        lemma_char_index_of(s, next_word_index(s, k as int));
                    }
                    self.cursor = c;
                } else {
                    let c = next_char_boundary(self.input.as_str(), self.cursor);
                    proof {
                        if k < s.len() {
                            lemma_char_index_of(s, k + 1);
                        }
                    }
                    self.cursor = c;
                }
                InsertOutcome::Stay
            },
            Key::Up => {
                self.key_up(k);
                InsertOutcome::Stay
            },
            Key::Down => {
                self.key_down(k);
                InsertOutcome::Stay
            },
            Key::Esc => InsertOutcome::Leave,
            _ => InsertOutcome::Stay,
        }
    }

    fn insert_at(&mut self, k: usize, c: char)
        requires
            old(self).wf(),
            k == char_index_of(old(self).input@, old(self).cursor as int),
        ensures
            final(self).wf(),
            final(self).model() == insert_at_cursor(old(self).model(), c),
            final(self).history == old(self).history,
            final(self).undo_stack == old(self).undo_stack,
            final(self).redo_stack == old(self).redo_stack,
    {
        let ghost s = self.input@;
        proof {
            lemma_char_index_of_bounds(s, self.cursor as int);
        }
        let t = insert_char(&self.input, k, c);
        let ghost t_view = t@;
        let w = char_byte_len(c);
        proof {
            lemma_insert_boundary(s, k as int, c);
        }
        let _n = str_byte_len(t.as_str());
        assert(byte_pos(s, k as int) == self.cursor);
        proof {
            lemma_byte_pos_le_len(t_view, k + 1);
        }
        self.replace_text(t, self.cursor + w);
    }

    fn delete_word_back(&mut self, k: usize)
        requires
            old(self).wf(),
            k == char_index_of(old(self).input@, old(self).cursor as int),
        ensures
            final(self).wf(),
            final(self).model() == delete_word_back(old(self).model()),
            final(self).undo_stack == old(self).undo_stack,
            final(self).redo_stack == old(self).redo_stack,
    {
        let ghost s = self.input@;
        self.leave_history();
        let pos = prev_word_boundary(self.input.as_str(), self.cursor);
        let chars = collect_chars(self.input.as_str());
        proof {
            lemma_char_index_of_bounds(s, self.cursor as int);
            lemma_prev_word_index_bounds(s, k as int);
            lemma_char_index_of(s, prev_word_index(s, k as int));
        }
        let j = char_index(&chars, pos);
        let t = remove_chars(&self.input, j, k);
        self.replace_text(t, pos);
        proof {
            lemma_prefix_boundary(s, j as int, s.skip(k as int));
        }
    }

    fn delete_word_forward(&mut self, k: usize)
        requires
            old(self).wf(),
            k == char_index_of(old(self).input@, old(self).cursor as int),
        ensures
            final(self).wf(),
            final(self).model() == delete_word_forward(old(self).model()),
            final(self).undo_stack == old(self).undo_stack,
            final(self).redo_stack == old(self).redo_stack,
    {
        let ghost s = self.input@;
        self.leave_history();
        proof {
            lemma_char_index_of_bounds(s, self.cursor as int);
        }
        let n = str_byte_len(self.input.as_str());
        if self.cursor < n {
            proof {
                lemma_byte_pos_end(s);
                if k == s.len() {
                    assert(false);
                }
            }
            let pos = next_word_boundary(self.input.as_str(), self.cursor);
            let chars = collect_chars(self.input.as_str());
            proof {
                lemma_next_word_index_bounds(s, k as int);
                lemma_char_index_of(s, next_word_index(s, k as int));
            }
            let j = char_index(&chars, pos);
            let t = remove_chars(&self.input, k, j);
            let c = self.cursor;
            self.replace_text(t, c);
            proof {
                lemma_prefix_boundary(s, k as int, s.skip(j as int));
            }
        } else {
            proof {
                lemma_byte_pos_end(s);
                if (k as int) < s.len() {
                    lemma_byte_pos_le_len(s, k + 1);
                    lemma_byte_pos_step(s, k as int);
                }
            }
        }
    }

    fn kill_line(&mut self, k: usize)
        requires
            old(self).wf(),
            k == char_index_of(old(self).input@, old(self).cursor as int),
        ensures
            final(self).wf(),
            final(self).model() == kill_line(old(self).model()),
            final(self).undo_stack == old(self).undo_stack,
            final(self).redo_stack == old(self).redo_stack,
    {
        let ghost s = self.input@;
        self.leave_history();
        proof {
            lemma_char_index_of_bounds(s, self.cursor as int);
            lemma_start_end_of_line_bounds(s, k as int);
        }
        let n = str_byte_len(self.input.as_str());
        let end = end_of_line(self.input.as_str(), self.cursor);
        let chars = collect_chars(self.input.as_str());
        let q = crate::cursor::next_newline(&chars, k);
        proof {
            lemma_byte_pos_end(s);
            if q < s.len() {
                lemma_byte_pos_step(s, q as int);
                lemma_byte_pos_le_len(s, q + 1);
            } else {
                lemma_byte_pos_past_end_eq(s, q as int);
            }
            if (q as int) < s.len() {
                lemma_byte_pos_strict(s, q as int, s.len() as int);
            }
        }
        let qd = if q == k && end < n {
            q + 1
        } else {
            q
        };
        let t = remove_chars(&self.input, k, qd);
        let c = self.cursor;
        self.replace_text(t, c);
        proof {
            lemma_prefix_boundary(s, k as int, s.skip(qd as int));
        }
    }

    fn kill_line_start(&mut self, k: usize)
        requires
            old(self).wf(),
            k == char_index_of(old(self).input@, old(self).cursor as int),
        ensures
            final(self).wf(),
            final(self).model() == kill_line_start(old(self).model()),
            final(self).undo_stack == old(self).undo_stack,
            final(self).redo_stack == old(self).redo_stack,
    {
        let ghost s = self.input@;
        self.leave_history();
        proof {
            lemma_char_index_of_bounds(s, self.cursor as int);
            lemma_start_end_of_line_bounds(s, k as int);
        }
        let start = start_of_line(self.input.as_str(), self.cursor);
        let chars = collect_chars(self.input.as_str());
        proof {
            lemma_char_index_of(s, last_newline_before(s, k as int) + 1);
        }
        let j = char_index(&chars, start);
        let t = remove_chars(&self.input, j, k);
        self.replace_text(t, start);
        proof {
            lemma_prefix_boundary(s, j as int, s.skip(k as int));
        }
    }

    fn delete_char_forward(&mut self, k: usize)
        requires
            old(self).wf(),
            k == char_index_of(old(self).input@, old(self).cursor as int),
        ensures
            final(self).wf(),
            final(self).model() == delete_char_forward(old(self).model()),
            final(self).undo_stack == old(self).undo_stack,
            final(self).redo_stack == old(self).redo_stack,
    {
        let ghost s = self.input@;
        self.leave_history();
        proof {
            lemma_char_index_of_bounds(s, self.cursor as int);
            lemma_byte_pos_end(s);
        }
        let n = str_byte_len(self.input.as_str());
        if self.cursor < n {
            proof {
                if k == s.len() {
                    assert(false);
                }
                crate::text::lemma_len_le_byte_len(s);
            }
            let t = remove_chars(&self.input, k, k + 1);
            let c = self.cursor;
            self.replace_text(t, c);
            proof {
                lemma_prefix_boundary(s, k as int, s.skip(k + 1));
            }
        } else {
            proof {
                if (k as int) < s.len() {
                    lemma_byte_pos_le_len(s, k + 1);
                    lemma_byte_pos_step(s, k as int);
                }
            }
        }
    }

    fn key_up(&mut self, k: usize)
        requires
            old(self).wf(),
            k == char_index_of(old(self).input@, old(self).cursor as int),
        ensures
            final(self).wf(),
            final(self).model() == key_up(old(self).model()),
            final(self).undo_stack == old(self).undo_stack,
            final(self).redo_stack == old(self).redo_stack,
    {
        let ghost s = self.input@;
        proof {
            lemma_char_index_of_bounds(s, self.cursor as int);
            lemma_chars_before_boundary(s, k as int);
        }
        let (line, col) = cursor_line_col(self.input.as_str(), self.cursor);
        if line > 0 {
            let l = line_length(self.input.as_str(), line - 1);
            let c = if col < l {
                col
            } else {
                l
            };
            let cur = line_col_to_cursor(self.input.as_str(), line - 1, c);
            proof {
                lemma_line_col_cursor_boundary(s, (line - 1) as nat, c as nat);
            }
            self.cursor = cur;
        } else if self.history.entries.len() > 0 {
            let ghost ents = strings_view(self.history.entries@);
            match self.history.index {
                None => {
                    self.history.saved = self.input.clone();
                    self.history.index = Some(self.history.entries.len() - 1);
                },
                Some(i) => {
                    if i > 0 {
                        self.history.index = Some(i - 1);
                    }
                },
            }
            match self.history.index {
                Some(idx) => {
                    let e = self.history.entries[idx].clone();
                    assert(e@ == ents[idx as int]);
                    let len = str_byte_len(e.as_str());
                    proof {
                        lemma_byte_pos_end(e@);
                        lemma_char_index_of(e@, e@.len() as int);
                    }
                    self.input = e;
                    self.cursor = len;
                },
                None => {},
            }
        }
    }

    fn key_down(&mut self, k: usize)
        requires
            old(self).wf(),
            k == char_index_of(old(self).input@, old(self).cursor as int),
        ensures
            final(self).wf(),
            final(self).model() == key_down(old(self).model()),
            final(self).undo_stack == old(self).undo_stack,
            final(self).redo_stack == old(self).redo_stack,
    {
        let ghost s = self.input@;
        proof {
            lemma_char_index_of_bounds(s, self.cursor as int);
            lemma_chars_before_boundary(s, k as int);
        }
        let n = str_byte_len(self.input.as_str());
        let (line, col) = cursor_line_col(self.input.as_str(), self.cursor);
        proof {
            crate::cursor::lemma_line_col_of_bounds(s, k as int);
            crate::text::lemma_len_le_byte_len(s);
        }
        let mut moved = false;
        if line < usize::MAX {
            let next_len = line_length(self.input.as_str(), line + 1);
            let first = line_col_to_cursor(self.input.as_str(), line + 1, 0);
            if next_len > 0 || first < n {
                let c = if col < next_len {
                    col
                } else {
                    next_len
                };
                let cur = line_col_to_cursor(self.input.as_str(), line + 1, c);
                proof {
                    lemma_line_col_cursor_boundary(s, (line + 1) as nat, c as nat);
                }
                self.cursor = cur;
                moved = true;
            }
        } else {
            proof {
                crate::cursor::lemma_line_after_last(s);
                lemma_byte_pos_end(s);
            }
        }
        if !moved {
            let ghost ents = strings_view(self.history.entries@);
            match self.history.index {
                None => {},
                Some(i) => {
                    if i < self.history.entries.len() - 1 {
                        self.history.index = Some(i + 1);
                        let e = self.history.entries[i + 1].clone();
                        assert(e@ == ents[i + 1]);
                        let len = str_byte_len(e.as_str());
                        proof {
                            lemma_byte_pos_end(e@);
                            lemma_char_index_of(e@, e@.len() as int);
                        }
                        self.input = e;
                        self.cursor = len;
                    } else {
                        self.history.index = None;
                        let mut e = String::new();
                        std::mem::swap(&mut e, &mut self.history.saved);
                        let len = str_byte_len(e.as_str());
                        proof {
                            lemma_byte_pos_end(e@);
                            lemma_char_index_of(e@, e@.len() as int);
                        }
                        self.input = e;
                        self.cursor = len;
                    }
                },
            }
        }
    }
}

// ---------- laws ----------

/// Backspace right after typing a character takes it out again: the text
/// and the cursor are what they were before the character was typed, the
/// history is untouched, and history navigation has ended.
pub proof fn law_backspace_undoes_typing(m: InputModel, c: char, typed: KeyPress, back: KeyPress)
    requires
        model_wf(m),
        typed.key == Key::Char(c),
        !typed.ctrl,
        !typed.alt,
        back.key == Key::Backspace,
        !back.ctrl,
        !back.alt,
    ensures
        ({
            let m1 = insert_transition(m, typed).0;
            let m2 = insert_transition(m1, back).0;
            &&& m2.input == m.input
            &&& m2.cursor == m.cursor
            &&& m2.index is None
            &&& m2.entries == m.entries
        }),
{
    let s = m.input;
    let k = char_index_of(s, m.cursor);
    let a = s.take(k);
    let b = s.skip(k);
    let s1 = a + (seq![c] + b);
    let m1 = insert_transition(m, typed).0;
    assert(m1.input =~= s1);
    // The cursor stands at character `k` of `s`.
    let w = choose|j: int| 0 <= j <= s.len() && byte_pos(s, j) == m.cursor;
    lemma_char_index_of(s, w);
    assert(0 <= k <= s.len() && byte_pos(s, k) == m.cursor);
    // After typing, it stands at character `k + 1` of the new text.
    lemma_byte_pos_take(s, k, k);
    lemma_byte_pos_end(a);
    lemma_byte_pos_concat(a, seq![c] + b, k + 1);
    assert((seq![c] + b).drop_first() =~= b);
    assert(byte_pos(seq![c] + b, 1) == crate::text::char_len(c) + byte_pos(b, 0));
    assert(m1.cursor == byte_pos(s1, k + 1));
    lemma_char_index_of(s1, k + 1);
    assert(char_index_of(s1, m1.cursor) == k + 1);
    // Backspace removes that character and steps back to character `k`.
    lemma_byte_pos_concat_prefix(a, seq![c] + b, k);
    assert(s1.take(k) + s1.skip(k + 1) =~= s);
    assert(s1.take(k) =~= a);
}

/// `b` belongs to the same class of word motion as `a`, a character that is
/// not white space: both word characters, or both punctuation.
pub open spec fn same_class(b: char, a: char) -> bool {
    if word_char(a) {
        word_char(b)
    } else {
        punct_char(b)
    }
}

/// Deleting forwards from index `k` of `s` up to `e`, the white space being
/// `s[k..w)`: `w` ends the white space after `k`, and `e` then ends the run
/// of word characters, or of punctuation, that starts at `w` (nothing more
/// when only white space follows `k`).
pub open spec fn forward_word_cut(s: Seq<char>, k: int, w: int, e: int) -> bool {
    &&& k <= w <= e <= s.len()
    &&& (forall|j: int| k <= j < w ==> is_white_space(#[trigger] s[j]))
    &&& (w < s.len() ==> !is_white_space(s[w]))
    &&& (w == s.len() ==> e == w)
    &&& (w < s.len() ==> {
        &&& e > w
        &&& (forall|j: int| w <= j < e ==> same_class(#[trigger] s[j], s[w]))
        &&& (e < s.len() ==> !same_class(s[e], s[w]))
    })
}

/// Alt+D deletes the next word after the cursor: the white space at the
/// cursor and the whole run of word characters, or of punctuation, that
/// follows it, and nothing else; the cursor stays where it was. At the end
/// of the text nothing is deleted.
pub proof fn law_delete_word_forward(m: InputModel, kp: KeyPress)
    requires
        model_wf(m),
        kp.key == Key::Char('d'),
        kp.alt,
        !kp.ctrl,
    ensures
        ({
            let s = m.input;
            let k = char_index_of(s, m.cursor);
            let m1 = insert_transition(m, kp).0;
            &&& m1.cursor == m.cursor
            &&& exists|w: int, e: int|
                #[trigger] forward_word_cut(s, k, w, e) && m1.input == s.take(k) + s.skip(e)
        }),
{
    let s = m.input;
    let k = char_index_of(s, m.cursor);
    lemma_char_index_of_bounds(s, m.cursor);
    let ws = |c: char| is_white_space(c);
    let w = crate::cursor::run_end(s, k, ws);
    crate::cursor::lemma_run_end_bounds(s, k, ws);
    let e = next_word_index(s, k);
    let m1 = insert_transition(m, kp).0;
    if w < s.len() {
        if word_char(s[w]) {
            let wp = |c: char| word_char(c);
            crate::cursor::lemma_run_end_bounds(s, w, wp);
            assert(e == crate::cursor::run_end(s, w, wp));
        } else {
            let pp = |c: char| punct_char(c);
            crate::cursor::lemma_run_end_bounds(s, w, pp);
            assert(e == crate::cursor::run_end(s, w, pp));
        }
    } else {
        assert(e == w);
    }
    assert(forward_word_cut(s, k, w, e));
    if k < s.len() {
        assert(m1.input == s.take(k) + s.skip(e));
    } else {
        assert(s.take(k) + s.skip(e) =~= s);
    }
}

/// Deleting backwards from index `k` of `s` down to `j`, the white space
/// being `s[w..k)`: `w` starts the white space before `k`, and `j` then
/// starts the run of word characters, or of punctuation, that ends at `w`
/// (nothing more when only white space precedes `k`).
pub open spec fn backward_word_cut(s: Seq<char>, k: int, w: int, j: int) -> bool {
    &&& 0 <= j <= w <= k <= s.len()
    &&& (forall|i: int| w <= i < k ==> is_white_space(#[trigger] s[i]))
    &&& (w > 0 ==> !is_white_space(s[w - 1]))
    &&& (w == 0 ==> j == w)
    &&& (w > 0 ==> {
        &&& j < w
        &&& (forall|i: int| j <= i < w ==> same_class(#[trigger] s[i], s[w - 1]))
        &&& (j > 0 ==> !same_class(s[j - 1], s[w - 1]))
    })
}

/// Ctrl+W deletes the word before the cursor: the white space just before
/// it and the whole run of word characters, or of punctuation, before that,
/// and nothing else; the cursor moves to where the deleted text began.
pub proof fn law_delete_word_back(m: InputModel, kp: KeyPress)
    requires
        model_wf(m),
        kp.key == Key::Char('w'),
        kp.ctrl,
    ensures
        ({
            let s = m.input;
            let k = char_index_of(s, m.cursor);
            let m1 = insert_transition(m, kp).0;
            exists|w: int, j: int|
                #[trigger] backward_word_cut(s, k, w, j) && m1.input == s.take(j) + s.skip(k)
                    && m1.cursor == byte_pos(s, j)
        }),
{
    let s = m.input;
    let k = char_index_of(s, m.cursor);
    lemma_char_index_of_bounds(s, m.cursor);
    let ws = |c: char| is_white_space(c);
    let w = crate::cursor::run_start(s, k, ws);
    crate::cursor::lemma_run_start_bounds(s, k, ws);
    let j = prev_word_index(s, k);
    let m1 = insert_transition(m, kp).0;
    if w > 0 {
        if word_char(s[w - 1]) {
            let wp = |c: char| word_char(c);
            crate::cursor::lemma_run_start_bounds(s, w, wp);
            assert(j == crate::cursor::run_start(s, w, wp));
        } else {
            let pp = |c: char| punct_char(c);
            crate::cursor::lemma_run_start_bounds(s, w, pp);
            assert(j == crate::cursor::run_start(s, w, pp));
        }
    } else {
        assert(j == w);
    }
    assert(backward_word_cut(s, k, w, j));
    if k == 0 {
        assert(s.take(j) + s.skip(k) =~= s);
        assert(byte_pos(s, 0) == 0);
    }
}

/// `q` ends the line that index `k` of `s` is on: no line break lies in
/// `s[k..q)`, and a line break, or the end of the text, is at `q`.
pub open spec fn line_end_at(s: Seq<char>, k: int, q: int) -> bool {
    &&& k <= q <= s.len()
    &&& (forall|i: int| k <= i < q ==> #[trigger] s[i] != '\n')
    &&& (q < s.len() ==> s[q] == '\n')
}

/// `j` starts the line that index `k` of `s` is on: no line break lies in
/// `s[j..k)`, and a line break, or the start of the text, is just before `j`.
pub open spec fn line_start_at(s: Seq<char>, k: int, j: int) -> bool {
    &&& 0 <= j <= k
    &&& (forall|i: int| j <= i < k ==> #[trigger] s[i] != '\n')
    &&& (j > 0 ==> s[j - 1] == '\n')
}

/// Ctrl+K deletes the rest of the line after the cursor and keeps the line
/// break; when the cursor is already at the line's end, it deletes the line
/// break instead, joining the next line. The cursor stays where it was.
pub proof fn law_kill_line(m: InputModel, kp: KeyPress)
    requires
        model_wf(m),
        kp.key == Key::Char('k'),
        kp.ctrl,
    ensures
        ({
            let s = m.input;
            let k = char_index_of(s, m.cursor);
            let m1 = insert_transition(m, kp).0;
            &&& m1.cursor == m.cursor
            &&& exists|q: int|
                #[trigger] line_end_at(s, k, q) && m1.input == (if q == k && q < s.len() {
                    s.take(k) + s.skip(k + 1)
                } else {
                    s.take(k) + s.skip(q)
                })
        }),
{
    let s = m.input;
    let k = char_index_of(s, m.cursor);
    lemma_char_index_of_bounds(s, m.cursor);
    crate::cursor::lemma_next_newline_bounds(s, k);
    let q = next_newline_from(s, k);
    assert(line_end_at(s, k, q));
}

/// Ctrl+U deletes the text from the start of the cursor's line up to the
/// cursor, and the cursor moves to the start of the line.
pub proof fn law_kill_line_start(m: InputModel, kp: KeyPress)
    requires
        model_wf(m),
        kp.key == Key::Char('u'),
        kp.ctrl,
    ensures
        ({
            let s = m.input;
            let k = char_index_of(s, m.cursor);
            let m1 = insert_transition(m, kp).0;
            exists|j: int|
                #[trigger] line_start_at(s, k, j) && m1.input == s.take(j) + s.skip(k) && m1.cursor
                    == byte_pos(s, j)
        }),
{
    let s = m.input;
    let k = char_index_of(s, m.cursor);
    lemma_char_index_of_bounds(s, m.cursor);
    crate::cursor::lemma_last_newline_bounds(s, k);
    let j = last_newline_before(s, k) + 1;
    assert(line_start_at(s, k, j));
}

/// Pressing Up on the first line while not navigating the history, then Down,
/// brings back exactly the text that was being typed, with the cursor at its end,
/// and leaves history navigation.
pub proof fn law_history_up_down_restores(m: InputModel, up: KeyPress, down: KeyPress)
    requires
        model_wf(m),
        m.index is None,
        m.entries.len() > 0,
        line_col_of(m.input, char_index_of(m.input, m.cursor)).0 == 0,
        up.key == Key::Up,
        down.key == Key::Down,
    ensures
        ({
            let m2 = insert_transition(insert_transition(m, up).0, down).0;
            &&& m2.input == m.input
            &&& m2.cursor == byte_len(m.input)
            &&& m2.index is None
            &&& m2.saved == Seq::<char>::empty()
            &&& m2.entries == m.entries
        }),
{
    let m1 = insert_transition(m, up).0;
    let e = m.entries[m.entries.len() - 1];
    assert(m1.input == e);
    lemma_byte_pos_end(e);
    lemma_char_index_of(e, e.len() as int);
    crate::cursor::lemma_line_after_last(e);
    lemma_byte_pos_end(e);
}

/// Recording a submitted input makes it the newest entry, and a history within
/// its limit stays within it.
pub proof fn law_record_entry(entries: Seq<Seq<char>>, task: Seq<char>)
    ensures
        record_entry(entries, task).len() > 0,
        record_entry(entries, task).last() == task,
        entries.len() <= HISTORY_LIMIT ==> record_entry(entries, task).len() <= HISTORY_LIMIT,
{
}

// ---------- lemmas ----------

pub proof fn lemma_char_index_of_bounds(s: Seq<char>, b: int)
    requires
        is_boundary(s, b),
    ensures
        0 <= char_index_of(s, b) <= s.len(),
        byte_pos(s, char_index_of(s, b)) == b,
{
}

/// The byte offset of index `a` is a boundary of `s.take(a) + rest` too.
pub proof fn lemma_prefix_boundary(s: Seq<char>, a: int, rest: Seq<char>)
    requires
        0 <= a <= s.len(),
    ensures
        byte_pos(s.take(a) + rest, a) == byte_pos(s, a),
        is_boundary(s.take(a) + rest, byte_pos(s, a) as int),
{
    let p = s.take(a);
    lemma_byte_pos_concat(p, rest, a);
    lemma_byte_pos_end(p);
    lemma_byte_pos_take(s, a, a);
    lemma_char_index_of(p + rest, a);
}

/// Inserting `c` at index `k` puts the following boundary `char_len(c)` bytes later.
pub proof fn lemma_insert_boundary(s: Seq<char>, k: int, c: char)
    requires
        0 <= k <= s.len(),
    ensures
        byte_pos(s.take(k) + seq![c] + s.skip(k), k + 1) == byte_pos(s, k) + crate::text::char_len(
            c,
        ),
        is_boundary(s.take(k) + seq![c] + s.skip(k), (byte_pos(s, k) + crate::text::char_len(c)) as int),
{
    let p = s.take(k) + seq![c];
    let t = p + s.skip(k);
    lemma_byte_pos_concat(p, s.skip(k), k + 1);
    lemma_byte_pos_end(p);
    lemma_byte_pos_step(p, k);
    lemma_byte_pos_take(s, k, k);
    lemma_byte_pos_concat_prefix_take(s, k, c);
    lemma_char_index_of(t, k + 1);
}

proof fn lemma_byte_pos_concat_prefix_take(s: Seq<char>, k: int, c: char)
    requires
        0 <= k <= s.len(),
    ensures
        byte_pos(s.take(k) + seq![c], k) == byte_pos(s, k),
{
    crate::text::lemma_byte_pos_concat_prefix(s.take(k), seq![c], k);
    lemma_byte_pos_take(s, k, k);
}

proof fn lemma_byte_pos_past_end_eq(s: Seq<char>, q: int)
    requires
        q == s.len(),
    ensures
        byte_pos(s, q) == byte_len(s),
{
    lemma_byte_pos_end(s);
}

} // verus!
