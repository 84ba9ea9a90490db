//! The keyboard modes other than text input: normal mode (panels,
//! scrolling, approvals, copying), search entry, the command palette and the
//! selection popup.
use vstd::prelude::*;
use crate::agent::{PlanStep, opt_view};
use crate::cursor::{prev_word_char_index, prev_word_index, char_index, lemma_prev_word_index_bounds};
use crate::keys::{Key, KeyPress};
use crate::log_view::{
    SearchState, ThinkingBlock, blocks_wf, count_visible, extract_last_code_block, jump_to_next_match,
    jump_to_prev_match, last_code_block, raw_view, search_matches, update_search_matches, visible,
    visible_message_index, visible_message_index_spec, lemma_visible_message_index_unique,
    centered_offset,
};
use crate::session::{PlanPanel, Session, Status, fill};
use crate::strutil::{contains, join, join_strings, lowercase, str_contains, str_eq, to_lowercase};
use crate::text::{byte_len, char_index_of, collect_chars, is_boundary, str_byte_len, string_from_chars};
use crate::strutil::slice_chars;

verus! {

#[derive(Clone, Copy, Debug, PartialEq, Eq, Structural)]
pub enum InputMode {
    Normal,
    Insert,
    Search,
    Palette,
    Select,
}

#[derive(Clone, Copy, Debug, PartialEq, Eq, Structural)]
pub enum FocusedPanel {
    Plan,
    Log,
}

/// The interface state that the keyboard modes change.
pub struct ModeState {
    pub input_mode: InputMode,
    pub focused_panel: FocusedPanel,
    /// Scroll offset of the log (the renderer bounds it).
    pub log_offset: u16,
    /// Height of the log panel, for centring a search match.
    pub log_height: u16,
    /// The search or palette entry line.
    pub cmd_line: String,
    pub palette_selected: usize,
    pub should_quit: bool,
    pub show_help: bool,
    pub show_history: bool,
    /// Mouse-selected plan steps (two ends, in either order).
    pub plan_selection: Option<(usize, usize)>,
    /// Mouse-selected shown log lines (two ends, in either order).
    pub log_selection: Option<(usize, usize)>,
    /// A word selected by double click: its byte range in the line at the
    /// start of the log selection.
    pub log_word_selection: Option<(usize, usize)>,
}

/// What a normal-mode key asks of the interface beyond its own state.
pub enum NormalAction {
    Nothing,
    /// Approve the step that waited (and log the approval).
    Approve,
    /// Refuse the step that waited (and log the refusal).
    Reject,
    /// Copy this text.
    Copy(String),
    /// Ask the agent to cancel its task.
    CancelTask,
}

pub open spec fn min_nat(a: int, b: int) -> int {
    if a <= b {
        a
    } else {
        b
    }
}

pub open spec fn max_nat(a: int, b: int) -> int {
    if a <= b {
        b
    } else {
        a
    }
}

// ---------- what to copy ----------

pub open spec fn descriptions_view(steps: Seq<PlanStep>) -> Seq<Seq<char>> {
    steps.map_values(|s: PlanStep| s.description@)
}

/// The plan text that normal-mode copying takes: the descriptions of the
/// mouse-selected steps (cut at the last step), one per line, or else the
/// description of the selected step.
pub open spec fn plan_copy_spec(steps: Seq<PlanStep>, selection: Option<(usize, usize)>, selected: usize) -> Option<Seq<char>> {
    let d = descriptions_view(steps);
    match selection {
        Some((s, e)) => {
            let start = min_nat(s as int, e as int);
            let end = max_nat(s as int, e as int);
            if start < steps.len() {
                Some(join(d.subrange(start, min_nat(end, steps.len() - 1) + 1), "\n"@))
            } else {
                None
            }
        },
        None => if selected < steps.len() {
            Some(d[selected as int])
        } else {
            None
        },
    }
}

/// The plan text to copy.
pub fn plan_copy_text(steps: &Vec<PlanStep>, selection: Option<(usize, usize)>, selected: usize) -> (r: Option<String>)
    ensures
        opt_view(r) == plan_copy_spec(steps@, selection, selected),
{
    match selection {
        Some((s, e)) => {
            let start = if s <= e {
                s
            } else {
                e
            };
            let end = if s <= e {
                e
            } else {
                s
            };
            if start < steps.len() {
                let last = if end < steps.len() - 1 {
                    end
                } else {
                    steps.len() - 1
                };
                let mut picked: Vec<String> = Vec::new();
                let mut i = start;
                let ghost d = descriptions_view(steps@);
                assert(last < usize::MAX);
                while i <= last
                    invariant
                        start <= i <= last + 1,
                        last < steps@.len(),
                        last < usize::MAX,
                        d == descriptions_view(steps@),
                        picked@.map_values(|x: String| x@) == d.subrange(start as int, i as int),
                    decreases last + 1 - i,
                {
                    let ghost pb = picked@;
                    picked.push(steps[i].description.clone());
                    proof {
                        assert(picked@.map_values(|x: String| x@) =~= pb.map_values(|x: String| x@).push(
                            d[i as int],
                        ));
                        assert(d.subrange(start as int, i + 1) =~= d.subrange(start as int, i as int).push(
                            d[i as int],
                        ));
                    }
                    i = i + 1;
                }
                Some(join_strings(&picked, "\n"))
            } else {
                None
            }
        },
        None => {
            if selected < steps.len() {
                Some(steps[selected].description.clone())
            } else {
                None
            }
        },
    }
}

/// The shown lines `start..=end` of the log, those that exist, in order.
pub open spec fn shown_lines(raw: Seq<Seq<char>>, blocks: Seq<ThinkingBlock>, start: int, end: int) -> Seq<Seq<char>>
    decreases end + 1 - start,
{
    if start > end {
        Seq::empty()
    } else {
        let rest = shown_lines(raw, blocks, start, end - 1);
        match visible_message_index_spec(blocks, raw.len() as int, end) {
            Some(p) => rest.push(raw[p]),
            None => rest,
        }
    }
}

/// The word-selected text of the line at logical index `line`: the bytes
/// `ws..we` of it, both cut at its length.
pub open spec fn word_slice(t: Seq<char>, ws: usize, we: usize) -> Seq<char> {
    let a = min_nat(ws as int, byte_len(t) as int);
    let b = min_nat(we as int, byte_len(t) as int);
    t.subrange(char_index_of(t, a), char_index_of(t, b))
}

/// A word selection lies on character boundaries of its line, in order.
pub open spec fn word_selection_ok(raw: Seq<Seq<char>>, blocks: Seq<ThinkingBlock>, sel: Option<(usize, usize)>, word: Option<(usize, usize)>) -> bool {
    match (sel, word) {
        (Some((s, e)), Some((ws, we))) => match visible_message_index_spec(blocks, raw.len() as int, min_nat(s as int, e as int)) {
            Some(p) => {
                let t = raw[p];
                let a = min_nat(ws as int, byte_len(t) as int);
                let b = min_nat(we as int, byte_len(t) as int);
                a <= b && is_boundary(t, a) && is_boundary(t, b)
            },
            None => true,
        },
        _ => true,
    }
}

/// The log text that normal-mode copying takes: the selected word, or the
/// selected shown lines one per line, or else the last shown line (or the
/// pending streamed text).
pub open spec fn log_copy_spec(
    raw: Seq<Seq<char>>,
    blocks: Seq<ThinkingBlock>,
    sel: Option<(usize, usize)>,
    word: Option<(usize, usize)>,
    stream: Seq<char>,
) -> Option<Seq<char>> {
    match sel {
        Some((s, e)) => {
            let start = min_nat(s as int, e as int);
            let end = max_nat(s as int, e as int);
            match word {
                Some((ws, we)) => match visible_message_index_spec(blocks, raw.len() as int, start) {
                    Some(p) => Some(word_slice(raw[p], ws, we)),
                    None => None,
                },
                None => {
                    let lines = shown_lines(raw, blocks, start, end);
                    if lines.len() == 0 {
                        None
                    } else {
                        Some(join(lines, "\n"@))
                    }
                },
            }
        },
        None => {
            let total = count_visible(blocks, raw.len() as int) + if stream.len() == 0 {
                0int
            } else {
                1int
            };
            if total > 0 && stream.len() == 0 {
                match visible_message_index_spec(blocks, raw.len() as int, total - 1) {
                    Some(p) => Some(raw[p]),
                    None => None,
                }
            } else if stream.len() > 0 {
                Some(stream)
            } else {
                None
            }
        },
    }
}

/// Whether the selected word lies on character boundaries of its line, as
/// copying it in normal mode needs (`word_selection_ok`).
pub fn word_selection_valid(
    raw: &Vec<String>,
    blocks: &Vec<ThinkingBlock>,
    sel: Option<(usize, usize)>,
    word: Option<(usize, usize)>,
) -> (b: bool)
    requires
        blocks_wf(blocks@),
    ensures
        b == word_selection_ok(raw_view(raw@), blocks@, sel, word),
{
    match (sel, word) {
        (Some((s, e)), Some((ws, we))) => {
            let lo = if s <= e {
                s
            } else {
                e
            };
            let r = visible_message_index(blocks, raw.len(), lo);
            proof {
                lemma_vmi_spec(blocks@, raw@.len() as int, lo as int, r);
            }
            match r {
                Some(p) => {
                    let t = &raw[p];
                    let n = str_byte_len(t.as_str());
                    let a = if ws <= n {
                        ws
                    } else {
                        n
                    };
                    let b = if we <= n {
                        we
                    } else {
                        n
                    };
                    let chars = collect_chars(t.as_str());
                    assert(raw_view(raw@)[p as int] == t@);
                    a <= b && crate::highlight::is_char_boundary(&chars, a)
                        && crate::highlight::is_char_boundary(&chars, b)
                },
                None => true,
            }
        },
        _ => true,
    }
}

proof fn lemma_vmi_spec(blocks: Seq<ThinkingBlock>, n: int, logical: int, r: Option<usize>)
    requires
        match r {
            Some(p) => p < n && visible(blocks, p as int) && count_visible(blocks, p as int) == logical,
            None => count_visible(blocks, n) <= logical,
        },
        n >= 0,
    ensures
        match r {
            Some(p) => visible_message_index_spec(blocks, n, logical) == Some(p as int),
            None => visible_message_index_spec(blocks, n, logical) is None,
        },
{
    lemma_visible_message_index_unique(blocks, n, logical);
    match r {
        Some(p) => {
            assert(0 <= p < n && visible(blocks, p as int) && count_visible(blocks, p as int) == logical);
        },
        None => {
            if exists|p: int| 0 <= p < n && visible(blocks, p) && count_visible(blocks, p) == logical {
                let p = choose|p: int| 0 <= p < n && visible(blocks, p) && count_visible(blocks, p) == logical;
                crate::log_view::lemma_count_visible_mono(blocks, p, n);
            }
        },
    }
}

/// The log text to copy.
pub fn log_copy_text(
    raw: &Vec<String>,
    blocks: &Vec<ThinkingBlock>,
    sel: Option<(usize, usize)>,
    word: Option<(usize, usize)>,
    stream: &String,
) -> (r: Option<String>)
    requires
        blocks_wf(blocks@),
        raw@.len() < usize::MAX,
        word_selection_ok(raw_view(raw@), blocks@, sel, word),
    ensures
        opt_view(r) == log_copy_spec(raw_view(raw@), blocks@, sel, word, stream@),
{
    let n = raw.len();
    let ghost rv = raw_view(raw@);
    match sel {
        Some((s, e)) => {
            let start = if s <= e {
                s
            } else {
                e
            };
            let end = if s <= e {
                e
            } else {
                s
            };
            match word {
                Some((ws, we)) => {
                    let found = visible_message_index(blocks, n, start);
                    proof {
                        lemma_vmi_spec(blocks@, n as int, start as int, found);
                    }
                    match found {
                        Some(p) => {
                            let text = &raw[p];
                            let len = str_byte_len(text.as_str());
                            let a = if ws < len {
                                ws
                            } else {
                                len
                            };
                            let b = if we < len {
                                we
                            } else {
                                len
                            };
                            let chars = collect_chars(text.as_str());
                            assert(rv[p as int] == text@);
                            let i = char_index(&chars, a);
                            let j = char_index(&chars, b);
                            proof {
                                if i > j {
                                    crate::text::lemma_byte_pos_strict(chars@, j as int, i as int);
                                }
                            }
                            let w = slice_chars(&chars, i, j);
                            Some(string_from_chars(&w))
                        },
                        None => None,
                    }
                },
                None => {
                    let mut picked: Vec<String> = Vec::new();
                    let mut i = start;
                    let mut done = false;
                    assert(shown_lines(rv, blocks@, start as int, start - 1) =~= Seq::<Seq<char>>::empty());
                    while !done
                        invariant
                            start <= i,
                            !done ==> i <= end,
                            done ==> i == end,
                            blocks_wf(blocks@),
                            n == raw@.len(),
                            rv == raw_view(raw@),
                            picked@.map_values(|x: String| x@) == (if done {
                                shown_lines(rv, blocks@, start as int, end as int)
                            } else {
                                shown_lines(rv, blocks@, start as int, i - 1)
                            }),
                        decreases end - i + (if done { 0int } else { 1int }),
                    {
                        let found = visible_message_index(blocks, n, i);
                        proof {
                            lemma_vmi_spec(blocks@, n as int, i as int, found);
                        }
                        let ghost pb = picked@;
                        match found {
                            Some(p) => {
                                picked.push(raw[p].clone());
                                proof {
                                    assert(picked@.map_values(|x: String| x@) =~= pb.map_values(|x: String| x@).push(
                                        rv[p as int],
                                    ));
                                }
                            },
                            None => {},
                        }
                        if i == end {
                            done = true;
                        } else {
                            i = i + 1;
                        }
                    }
                    if picked.len() == 0 {
                        None
                    } else {
                        Some(join_strings(&picked, "\n"))
                    }
                },
            }
        },
        None => {
            let empty_stream = stream.as_str().is_empty();
            let total = crate::log_view::total_log_lines(blocks, n, !empty_stream);
            if total > 0 && empty_stream {
                let found = visible_message_index(blocks, n, total - 1);
                proof {
                    lemma_vmi_spec(blocks@, n as int, total - 1, found);
                }
                match found {
                    Some(p) => Some(raw[p].clone()),
                    None => None,
                }
            } else if !empty_stream {
                Some(stream.clone())
            } else {
                None
            }
        },
    }
}

// ---------- normal mode ----------

pub open spec fn toggled(f: FocusedPanel) -> FocusedPanel {
    match f {
        FocusedPanel::Log => FocusedPanel::Plan,
        FocusedPanel::Plan => FocusedPanel::Log,
    }
}

/// The highlighted match and scroll offset after jumping to the next match.
pub open spec fn after_next_match(s: SearchState, offset: u16, h: u16) -> (usize, u16) {
    if s.matches@.len() == 0 {
        (s.current_match, offset)
    } else {
        let c = ((s.current_match + 1) % (s.matches@.len() as int)) as usize;
        (c, centered_offset(s.matches@[c as int], h))
    }
}

/// The highlighted match and scroll offset after jumping to the previous match.
pub open spec fn after_prev_match(s: SearchState, offset: u16, h: u16) -> (usize, u16) {
    if s.matches@.len() == 0 {
        (s.current_match, offset)
    } else {
        let c = (if s.current_match == 0 {
            s.matches@.len() - 1
        } else {
            s.current_match - 1
        }) as usize;
        (c, centered_offset(s.matches@[c as int], h))
    }
}

/// The text that copying takes from the focused panel.
pub open spec fn copy_spec(
    m: ModeState,
    steps: Seq<PlanStep>,
    selected: usize,
    raw: Seq<Seq<char>>,
    blocks: Seq<ThinkingBlock>,
    stream: Seq<char>,
) -> Option<Seq<char>> {
    match m.focused_panel {
        FocusedPanel::Plan => plan_copy_spec(steps, m.plan_selection, selected),
        FocusedPanel::Log => log_copy_spec(raw, blocks, m.log_selection, m.log_word_selection, stream),
    }
}

pub open spec fn copies(a: NormalAction, t: Option<Seq<char>>) -> bool {
    match t {
        Some(x) => a matches NormalAction::Copy(s) && s@ == x,
        None => a is Nothing,
    }
}

/// What a normal-mode key does to the mode state, the session and the
/// search, and what it asks for.
pub open spec fn normal_key_spec(
    m0: ModeState,
    m1: ModeState,
    s0: Session,
    s1: Session,
    q0: SearchState,
    q1: SearchState,
    raw: Seq<Seq<char>>,
    blocks: Seq<ThinkingBlock>,
    stream: Seq<char>,
    key: Key,
    a: NormalAction,
) -> bool {
    let log_focus = m0.focused_panel == FocusedPanel::Log;
    let waiting = s0.status is WaitingForUser;
    match key {
        Key::Tab => m1 == (ModeState { focused_panel: toggled(m0.focused_panel), ..m0 }) && s1 == s0 && q1
            == q0 && a is Nothing,
        Key::Enter => m1 == (ModeState { input_mode: InputMode::Insert, ..m0 }) && s1 == s0 && q1 == q0
            && a is Nothing,
        Key::Esc => m1 == (ModeState { plan_selection: None, log_selection: None, ..m0 }) && s1 == s0 && q1
            == q0 && a is Nothing,
        Key::Char(c) => {
            if c == 'e' {
                &&& s1 == (Session { plan: PlanPanel { visible: !s0.plan.visible, ..s0.plan }, ..s0 })
                &&& m1 == (ModeState {
                    focused_panel: if s0.plan.visible && m0.focused_panel == FocusedPanel::Plan {
                        FocusedPanel::Log
                    } else {
                        m0.focused_panel
                    },
                    ..m0
                })
                &&& q1 == q0 && a is Nothing
            } else if c == 'j' {
                &&& q1 == q0 && a is Nothing
                &&& if log_focus {
                    m1 == (ModeState {
                        log_offset: if m0.log_offset < u16::MAX {
                            (m0.log_offset + 1) as u16
                        } else {
                            u16::MAX
                        },
                        ..m0
                    }) && s1 == s0
                } else {
                    m1 == m0 && s1 == (Session {
                        plan: PlanPanel {
                            selected: if s0.plan.steps@.len() > 0 && s0.plan.selected + 1
                                < s0.plan.steps@.len() {
                                (s0.plan.selected + 1) as usize
                            } else {
                                s0.plan.selected
                            },
                            ..s0.plan
                        },
                        ..s0
                    })
                }
            } else if c == 'k' {
                &&& q1 == q0 && a is Nothing
                &&& if log_focus {
                    m1 == (ModeState {
                        log_offset: if m0.log_offset > 0 {
                            (m0.log_offset - 1) as u16
                        } else {
                            0
                        },
                        ..m0
                    }) && s1 == s0
                } else {
                    m1 == m0 && s1 == (Session {
                        plan: PlanPanel {
                            selected: if s0.plan.selected > 0 {
                                (s0.plan.selected - 1) as usize
                            } else {
                                0
                            },
                            ..s0.plan
                        },
                        ..s0
                    })
                }
            } else if c == 'g' || c == 'G' {
                &&& s1 == s0 && q1 == q0 && a is Nothing
                &&& m1 == (if log_focus {
                    ModeState {
                        log_offset: if c == 'g' {
                            0
                        } else {
                            u16::MAX
                        },
                        ..m0
                    }
                } else {
                    m0
                })
            } else if c == 'n' {
                if waiting {
                    m1 == m0 && q1 == q0 && s1 == (Session { status: Status::Idle, ..s0 }) && a is Reject
                } else {
                    let (cm, off) = after_next_match(q0, m0.log_offset, m0.log_height);
                    &&& s1 == s0 && a is Nothing
                    &&& q1 == (SearchState { current_match: cm, ..q0 })
                    &&& m1 == (ModeState { log_offset: off, ..m0 })
                }
            } else if c == 'N' {
                let (cm, off) = after_prev_match(q0, m0.log_offset, m0.log_height);
                &&& s1 == s0 && a is Nothing
                &&& q1 == (SearchState { current_match: cm, ..q0 })
                &&& m1 == (ModeState { log_offset: off, ..m0 })
            } else if c == '/' {
                &&& m1 == (ModeState { input_mode: InputMode::Search, cmd_line: m1.cmd_line, ..m0 })
                &&& m1.cmd_line@.len() == 0
                &&& s1 == s0 && q1 == q0 && a is Nothing
            } else if c == ':' {
                &&& m1 == (ModeState {
                    input_mode: InputMode::Palette,
                    cmd_line: m1.cmd_line,
                    palette_selected: 0,
                    ..m0
                })
                &&& m1.cmd_line@.len() == 0
                &&& s1 == s0 && q1 == q0 && a is Nothing
            } else if c == 'i' {
                m1 == (ModeState { input_mode: InputMode::Insert, ..m0 }) && s1 == s0 && q1 == q0
                    && a is Nothing
            } else if c == 'y' {
                &&& m1 == m0 && q1 == q0
                &&& if waiting {
                    s1 == (Session { status: Status::Idle, ..s0 }) && a is Approve
                } else {
                    s1 == s0 && copies(a, copy_spec(m0, s0.plan.steps@, s0.plan.selected, raw, blocks, stream))
                }
            } else if c == 'Y' {
                &&& m1 == m0 && s1 == s0 && q1 == q0
                &&& copies(a, if log_focus { last_code_block(raw) } else { None })
            } else if c == 'c' {
                m1 == m0 && s1 == s0 && q1 == q0 && (if s0.status is Idle {
                    a is Nothing
                } else {
                    a is CancelTask
                })
            } else if c == 'q' {
                m1 == (ModeState { should_quit: true, ..m0 }) && s1 == s0 && q1 == q0 && a is Nothing
            } else {
                m1 == m0 && s1 == s0 && q1 == q0 && a is Nothing
            }
        },
        _ => m1 == m0 && s1 == s0 && q1 == q0 && a is Nothing,
    }
}

/// Handles a key in normal mode.
pub fn normal_key(
    m: &mut ModeState,
    session: &mut Session,
    search: &mut SearchState,
    raw: &Vec<String>,
    blocks: &Vec<ThinkingBlock>,
    stream: &String,
    key: KeyPress,
) -> (a: NormalAction)
    requires
        old(search).wf(),
        old(session).plan.wf(),
        blocks_wf(blocks@),
        raw@.len() < usize::MAX,
        key.key == Key::Char('y') ==> word_selection_ok(
            raw_view(raw@),
            blocks@,
            old(m).log_selection,
            old(m).log_word_selection,
        ),
    ensures
        final(search).wf(),
        final(session).plan.wf(),
        normal_key_spec(
            *old(m),
            *final(m),
            *old(session),
            *final(session),
            *old(search),
            *final(search),
            raw_view(raw@),
            blocks@,
            stream@,
            key.key,
            a,
        ),
{
    let log_focus = m.focused_panel == FocusedPanel::Log;
    match key.key {
        Key::Tab => {
            m.focused_panel = match m.focused_panel {
                FocusedPanel::Log => FocusedPanel::Plan,
                FocusedPanel::Plan => FocusedPanel::Log,
            };
            NormalAction::Nothing
        },
        Key::Enter => {
            m.input_mode = InputMode::Insert;
            NormalAction::Nothing
        },
        Key::Esc => {
            m.plan_selection = None;
            m.log_selection = None;
            NormalAction::Nothing
        },
        Key::Char(c) => {
            if c == 'e' {
                session.plan.visible = !session.plan.visible;
                if !session.plan.visible && m.focused_panel == FocusedPanel::Plan {
                    m.focused_panel = FocusedPanel::Log;
                }
                NormalAction::Nothing
            } else if c == 'j' {
                if log_focus {
                    if m.log_offset < u16::MAX {
                        m.log_offset = m.log_offset + 1;
                    }
                } else {
                    session.plan.select_next();
                }
                NormalAction::Nothing
            } else if c == 'k' {
                if log_focus {
                    if m.log_offset > 0 {
                        m.log_offset = m.log_offset - 1;
                    }
                } else {
                    session.plan.select_prev();
                }
                NormalAction::Nothing
            } else if c == 'g' || c == 'G' {
                if log_focus {
                    m.log_offset = if c == 'g' {
                        0
                    } else {
                        u16::MAX
                    };
                }
                NormalAction::Nothing
            } else if c == 'n' {
                match session.take_approval() {
                    Some(_) => NormalAction::Reject,
                    None => {
                        let h = m.log_height;
                        jump_to_next_match(search, &mut m.log_offset, h);
                        NormalAction::Nothing
                    },
                }
            } else if c == 'N' {
                let h = m.log_height;
                jump_to_prev_match(search, &mut m.log_offset, h);
                NormalAction::Nothing
            } else if c == '/' {
                m.input_mode = InputMode::Search;
                m.cmd_line = String::new();
                NormalAction::Nothing
            } else if c == ':' {
                m.input_mode = InputMode::Palette;
                m.cmd_line = String::new();
                m.palette_selected = 0;
                NormalAction::Nothing
            } else if c == 'i' {
                m.input_mode = InputMode::Insert;
                NormalAction::Nothing
            } else if c == 'y' {
                match session.take_approval() {
                    Some(_) => NormalAction::Approve,
                    None => {
                        let text = if log_focus {
                            log_copy_text(raw, blocks, m.log_selection, m.log_word_selection, stream)
                        } else {
                            plan_copy_text(&session.plan.steps, m.plan_selection, session.plan.selected)
                        };
                        match text {
                            Some(t) => NormalAction::Copy(t),
                            None => NormalAction::Nothing,
                        }
                    },
                }
            } else if c == 'Y' {
                if log_focus {
                    match extract_last_code_block(raw) {
                        Some(code) => NormalAction::Copy(code),
                        None => NormalAction::Nothing,
                    }
                } else {
                    NormalAction::Nothing
                }
            } else if c == 'c' {
                match session.status {
                    Status::Idle => NormalAction::Nothing,
                    _ => NormalAction::CancelTask,
                }
            } else if c == 'q' {
                m.should_quit = true;
                NormalAction::Nothing
            } else {
                NormalAction::Nothing
            }
        },
        _ => NormalAction::Nothing,
    }
}

// ---------- entry lines ----------

/// `s` without its last word (as deleting a word backwards from its end).
pub open spec fn without_last_word(s: Seq<char>) -> Seq<char> {
    s.take(prev_word_index(s, s.len() as int))
}

pub fn delete_last_word(s: &String) -> (r: String)
    ensures
        r@ == without_last_word(s@),
{
    let chars = collect_chars(s.as_str());
    let k = prev_word_char_index(&chars, chars.len());
    let kept = slice_chars(&chars, 0, k);
    assert(kept@ =~= chars@.take(k as int));
    string_from_chars(&kept)
}

pub fn push_char(s: &String, c: char) -> (r: String)
    ensures
        r@ == s@.push(c),
{
    let mut chars = collect_chars(s.as_str());
    chars.push(c);
    string_from_chars(&chars)
}

pub fn pop_char(s: &String) -> (r: String)
    ensures
        r@ == (if s@.len() > 0 {
            s@.drop_last()
        } else {
            s@
        }),
{
    let chars = collect_chars(s.as_str());
    if chars.len() == 0 {
        return s.clone();
    }
    let kept = slice_chars(&chars, 0, chars.len() - 1);
    assert(kept@ =~= chars@.drop_last());
    string_from_chars(&kept)
}

/// What an entry-line key does to the line: Ctrl+W deletes the last word,
/// Ctrl+U clears it, a character is appended, Backspace drops the last one.
/// `None` for a key that is no such edit.
pub open spec fn line_edit(line: Seq<char>, key: KeyPress) -> Option<Seq<char>> {
    match key.key {
        Key::Char(c) => if c == 'w' && key.ctrl {
            Some(without_last_word(line))
        } else if c == 'u' && key.ctrl {
            Some(Seq::empty())
        } else {
            Some(line.push(c))
        },
        Key::Backspace => Some(
            if line.len() > 0 {
                line.drop_last()
            } else {
                line
            },
        ),
        _ => None,
    }
}

fn edit_line(line: &String, key: KeyPress) -> (r: Option<String>)
    ensures
        opt_view(r) == line_edit(line@, key),
{
    match key.key {
        Key::Char(c) => {
            if c == 'w' && key.ctrl {
                Some(delete_last_word(line))
            } else if c == 'u' && key.ctrl {
                Some(String::new())
            } else {
                Some(push_char(line, c))
            }
        },
        Key::Backspace => Some(pop_char(line)),
        _ => None,
    }
}

// ---------- search mode ----------

/// Handles a key in search mode: Enter searches the log for the line and
/// returns to normal mode, Esc abandons the line, other keys edit it.
pub fn search_key(
    m: &mut ModeState,
    search: &mut SearchState,
    raw: &Vec<String>,
    blocks: &Vec<ThinkingBlock>,
    stream: &String,
    key: KeyPress,
)
    requires
        old(search).wf(),
        blocks_wf(blocks@),
    ensures
        final(search).wf(),
        match key.key {
            Key::Enter => {
                &&& final(search).term@ == old(m).cmd_line@
                &&& final(search).matches@ == search_matches(raw_view(raw@), blocks@, old(m).cmd_line@, stream@)
                &&& final(search).matches@.len() > 0 ==> final(search).current_match == 0 && final(m).log_offset
                    == centered_offset(final(search).matches@[0], old(m).log_height)
                &&& final(search).matches@.len() == 0 ==> final(search).current_match == old(
                    search,
                ).current_match && final(m).log_offset == old(m).log_offset
                &&& final(m).cmd_line@.len() == 0
                &&& final(m).input_mode == InputMode::Normal
                &&& *final(m) == (ModeState {
                    cmd_line: final(m).cmd_line,
                    input_mode: final(m).input_mode,
                    log_offset: final(m).log_offset,
                    ..*old(m)
                })
            },
            Key::Esc => {
                &&& final(m).cmd_line@.len() == 0
                &&& *final(m) == (ModeState {
                    cmd_line: final(m).cmd_line,
                    input_mode: InputMode::Normal,
                    ..*old(m)
                })
                &&& *final(search) == *old(search)
            },
            _ => {
                &&& *final(search) == *old(search)
                &&& match line_edit(old(m).cmd_line@, key) {
                    Some(l) => final(m).cmd_line@ == l && *final(m) == (ModeState {
                        cmd_line: final(m).cmd_line,
                        ..*old(m)
                    }),
                    None => *final(m) == *old(m),
                }
            },
        },
{
    match key.key {
        Key::Enter => {
            search.term = m.cmd_line.clone();
            let h = m.log_height;
            update_search_matches(raw, blocks, stream, search, &mut m.log_offset, h);
            m.cmd_line = String::new();
            m.input_mode = InputMode::Normal;
        },
        Key::Esc => {
            m.cmd_line = String::new();
            m.input_mode = InputMode::Normal;
        },
        _ => {
            match edit_line(&m.cmd_line, key) {
                Some(l) => {
                    m.cmd_line = l;
                },
                None => {},
            }
        },
    }
}

// ---------- command palette ----------

/// Number of commands in the palette.
pub const PALETTE_LEN: usize = 9;

/// The palette's commands with their descriptions, in order.
pub open spec fn palette_entry(i: int) -> (Seq<char>, Seq<char>) {
    if i == 0 {
        ("theme"@, "Toggle color theme"@)
    } else if i == 1 {
        ("save"@, "Save log to file"@)
    } else if i == 2 {
        ("cancel"@, "Cancel current task"@)
    } else if i == 3 {
        ("quit"@, "Quit application"@)
    } else if i == 4 {
        ("help"@, "Show help panel"@)
    } else if i == 5 {
        ("history"@, "Show task history"@)
    } else if i == 6 {
        ("search"@, "Search log messages"@)
    } else if i == 7 {
        ("balance"@, "Query account balance (DeepSeek)"@)
    } else {
        ("lang"@, "Toggle language (EN/\u{4e2d}\u{6587})"@)
    }
}

/// The palette's command `i` and its description.
pub fn palette_command(i: usize) -> (r: (&'static str, &'static str))
    requires
        i < PALETTE_LEN,
    ensures
        (r.0@, r.1@) == palette_entry(i as int),
{
    if i == 0 {
        ("theme", "Toggle color theme")
    } else if i == 1 {
        ("save", "Save log to file")
    } else if i == 2 {
        ("cancel", "Cancel current task")
    } else if i == 3 {
        ("quit", "Quit application")
    } else if i == 4 {
        ("help", "Show help panel")
    } else if i == 5 {
        ("history", "Show task history")
    } else if i == 6 {
        ("search", "Search log messages")
    } else if i == 7 {
        ("balance", "Query account balance (DeepSeek)")
    } else {
        ("lang", "Toggle language (EN/\u{4e2d}\u{6587})")
    }
}

/// A command is listed for the lower-cased filter when the filter is empty
/// or occurs in the lower-cased command or description.
pub open spec fn entry_matches(filter: Seq<char>, i: int) -> bool {
    filter.len() == 0 || contains(lowercase(palette_entry(i).0), filter) || contains(
        lowercase(palette_entry(i).1),
        filter,
    )
}

/// The indices of the commands among the first `n` that the filter lists.
pub open spec fn palette_filter(filter: Seq<char>, n: int) -> Seq<usize>
    decreases n,
{
    if n <= 0 {
        Seq::empty()
    } else {
        let r = palette_filter(filter, n - 1);
        if entry_matches(filter, n - 1) {
            r.push((n - 1) as usize)
        } else {
            r
        }
    }
}

/// The commands that the palette lists for the entry line `line`.
pub fn filtered_commands(line: &str) -> (r: Vec<usize>)
    ensures
        r@ == palette_filter(lowercase(line@), PALETTE_LEN as int),
        forall|k: int| 0 <= k < r@.len() ==> #[trigger] r@[k] < PALETTE_LEN,
{
    let filter = to_lowercase(line);
    let empty = filter.as_str().is_empty();
    let mut out: Vec<usize> = Vec::new();
    let mut i: usize = 0;
    while i < PALETTE_LEN
        invariant
            i <= PALETTE_LEN,
            filter@ == lowercase(line@),
            empty == (filter@.len() == 0),
            out@ == palette_filter(filter@, i as int),
            forall|k: int| 0 <= k < out@.len() ==> #[trigger] out@[k] < i,
        decreases PALETTE_LEN - i,
    {
        let (cmd, desc) = palette_command(i);
        let listed = if empty {
            true
        } else {
            let lc = to_lowercase(cmd);
            if str_contains(lc.as_str(), filter.as_str()) {
                true
            } else {
                let ld = to_lowercase(desc);
                str_contains(ld.as_str(), filter.as_str())
            }
        };
        if listed {
            out.push(i);
        }
        i = i + 1;
    }
    out
}

/// What a palette command asks of the interface beyond the mode state.
#[derive(Clone, Copy, Debug, PartialEq, Eq, Structural)]
pub enum PaletteAction {
    Nothing,
    ToggleTheme,
    SaveLog,
    ToggleLanguage,
    TogglePartyMode,
    CancelTask,
    QueryBalance,
}

/// What running the palette command `cmd` does: the mode state after it
/// and what it asks for. Quitting, the help and history panels and search
/// mode are mode state; a cancel is asked for only while the agent is busy.
pub open spec fn palette_effect(m0: ModeState, busy: bool, cmd: Seq<char>, m1: ModeState, a: PaletteAction) -> bool {
    if cmd == "theme"@ {
        m1 == m0 && a == PaletteAction::ToggleTheme
    } else if cmd == "save"@ {
        m1 == m0 && a == PaletteAction::SaveLog
    } else if cmd == "quit"@ {
        m1 == (ModeState { should_quit: true, ..m0 }) && a == PaletteAction::Nothing
    } else if cmd == "help"@ {
        m1 == (ModeState { show_help: !m0.show_help, show_history: false, ..m0 }) && a == PaletteAction::Nothing
    } else if cmd == "history"@ {
        m1 == (ModeState { show_history: !m0.show_history, show_help: false, ..m0 }) && a
            == PaletteAction::Nothing
    } else if cmd == "search"@ {
        m1 == (ModeState { input_mode: InputMode::Search, cmd_line: m1.cmd_line, ..m0 }) && m1.cmd_line@.len()
            == 0 && a == PaletteAction::Nothing
    } else if cmd == "cancel"@ {
        m1 == m0 && a == (if busy {
            PaletteAction::CancelTask
        } else {
            PaletteAction::Nothing
        })
    } else if cmd == "balance"@ {
        m1 == m0 && a == PaletteAction::QueryBalance
    } else if cmd == "lang"@ {
        m1 == m0 && a == PaletteAction::ToggleLanguage
    } else if cmd == "party"@ {
        m1 == m0 && a == PaletteAction::TogglePartyMode
    } else {
        m1 == m0 && a == PaletteAction::Nothing
    }
}

/// Runs the palette command `cmd`; `status` is the agent's status.
pub fn execute_palette_command(m: &mut ModeState, status: &Status, cmd: &str) -> (a: PaletteAction)
    ensures
        palette_effect(*old(m), !(*status is Idle), cmd@, *final(m), a),
{
    if str_eq(cmd, "theme") {
        PaletteAction::ToggleTheme
    } else if str_eq(cmd, "save") {
        PaletteAction::SaveLog
    } else if str_eq(cmd, "quit") {
        m.should_quit = true;
        PaletteAction::Nothing
    } else if str_eq(cmd, "help") {
        m.show_help = !m.show_help;
        m.show_history = false;
        PaletteAction::Nothing
    } else if str_eq(cmd, "history") {
        m.show_history = !m.show_history;
        m.show_help = false;
        PaletteAction::Nothing
    } else if str_eq(cmd, "search") {
        m.input_mode = InputMode::Search;
        m.cmd_line = String::new();
        PaletteAction::Nothing
    } else if str_eq(cmd, "cancel") {
        match status {
            Status::Idle => PaletteAction::Nothing,
            _ => PaletteAction::CancelTask,
        }
    } else if str_eq(cmd, "balance") {
        PaletteAction::QueryBalance
    } else if str_eq(cmd, "lang") {
        PaletteAction::ToggleLanguage
    } else if str_eq(cmd, "party") {
        PaletteAction::TogglePartyMode
    } else {
        PaletteAction::Nothing
    }
}

/// The mode state once the highlighted palette command is taken: entry
/// line cleared and back in normal mode.
pub open spec fn palette_left(m0: ModeState, m: ModeState) -> bool {
    m.cmd_line@.len() == 0 && m == (ModeState { cmd_line: m.cmd_line, input_mode: InputMode::Normal, ..m0 })
}

/// Handles a key in palette mode: Enter runs the highlighted command among
/// those listed (if any is), Up and Down move the highlight, Esc leaves, and
/// an edit of the line highlights the first command again.
pub fn palette_key(m: &mut ModeState, status: &Status, key: KeyPress) -> (a: PaletteAction)
    requires
        old(m).palette_selected < usize::MAX,
    ensures
        match key.key {
            Key::Enter => {
                let listed = palette_filter(lowercase(old(m).cmd_line@), PALETTE_LEN as int);
                if listed.len() == 0 {
                    *final(m) == *old(m) && a == PaletteAction::Nothing
                } else {
                    let idx = min_nat(old(m).palette_selected as int, listed.len() - 1);
                    exists|mid: ModeState|
                        palette_left(*old(m), mid) && palette_effect(
                            mid,
                            !(*status is Idle),
                            palette_entry(listed[idx] as int).0,
                            *final(m),
                            a,
                        )
                }
            },
            Key::Up => *final(m) == (ModeState {
                palette_selected: if old(m).palette_selected > 0 {
                    (old(m).palette_selected - 1) as usize
                } else {
                    0
                },
                ..*old(m)
            }) && a == PaletteAction::Nothing,
            Key::Down => *final(m) == (ModeState {
                palette_selected: (old(m).palette_selected + 1) as usize,
                ..*old(m)
            }) && a == PaletteAction::Nothing,
            Key::Esc => final(m).cmd_line@.len() == 0 && *final(m) == (ModeState {
                cmd_line: final(m).cmd_line,
                input_mode: InputMode::Normal,
                ..*old(m)
            }) && a == PaletteAction::Nothing,
            _ => a == PaletteAction::Nothing && match line_edit(old(m).cmd_line@, key) {
                Some(l) => final(m).cmd_line@ == l && *final(m) == (ModeState {
                    cmd_line: final(m).cmd_line,
                    palette_selected: 0,
                    ..*old(m)
                }),
                None => *final(m) == *old(m),
            },
        },
{
    match key.key {
        Key::Enter => {
            let listed = filtered_commands(m.cmd_line.as_str());
            if listed.len() == 0 {
                return PaletteAction::Nothing;
            }
            let idx = if m.palette_selected < listed.len() - 1 {
                m.palette_selected
            } else {
                listed.len() - 1
            };
            let (cmd, _) = palette_command(listed[idx]);
            m.cmd_line = String::new();
            m.input_mode = InputMode::Normal;
            let ghost mid = *m;
            let a = execute_palette_command(m, status, cmd);
            assert(palette_left(*old(m), mid));
            a
        },
        Key::Up => {
            if m.palette_selected > 0 {
                m.palette_selected = m.palette_selected - 1;
            }
            PaletteAction::Nothing
        },
        Key::Down => {
            m.palette_selected = m.palette_selected + 1;
            PaletteAction::Nothing
        },
        Key::Esc => {
            m.cmd_line = String::new();
            m.input_mode = InputMode::Normal;
            PaletteAction::Nothing
        },
        _ => {
            match edit_line(&m.cmd_line, key) {
                Some(l) => {
                    m.cmd_line = l;
                    m.palette_selected = 0;
                },
                None => {},
            }
            PaletteAction::Nothing
        },
    }
}

// ---------- selection popup ----------

/// A choice that the agent asked the user to make: the prompt, the options,
/// the highlighted option, and whether the agent still waits for an answer.
pub struct SelectPopup {
    pub prompt: String,
    pub options: Vec<String>,
    pub selected: usize,
    pub pending: bool,
}

impl SelectPopup {
    pub fn new() -> (p: SelectPopup)
        ensures
            p.prompt@.len() == 0,
            p.options@.len() == 0,
            p.selected == 0,
            !p.pending,
            p.wf(),
    {
        SelectPopup { prompt: String::new(), options: Vec::new(), selected: 0, pending: false }
    }

    /// The highlight is an option, or the first position.
    pub open spec fn wf(&self) -> bool {
        self.selected == 0 || self.selected < self.options@.len()
    }

    /// Shows a new choice, highlighting its first option.
    pub fn set(&mut self, prompt: String, options: Vec<String>)
        ensures
            final(self).prompt@ == prompt@,
            final(self).options@ == options@,
            final(self).selected == 0,
            final(self).pending,
            final(self).wf(),
    {
        self.prompt = prompt;
        self.options = options;
        self.selected = 0;
        self.pending = true;
    }

    /// Takes the highlighted option (the last one if the highlight is past
    /// the end, zero when there are none); the second result tells whether
    /// the agent was waiting for it, and it no longer is.
    pub fn confirm(&mut self) -> (r: (usize, bool))
        ensures
            r.0 == (if old(self).options@.len() == 0 {
                0
            } else {
                min_nat(old(self).selected as int, old(self).options@.len() - 1)
            }),
            r.1 == old(self).pending,
            !final(self).pending,
            final(self).selected == old(self).selected,
            final(self).options == old(self).options,
            final(self).prompt == old(self).prompt,
    {
        let was = self.pending;
        self.pending = false;
        let last = if self.options.len() > 0 {
            self.options.len() - 1
        } else {
            0
        };
        let idx = if self.selected < last {
            self.selected
        } else {
            last
        };
        (idx, was)
    }

    /// Abandons the choice; tells whether the agent was waiting for it.
    pub fn cancel(&mut self) -> (was_pending: bool)
        ensures
            was_pending == old(self).pending,
            !final(self).pending,
            final(self).selected == old(self).selected,
            final(self).options == old(self).options,
            final(self).prompt == old(self).prompt,
    {
        let was = self.pending;
        self.pending = false;
        was
    }

    /// Highlights the next option, where there is one.
    pub fn move_down(&mut self)
        requires
            old(self).wf(),
        ensures
            final(self).selected == (if old(self).selected + 1 < old(self).options@.len() {
                old(self).selected + 1
            } else {
                old(self).selected as int
            }),
            final(self).wf(),
            final(self).options == old(self).options,
            final(self).prompt == old(self).prompt,
            final(self).pending == old(self).pending,
    {
        if self.options.len() > 0 && self.selected < self.options.len() - 1 {
            self.selected = self.selected + 1;
        }
    }

    /// Highlights the previous option, where there is one.
    pub fn move_up(&mut self)
        requires
            old(self).wf(),
        ensures
            final(self).selected == (if old(self).selected > 0 {
                old(self).selected - 1
            } else {
                0
            }),
            final(self).wf(),
            final(self).options == old(self).options,
            final(self).prompt == old(self).prompt,
            final(self).pending == old(self).pending,
    {
        if self.selected > 0 {
            self.selected = self.selected - 1;
        }
    }
}

/// What a key in the selection popup asks of the interface.
pub enum SelectAction {
    Nothing,
    /// Log this line (there was nothing to choose).
    Message(String),
    /// Answer the agent with this option (if it waits) and log the line.
    Answer { index: usize, notify: bool, message: String },
    /// Tell the agent the choice was abandoned (if it waits) and log the line.
    Cancel { notify: bool, message: String },
}

/// Handles a key in the selection popup: Enter takes the highlighted option
/// (with no options it only says so), `j`/Down and `k`/Up move the
/// highlight, Esc abandons the choice. Enter and Esc return to normal mode.
pub fn select_key(
    m: &mut ModeState,
    popup: &mut SelectPopup,
    key: KeyPress,
    no_options: &str,
    selected_tmpl: &str,
    cancelled: &str,
) -> (a: SelectAction)
    requires
        old(popup).wf(),
    ensures
        final(popup).wf(),
        match key.key {
            Key::Enter => {
                &&& *final(m) == (ModeState { input_mode: InputMode::Normal, ..*old(m) })
                &&& if old(popup).options@.len() == 0 {
                    a matches SelectAction::Message(t) && t@ == no_options@ && *final(popup) == *old(popup)
                } else {
                    let idx = min_nat(old(popup).selected as int, old(popup).options@.len() - 1);
                    &&& a matches SelectAction::Answer { index, notify, message }
                    &&& index == idx && notify == old(popup).pending
                    &&& message@ == fill(selected_tmpl@, old(popup).options@[idx]@)
                    &&& *final(popup) == (SelectPopup { pending: false, ..*old(popup) })
                }
            },
            Key::Esc => {
                &&& *final(m) == (ModeState { input_mode: InputMode::Normal, ..*old(m) })
                &&& a matches SelectAction::Cancel { notify, message }
                &&& notify == old(popup).pending && message@ == cancelled@
                &&& *final(popup) == (SelectPopup { pending: false, ..*old(popup) })
            },
            Key::Down => *final(m) == *old(m) && a is Nothing && final(popup).selected == (if old(
                popup,
            ).selected + 1 < old(popup).options@.len() {
                old(popup).selected + 1
            } else {
                old(popup).selected as int
            }) && *final(popup) == (SelectPopup { selected: final(popup).selected, ..*old(popup) }),
            Key::Up => *final(m) == *old(m) && a is Nothing && final(popup).selected == (if old(
                popup,
            ).selected > 0 {
                old(popup).selected - 1
            } else {
                0
            }) && *final(popup) == (SelectPopup { selected: final(popup).selected, ..*old(popup) }),
            Key::Char(c) => *final(m) == *old(m) && a is Nothing && (if c == 'j' {
                final(popup).selected == (if old(popup).selected + 1 < old(popup).options@.len() {
                    old(popup).selected + 1
                } else {
                    old(popup).selected as int
                }) && *final(popup) == (SelectPopup { selected: final(popup).selected, ..*old(popup) })
            } else if c == 'k' {
                final(popup).selected == (if old(popup).selected > 0 {
                    old(popup).selected - 1
                } else {
                    0
                }) && *final(popup) == (SelectPopup { selected: final(popup).selected, ..*old(popup) })
            } else {
                *final(popup) == *old(popup)
            }),
            _ => *final(m) == *old(m) && a is Nothing && *final(popup) == *old(popup),
        },
{
    match key.key {
        Key::Enter => {
            m.input_mode = InputMode::Normal;
            if popup.options.len() == 0 {
                SelectAction::Message(no_options.to_owned())
            } else {
                let (idx, notify) = popup.confirm();
                let message = crate::strutil::replace_all_str(selected_tmpl, "{}", popup.options[idx].as_str());
                SelectAction::Answer { index: idx, notify, message }
            }
        },
        Key::Esc => {
            let notify = popup.cancel();
            m.input_mode = InputMode::Normal;
            SelectAction::Cancel { notify, message: cancelled.to_owned() }
        },
        Key::Down => {
            popup.move_down();
            SelectAction::Nothing
        },
        Key::Up => {
            popup.move_up();
            SelectAction::Nothing
        },
        Key::Char(c) => {
            if c == 'j' {
                popup.move_down();
            } else if c == 'k' {
                popup.move_up();
            }
            SelectAction::Nothing
        },
        _ => SelectAction::Nothing,
    }
}

// ---------- keys of every mode ----------

/// What a key that works in every mode does beyond the mode state.
#[derive(Clone, Copy, Debug, PartialEq, Eq, Structural)]
pub enum GlobalKey {
    /// The key is not one of them; the mode handles it.
    NotGlobal,
    /// The key was handled in the mode state.
    Handled,
    /// Switch to the next colour theme.
    ToggleTheme,
}

/// Keys that work in every mode, before the mode sees them: Ctrl+C quits,
/// Ctrl+H shows or hides the history, Ctrl+T switches the theme, Ctrl+?
/// shows or hides the help.
pub fn global_key(m: &mut ModeState, key: KeyPress) -> (r: GlobalKey)
    ensures
        match key.key {
            Key::Char(c) => if key.ctrl && c == 'c' {
                r == GlobalKey::Handled && *final(m) == (ModeState { should_quit: true, ..*old(m) })
            } else if key.ctrl && c == 'h' {
                r == GlobalKey::Handled && *final(m) == (ModeState { show_history: !old(m).show_history, ..*old(m) })
            } else if key.ctrl && c == 't' {
                r == GlobalKey::ToggleTheme && *final(m) == *old(m)
            } else if key.ctrl && c == '?' {
                r == GlobalKey::Handled && *final(m) == (ModeState { show_help: !old(m).show_help, ..*old(m) })
            } else {
                r == GlobalKey::NotGlobal && *final(m) == *old(m)
            },
            _ => r == GlobalKey::NotGlobal && *final(m) == *old(m),
        },
{
    match key.key {
        Key::Char(c) => {
            if key.ctrl && c == 'c' {
                m.should_quit = true;
                GlobalKey::Handled
            } else if key.ctrl && c == 'h' {
                m.show_history = !m.show_history;
                GlobalKey::Handled
            } else if key.ctrl && c == 't' {
                GlobalKey::ToggleTheme
            } else if key.ctrl && c == '?' {
                m.show_help = !m.show_help;
                GlobalKey::Handled
            } else {
                GlobalKey::NotGlobal
            }
        },
        _ => GlobalKey::NotGlobal,
    }
}

} // verus!
