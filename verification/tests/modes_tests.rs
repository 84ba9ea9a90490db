use tact::agent::PlanStep;
use tact::keys::{Key, KeyPress};
use tact::log_view::{SearchState, ThinkingBlock};
use tact::modes::{
    FocusedPanel, GlobalKey, InputMode, ModeState, NormalAction, PaletteAction, SelectAction, SelectPopup,
    delete_last_word, execute_palette_command, filtered_commands, log_copy_text, normal_key,
    global_key, palette_command, palette_key, plan_copy_text, search_key, select_key,
};
use tact::session::{Session, Status, Templates};

fn mode() -> ModeState {
    ModeState {
        input_mode: InputMode::Normal,
        focused_panel: FocusedPanel::Log,
        log_offset: 5,
        log_height: 10,
        cmd_line: String::new(),
        palette_selected: 0,
        should_quit: false,
        show_help: false,
        show_history: false,
        plan_selection: None,
        log_selection: None,
        log_word_selection: None,
    }
}

fn step(desc: &str) -> PlanStep {
    PlanStep {
        description: desc.to_string(),
        tool: "read_file".to_string(),
        args: vec![],
        need_approval: false,
        output: None,
    }
}

fn templates() -> Templates {
    Templates {
        plan_generated: "{}".to_string(),
        plan_step: "{} {}".to_string(),
        step_started: "{}".to_string(),
        step_success_prefix: "+".to_string(),
        step_fail_prefix: "-".to_string(),
        step_finished_simple: "{}{}{}".to_string(),
        step_finished_args: "{}{}{}{}".to_string(),
        step_bytes: "{}".to_string(),
        step_ms: "{}".to_string(),
        step_sec: "{}".to_string(),
        step_failed: "{} {}".to_string(),
        need_approval: "{}".to_string(),
        error: "{}".to_string(),
        user_msg_prefix: "{}".to_string(),
        user_msg_cont: "{}".to_string(),
        approval_cancelled: "x".to_string(),
    }
}

fn raw(lines: &[&str]) -> Vec<String> {
    lines.iter().map(|s| s.to_string()).collect()
}

fn press(c: char) -> KeyPress {
    KeyPress::plain(Key::Char(c))
}

#[test]
fn normal_mode_panels_and_scrolling() {
    let mut m = mode();
    let mut s = Session::new();
    let mut q = SearchState::new();
    let r = raw(&["a"]);
    let b: Vec<ThinkingBlock> = vec![];
    let empty = String::new();
    normal_key(&mut m, &mut s, &mut q, &r, &b, &empty, press('j'));
    assert_eq!(m.log_offset, 6);
    normal_key(&mut m, &mut s, &mut q, &r, &b, &empty, press('k'));
    normal_key(&mut m, &mut s, &mut q, &r, &b, &empty, press('k'));
    assert_eq!(m.log_offset, 4);
    normal_key(&mut m, &mut s, &mut q, &r, &b, &empty, press('G'));
    assert_eq!(m.log_offset, u16::MAX);
    normal_key(&mut m, &mut s, &mut q, &r, &b, &empty, press('j'));
    assert_eq!(m.log_offset, u16::MAX);
    normal_key(&mut m, &mut s, &mut q, &r, &b, &empty, press('g'));
    assert_eq!(m.log_offset, 0);
    normal_key(&mut m, &mut s, &mut q, &r, &b, &empty, KeyPress::plain(Key::Tab));
    assert_eq!(m.focused_panel, FocusedPanel::Plan);
    s.plan_generated(vec![step("a"), step("b")], &templates());
    normal_key(&mut m, &mut s, &mut q, &r, &b, &empty, press('j'));
    normal_key(&mut m, &mut s, &mut q, &r, &b, &empty, press('j'));
    assert_eq!(s.plan.selected, 1);
    normal_key(&mut m, &mut s, &mut q, &r, &b, &empty, press('e'));
    assert!(!s.plan.visible);
    assert_eq!(m.focused_panel, FocusedPanel::Log);
    normal_key(&mut m, &mut s, &mut q, &r, &b, &empty, press(':'));
    assert_eq!(m.input_mode, InputMode::Palette);
    normal_key(&mut m, &mut s, &mut q, &r, &b, &empty, press('/'));
    assert_eq!(m.input_mode, InputMode::Search);
    normal_key(&mut m, &mut s, &mut q, &r, &b, &empty, KeyPress::plain(Key::Enter));
    assert_eq!(m.input_mode, InputMode::Insert);
    let a = normal_key(&mut m, &mut s, &mut q, &r, &b, &empty, press('q'));
    assert!(matches!(a, NormalAction::Nothing));
    assert!(m.should_quit);
}

#[test]
fn normal_mode_approvals() {
    let mut m = mode();
    let mut s = Session::new();
    let mut q = SearchState::new();
    let r = raw(&[]);
    let b: Vec<ThinkingBlock> = vec![];
    let empty = String::new();
    s.need_approval("x".to_string(), 0, &templates());
    assert!(matches!(normal_key(&mut m, &mut s, &mut q, &r, &b, &empty, press('y')), NormalAction::Approve));
    assert!(matches!(s.status, Status::Idle));
    s.need_approval("x".to_string(), 0, &templates());
    assert!(matches!(normal_key(&mut m, &mut s, &mut q, &r, &b, &empty, press('n')), NormalAction::Reject));
    assert!(matches!(normal_key(&mut m, &mut s, &mut q, &r, &b, &empty, press('c')), NormalAction::Nothing));
    s.status = Status::Planning;
    assert!(matches!(normal_key(&mut m, &mut s, &mut q, &r, &b, &empty, press('c')), NormalAction::CancelTask));
}

#[test]
fn normal_mode_copying() {
    let mut m = mode();
    let mut s = Session::new();
    let mut q = SearchState::new();
    let r = raw(&["one", "```rust", "let x = 1;", "```", "last"]);
    let b: Vec<ThinkingBlock> = vec![];
    let empty = String::new();
    match normal_key(&mut m, &mut s, &mut q, &r, &b, &empty, press('y')) {
        NormalAction::Copy(t) => assert_eq!(t, "last"),
        _ => panic!("expected a copy"),
    }
    let streaming = "partial".to_string();
    match normal_key(&mut m, &mut s, &mut q, &r, &b, &streaming, press('y')) {
        NormalAction::Copy(t) => assert_eq!(t, "partial"),
        _ => panic!("expected a copy"),
    }
    m.log_selection = Some((2, 0));
    match normal_key(&mut m, &mut s, &mut q, &r, &b, &empty, press('y')) {
        NormalAction::Copy(t) => assert_eq!(t, "one\n```rust\nlet x = 1;"),
        _ => panic!("expected a copy"),
    }
    m.log_selection = Some((2, 2));
    m.log_word_selection = Some((4, 5));
    match normal_key(&mut m, &mut s, &mut q, &r, &b, &empty, press('y')) {
        NormalAction::Copy(t) => assert_eq!(t, "x"),
        _ => panic!("expected a copy"),
    }
    match normal_key(&mut m, &mut s, &mut q, &r, &b, &empty, press('Y')) {
        NormalAction::Copy(t) => assert_eq!(t, "let x = 1;"),
        _ => panic!("expected a copy"),
    }
    normal_key(&mut m, &mut s, &mut q, &r, &b, &empty, KeyPress::plain(Key::Esc));
    assert!(m.log_selection.is_none());
    assert!(m.plan_selection.is_none());
}

#[test]
fn copy_texts() {
    let steps = vec![step("a"), step("b"), step("c")];
    assert_eq!(plan_copy_text(&steps, Some((2, 1)), 0), Some("b\nc".to_string()));
    assert_eq!(plan_copy_text(&steps, Some((1, 9)), 0), Some("b\nc".to_string()));
    assert_eq!(plan_copy_text(&steps, Some((5, 9)), 0), None);
    assert_eq!(plan_copy_text(&steps, None, 2), Some("c".to_string()));
    assert_eq!(plan_copy_text(&steps, None, 3), None);
    let r = raw(&["x"]);
    let b: Vec<ThinkingBlock> = vec![];
    assert_eq!(log_copy_text(&r, &b, Some((3, 4)), None, &String::new()), None);
    assert_eq!(log_copy_text(&raw(&[]), &b, None, None, &String::new()), None);
}

#[test]
fn search_mode_edits_and_searches() {
    let mut m = mode();
    m.input_mode = InputMode::Search;
    let mut q = SearchState::new();
    let r = raw(&["alpha", "beta", "Alphabet"]);
    let b: Vec<ThinkingBlock> = vec![];
    let empty = String::new();
    for c in "xy alp".chars() {
        search_key(&mut m, &mut q, &r, &b, &empty, press(c));
    }
    assert_eq!(m.cmd_line, "xy alp");
    search_key(&mut m, &mut q, &r, &b, &empty, KeyPress::ctrl(Key::Char('w')));
    assert_eq!(m.cmd_line, "xy ");
    search_key(&mut m, &mut q, &r, &b, &empty, KeyPress::plain(Key::Backspace));
    search_key(&mut m, &mut q, &r, &b, &empty, KeyPress::ctrl(Key::Char('u')));
    assert_eq!(m.cmd_line, "");
    for c in "alpha".chars() {
        search_key(&mut m, &mut q, &r, &b, &empty, press(c));
    }
    search_key(&mut m, &mut q, &r, &b, &empty, KeyPress::plain(Key::Enter));
    assert_eq!(q.term, "alpha");
    assert_eq!(q.matches, vec![0, 2]);
    assert_eq!(m.cmd_line, "");
    assert_eq!(m.input_mode, InputMode::Normal);
    assert_eq!(delete_last_word(&"foo.bar".to_string()), "foo.");
}

#[test]
fn palette_filters_commands() {
    assert_eq!(filtered_commands(""), (0..9).collect::<Vec<usize>>());
    assert_eq!(filtered_commands("QUIT"), vec![3]);
    assert_eq!(filtered_commands("中文"), vec![8]);
    assert_eq!(filtered_commands("toggle"), vec![0, 8]);
    assert_eq!(filtered_commands("zzz"), Vec::<usize>::new());
    assert_eq!(palette_command(7), ("balance", "Query account balance (DeepSeek)"));
}

#[test]
fn palette_keys_run_commands() {
    let mut m = mode();
    m.input_mode = InputMode::Palette;
    for c in "toggle".chars() {
        palette_key(&mut m, &Status::Idle, press(c));
    }
    palette_key(&mut m, &Status::Idle, KeyPress::plain(Key::Down));
    palette_key(&mut m, &Status::Idle, KeyPress::plain(Key::Down));
    assert_eq!(m.palette_selected, 2);
    let a = palette_key(&mut m, &Status::Idle, KeyPress::plain(Key::Enter));
    assert_eq!(a, PaletteAction::ToggleLanguage);
    assert_eq!(m.cmd_line, "");
    assert_eq!(m.input_mode, InputMode::Normal);

    let mut m = mode();
    for c in "help".chars() {
        palette_key(&mut m, &Status::Idle, press(c));
    }
    assert_eq!(m.palette_selected, 0);
    m.show_history = true;
    assert_eq!(palette_key(&mut m, &Status::Idle, KeyPress::plain(Key::Enter)), PaletteAction::Nothing);
    assert!(m.show_help && !m.show_history);

    let mut m = mode();
    m.cmd_line = "zzz".to_string();
    assert_eq!(palette_key(&mut m, &Status::Idle, KeyPress::plain(Key::Enter)), PaletteAction::Nothing);
    assert_eq!(m.cmd_line, "zzz");
    palette_key(&mut m, &Status::Idle, KeyPress::plain(Key::Esc));
    assert_eq!(m.input_mode, InputMode::Normal);
}

#[test]
fn palette_commands_effects() {
    let mut m = mode();
    assert_eq!(execute_palette_command(&mut m, &Status::Idle, "cancel"), PaletteAction::Nothing);
    assert_eq!(execute_palette_command(&mut m, &Status::Planning, "cancel"), PaletteAction::CancelTask);
    assert_eq!(execute_palette_command(&mut m, &Status::Idle, "party"), PaletteAction::TogglePartyMode);
    assert_eq!(execute_palette_command(&mut m, &Status::Idle, "save"), PaletteAction::SaveLog);
    assert_eq!(execute_palette_command(&mut m, &Status::Idle, "balance"), PaletteAction::QueryBalance);
    assert_eq!(execute_palette_command(&mut m, &Status::Idle, "theme"), PaletteAction::ToggleTheme);
    execute_palette_command(&mut m, &Status::Idle, "history");
    assert!(m.show_history);
    execute_palette_command(&mut m, &Status::Idle, "search");
    assert_eq!(m.input_mode, InputMode::Search);
    execute_palette_command(&mut m, &Status::Idle, "quit");
    assert!(m.should_quit);
    assert_eq!(execute_palette_command(&mut m, &Status::Idle, "nope"), PaletteAction::Nothing);
}

#[test]
fn selection_popup() {
    let mut m = mode();
    m.input_mode = InputMode::Select;
    let mut p = SelectPopup::new();
    match select_key(&mut m, &mut p, KeyPress::plain(Key::Enter), "none", "picked {}", "gone") {
        SelectAction::Message(t) => assert_eq!(t, "none"),
        _ => panic!("expected a message"),
    }
    p.set("pick".to_string(), vec!["a".to_string(), "b".to_string()]);
    select_key(&mut m, &mut p, press('j'), "none", "picked {}", "gone");
    select_key(&mut m, &mut p, KeyPress::plain(Key::Down), "none", "picked {}", "gone");
    assert_eq!(p.selected, 1);
    match select_key(&mut m, &mut p, KeyPress::plain(Key::Enter), "none", "picked {}", "gone") {
        SelectAction::Answer { index, notify, message } => {
            assert_eq!(index, 1);
            assert!(notify);
            assert_eq!(message, "picked b");
        }
        _ => panic!("expected an answer"),
    }
    assert!(!p.pending);
    select_key(&mut m, &mut p, press('k'), "none", "picked {}", "gone");
    assert_eq!(p.selected, 0);
    match select_key(&mut m, &mut p, KeyPress::plain(Key::Esc), "none", "picked {}", "gone") {
        SelectAction::Cancel { notify, message } => {
            assert!(!notify);
            assert_eq!(message, "gone");
        }
        _ => panic!("expected a cancel"),
    }
    assert_eq!(m.input_mode, InputMode::Normal);
}

#[test]
fn global_keys_before_modes() {
    let ctrl = |c: char| KeyPress { key: Key::Char(c), shift: false, ctrl: true, alt: false };
    let mut m = mode();
    m.input_mode = InputMode::Insert;
    assert_eq!(global_key(&mut m, ctrl('h')), GlobalKey::Handled);
    assert!(m.show_history);
    assert_eq!(global_key(&mut m, ctrl('h')), GlobalKey::Handled);
    assert!(!m.show_history);
    assert_eq!(global_key(&mut m, ctrl('?')), GlobalKey::Handled);
    assert!(m.show_help);
    assert_eq!(global_key(&mut m, ctrl('t')), GlobalKey::ToggleTheme);
    assert!(!m.should_quit);
    let plain = KeyPress { key: Key::Char('c'), shift: false, ctrl: false, alt: false };
    assert_eq!(global_key(&mut m, plain), GlobalKey::NotGlobal);
    assert!(!m.should_quit);
    let enter = KeyPress { key: Key::Enter, shift: false, ctrl: true, alt: false };
    assert_eq!(global_key(&mut m, enter), GlobalKey::NotGlobal);
    assert_eq!(global_key(&mut m, ctrl('c')), GlobalKey::Handled);
    assert!(m.should_quit);
    assert_eq!(m.input_mode, InputMode::Insert);
}
