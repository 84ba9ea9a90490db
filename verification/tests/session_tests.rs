use tact::agent::{AgentErrorKind, PlanStep, StepResult, StepStatus};
use tact::session::{
    ErrorEffect, Session, Status, Templates, branch_label, duration_suffix, finished_line,
    line_count_exec, update_prelude, workspace_label, UpdateKind,
};

fn templates() -> Templates {
    Templates {
        plan_generated: "Plan with {} steps".to_string(),
        plan_step: "  {}. {}".to_string(),
        step_started: "> {}".to_string(),
        step_success_prefix: "OK".to_string(),
        step_fail_prefix: "FAIL".to_string(),
        step_finished_simple: "{} #{} {}".to_string(),
        step_finished_args: "{} #{} {}({})".to_string(),
        step_bytes: " [{} B]".to_string(),
        step_ms: " {}ms".to_string(),
        step_sec: " {}s".to_string(),
        step_failed: "step {} failed: {}".to_string(),
        need_approval: "approve {}? {}".to_string(),
        error: "error: {}".to_string(),
        user_msg_prefix: "> {}".to_string(),
        user_msg_cont: "  {}".to_string(),
        approval_cancelled: "approval cancelled".to_string(),
    }
}

fn plan_step(desc: &str) -> PlanStep {
    PlanStep {
        description: desc.to_string(),
        tool: "read_file".to_string(),
        args: vec![],
        need_approval: false,
        output: None,
    }
}

fn result(tool: &str, summary: &str, detail: Option<&str>, ms: Option<u64>) -> StepResult {
    StepResult {
        tool: tool.to_string(),
        arg_summary: summary.to_string(),
        status: StepStatus::Success,
        message: "msg".to_string(),
        detail: detail.map(|d| d.to_string()),
        duration_ms: ms,
    }
}

#[test]
fn plan_generated_lists_steps() {
    let mut s = Session::new();
    let msgs = s.plan_generated(vec![plan_step("first"), plan_step("second")], &templates());
    assert_eq!(msgs, vec!["Plan with 2 steps", "  1. first", "  2. second"]);
    assert_eq!(s.plan.collapsed, vec![false, false]);
    assert_eq!(s.plan.selected, 0);
    assert!(matches!(s.status, Status::Executing { current_step: 0, total: 2 }));
}

#[test]
fn step_started_moves_current_step() {
    let mut s = Session::new();
    s.plan_generated(vec![plan_step("a"), plan_step("b")], &templates());
    assert_eq!(s.step_started(1, &templates()), Some("> b".to_string()));
    assert!(matches!(s.status, Status::Executing { current_step: 1, total: 2 }));
    assert_eq!(s.step_started(5, &templates()), None);
    let mut idle = Session::new();
    idle.step_started(0, &templates());
    assert!(matches!(idle.status, Status::Idle));
}

#[test]
fn finished_line_formats() {
    let t = templates();
    let r = result("write_file", "a.txt", Some("héllo"), Some(250));
    assert_eq!(finished_line(&t, 0, &r, "0.3"), "OK #1 write_file(a.txt) [6 B] 250ms");
    let r = result("run_command", "", Some("xx"), Some(1500));
    assert_eq!(finished_line(&t, 2, &r, "1.5"), "OK #3 run_command 1.5s");
    let mut r = result("read_file", "b", None, None);
    r.status = StepStatus::Failed;
    assert_eq!(finished_line(&t, 0, &r, ""), "FAIL #1 read_file(b)");
    assert_eq!(duration_suffix(&t, None, "x"), "");
    assert_eq!(duration_suffix(&t, Some(999), "x"), " 999ms");
    assert_eq!(duration_suffix(&t, Some(1000), "1.0"), " 1.0s");
}

#[test]
fn written_files_get_placeholder_blocks() {
    let mut s = Session::new();
    s.plan_generated(vec![plan_step("w")], &templates());
    let (line, n) = s.step_finished(0, result("write_file", "a.txt", Some("a\nb\n"), None), &templates(), "", 7);
    assert_eq!(line, "OK #1 write_file(a.txt) [4 B]");
    assert_eq!(n, 5);
    assert_eq!(s.diff_blocks.len(), 1);
    assert_eq!(s.diff_blocks[0].start_idx, 7);
    assert_eq!(s.diff_blocks[0].end_idx, 12);
    assert_eq!(s.diff_blocks[0].file_path, "a.txt");
    assert_eq!(s.plan.steps[0].output, Some("msg".to_string()));

    let long: String = (0..25).map(|i| format!("l{}\n", i)).collect();
    let (_, n) = s.step_finished(0, result("write_file", "b", Some(&long), None), &templates(), "", 0);
    assert_eq!(n, 2 + 20 + 1 + 1);
    let (_, n) = s.step_finished(0, result("read_file", "b", Some("zz"), None), &templates(), "", 0);
    assert_eq!(n, 0);
    assert_eq!(s.diff_blocks.len(), 2);
}

#[test]
fn line_counts_follow_str_lines() {
    for t in ["", "a", "a\n", "a\nb", "\n", "\n\n", "a\r\nb\r\n", "x\n\ny"] {
        assert_eq!(line_count_exec(t), t.lines().count(), "text {:?}", t);
    }
}

#[test]
fn failures_approvals_and_completion() {
    let t = templates();
    let mut s = Session::new();
    s.record_task("do it".to_string(), "10:00:00".to_string());
    assert_eq!(s.step_failed(1, "boom", &t), "step 2 failed: boom");
    assert!(matches!(s.status, Status::Idle));
    assert_eq!(s.need_approval("delete".to_string(), 3, &t), "approve delete? delete");
    assert!(matches!(&s.status, Status::WaitingForUser { prompt, step_index: 3 } if prompt == "delete"));
    assert_eq!(s.take_approval(), Some(3));
    assert!(matches!(s.status, Status::Idle));
    assert_eq!(s.take_approval(), None);
    s.task_complete("all good".to_string());
    assert!(matches!(s.status, Status::Done));
    assert_eq!(s.task_history[0].summary, "all good");
    assert_eq!(s.task_history[0].task, "do it");
}

#[test]
fn history_keeps_last_twenty() {
    let mut s = Session::new();
    for i in 0..21 {
        s.record_task(format!("task {}", i), String::new());
    }
    assert_eq!(s.task_history.len(), 20);
    assert_eq!(s.task_history[0].task, "task 1");
    assert_eq!(s.task_history[19].task, "task 20");
}

#[test]
fn submitting_refuses_pending_approval() {
    let t = templates();
    let mut s = Session::new();
    s.plan_generated(vec![plan_step("a")], &t);
    s.need_approval("p".to_string(), 0, &t);
    assert_eq!(s.submit_task("next".to_string(), "t".to_string(), &t), Some("approval cancelled".to_string()));
    assert!(matches!(s.status, Status::Planning));
    assert!(s.plan.steps.is_empty());
    assert_eq!(s.submit_task("again".to_string(), "t".to_string(), &t), None);
    s.retry_task("again".to_string(), "t".to_string());
    assert_eq!(s.task_history.len(), 3);
}

#[test]
fn agent_errors() {
    let t = templates();
    let mut s = Session::new();
    s.plan_generated(vec![plan_step("a")], &t);
    match s.agent_error(AgentErrorKind::BalanceNotSupported, &t) {
        ErrorEffect::Flash(m) => assert_eq!(m, "Balance query not supported for this model"),
        _ => panic!("expected a notice"),
    }
    match s.agent_error(AgentErrorKind::BalanceQueryFailed("timeout".to_string()), &t) {
        ErrorEffect::Flash(m) => assert_eq!(m, "Balance query failed: timeout"),
        _ => panic!("expected a notice"),
    }
    assert!(matches!(s.status, Status::Executing { .. }));
    match s.agent_error(AgentErrorKind::Other("bad".to_string()), &t) {
        ErrorEffect::Message(m) => assert_eq!(m, "error: bad"),
        _ => panic!("expected a log line"),
    }
    assert!(matches!(s.status, Status::Idle));
}

#[test]
fn steps_can_be_added() {
    let mut s = Session::new();
    s.plan_generated(vec![plan_step("a")], &templates());
    assert_eq!(s.step_added(plan_step("b")), "  2. b");
    assert_eq!(s.plan.steps.len(), 2);
    assert_eq!(s.plan.collapsed.len(), 2);
    assert!(matches!(s.status, Status::Executing { current_step: 1, total: 2 }));
}

#[test]
fn plan_selection_moves_within_the_plan() {
    let mut s = Session::new();
    s.plan_generated(vec![plan_step("a"), plan_step("b")], &templates());
    s.plan.select_prev();
    assert_eq!(s.plan.selected, 0);
    s.plan.select_next();
    s.plan.select_next();
    assert_eq!(s.plan.selected, 1);
    s.plan.clear();
    assert_eq!(s.plan.selected, 0);
    s.plan.select_next();
    assert_eq!(s.plan.selected, 0);
}

#[test]
fn diff_popup_opens_and_scrolls() {
    let mut s = Session::new();
    s.plan_generated(vec![plan_step("w")], &templates());
    s.step_finished(0, result("write_file", "f.rs", Some("fn x() {}"), None), &templates(), "", 3);
    s.open_diff_popup(4);
    assert!(s.diff_popup.is_none());
    s.open_diff_popup(3);
    let p = s.diff_popup.as_ref().unwrap();
    assert_eq!(p.file_path, "f.rs");
    assert_eq!(p.content, "fn x() {}");
    s.diff_popup_scroll_up();
    assert_eq!(s.diff_popup.as_ref().unwrap().scroll, 0);
    s.diff_popup_scroll_down();
    s.diff_popup_scroll_down();
    s.diff_popup_scroll_up();
    assert_eq!(s.diff_popup.as_ref().unwrap().scroll, 1);
    s.close_diff_popup();
    assert!(s.diff_popup.is_none());
}

#[test]
fn status_bar_labels() {
    assert_eq!(workspace_label(Some("/home/u/p".to_string()), Some("/home/u".to_string())), "~/p");
    assert_eq!(workspace_label(Some("/srv/p".to_string()), Some("/home/u".to_string())), "/srv/p");
    assert_eq!(workspace_label(Some("/srv/p".to_string()), None), "/srv/p");
    assert_eq!(workspace_label(None, Some("/home/u".to_string())), "?");
    assert_eq!(branch_label(Some(" main\n".to_string())), "main");
    assert_eq!(branch_label(None), "unknown");
}

#[test]
fn updates_close_reasoning_and_flush_output_first() {
    let p = update_prelude(UpdateKind::ThinkingChunk);
    assert!(!p.close_thinking && !p.flush_stream);
    let p = update_prelude(UpdateKind::StreamChunk);
    assert!(p.close_thinking && !p.flush_stream);
    for k in [
        UpdateKind::PlanGenerated,
        UpdateKind::StepStarted,
        UpdateKind::StepFinished,
        UpdateKind::StepFailed,
        UpdateKind::NeedApproval,
        UpdateKind::TaskComplete,
        UpdateKind::FatalError,
        UpdateKind::StepAdded,
    ] {
        let p = update_prelude(k);
        assert!(p.close_thinking && p.flush_stream);
    }
    for k in [
        UpdateKind::BalanceError,
        UpdateKind::TokenUsage,
        UpdateKind::Balance,
        UpdateKind::ModelInfo,
        UpdateKind::Info,
        UpdateKind::RequestSelect,
    ] {
        let p = update_prelude(k);
        assert!(p.close_thinking && !p.flush_stream);
    }
}
