use tact::agent::{
    AgentErrorKind, PlanStep, StepStatus, ToolCall, arg_summary, clean_plan_response, plan_tool_call,
    success_result,
};

fn step(tool: &str, args: &[(&str, &str)]) -> PlanStep {
    PlanStep {
        description: "desc".to_string(),
        tool: tool.to_string(),
        args: args.iter().map(|(k, v)| (k.to_string(), v.to_string())).collect(),
        need_approval: false,
        output: None,
    }
}

#[test]
fn display_balance_not_supported() {
    assert_eq!(
        AgentErrorKind::BalanceNotSupported.display(),
        "Balance query is only available for DeepSeek provider"
    );
    assert_eq!(AgentErrorKind::Other("boom".to_string()).display(), "boom");
    assert_eq!(AgentErrorKind::BalanceQueryFailed("net".to_string()).display(), "net");
}

#[test]
fn clean_plan_strips_fences() {
    assert_eq!(clean_plan_response("  ```json\n[1]\n```  "), "[1]");
    assert_eq!(clean_plan_response("```\n[]\n```"), "[]");
    assert_eq!(clean_plan_response("[]"), "[]");
}

#[test]
fn run_command_parses_args() {
    let s = step("run_command", &[("command", "git"), ("args", "[\"status\", \"-s\"]")]);
    match plan_tool_call(&s) {
        Ok(ToolCall::RunCommand { command, args }) => {
            assert_eq!(command, "git");
            assert_eq!(args, vec!["status".to_string(), "-s".to_string()]);
        }
        _ => panic!("expected a command"),
    }
    let bad = step("run_command", &[("command", "git"), ("args", "not json")]);
    let parse_error = serde_json::from_str::<Vec<&str>>("not json").unwrap_err().to_string();
    assert_eq!(plan_tool_call(&bad).err(), Some(parse_error));
    let not_strings = step("run_command", &[("command", "ls"), ("args", "[1]")]);
    let type_error = serde_json::from_str::<Vec<&str>>("[1]").unwrap_err().to_string();
    assert_eq!(plan_tool_call(&not_strings).err(), Some(type_error));
    let missing = step("write_file", &[("path", "a.txt")]);
    assert_eq!(plan_tool_call(&missing).err(), Some("Missing content".to_string()));
    let unknown = step("fly", &[]);
    assert_eq!(plan_tool_call(&unknown).err(), Some("Unknown tool: fly".to_string()));
}

#[test]
fn success_result_summarises() {
    let s = step("write_file", &[("path", "a.txt"), ("content", "hello")]);
    assert_eq!(arg_summary(&s), "a.txt");
    let long: String = std::iter::repeat('x').take(250).collect();
    let r = success_result(&s, long.clone());
    assert_eq!(r.status, StepStatus::Success);
    assert_eq!(r.message.chars().count(), 200);
    assert_eq!(r.detail, Some("hello".to_string()));
    assert_eq!(r.tool, "write_file");
}

use tact::agent::{
    ApprovalReply, CommandReply, Notice, RunnerEvent, RunnerPhase, TaskRunner, ToolOutcome,
    UserCommand, Work, api_response_result, call_output, command_reply, plan_model_params,
    plan_prompt,
};

fn approval_step(desc: &str, path: &str) -> PlanStep {
    PlanStep {
        description: desc.to_string(),
        tool: "read_file".to_string(),
        args: vec![("path".to_string(), path.to_string())],
        need_approval: true,
        output: None,
    }
}

#[test]
fn runner_cancelled_before_execution() {
    let (runner, d) = TaskRunner::begin(vec![step("read_file", &[("path", "a")])], true);
    assert!(matches!(runner.phase, RunnerPhase::Done));
    assert_eq!(d.notices.len(), 1);
    match &d.notices[0] {
        Notice::StepFailed(0, m) => assert_eq!(m, "Cancelled by user before execution"),
        _ => panic!("expected a failure"),
    }
    assert!(matches!(d.work, Work::Finish(Ok(()))));
}

#[test]
fn runner_runs_steps_in_order_and_completes() {
    let plan = vec![
        step("read_file", &[("path", "a.txt")]),
        step("write_file", &[("path", "b.txt"), ("content", "xy")]),
    ];
    let (mut runner, d) = TaskRunner::begin(plan, false);
    assert!(matches!(d.notices[0], Notice::PlanReady));
    assert!(matches!(d.work, Work::Continue));

    let d = runner.advance(RunnerEvent::Tick { cancelled: false });
    assert!(matches!(d.notices[0], Notice::StepStarted(0)));
    match d.work {
        Work::Execute(ToolCall::ReadFile { path }) => assert_eq!(path, "a.txt"),
        _ => panic!("expected a read"),
    }
    let d = runner.advance(RunnerEvent::Executed(ToolOutcome::Read { bytes: 12 }));
    match &d.notices[0] {
        Notice::StepFinished(0, r) => {
            assert_eq!(r.message, "Read 12 bytes");
            assert_eq!(r.arg_summary, "a.txt");
            assert_eq!(r.detail, None);
        }
        _ => panic!("expected a finished step"),
    }
    assert!(matches!(d.work, Work::Wait(200)));
    assert!(matches!(runner.phase, RunnerPhase::Ready(1)));

    let d = runner.advance(RunnerEvent::Tick { cancelled: false });
    match d.work {
        Work::Execute(ToolCall::WriteFile { path, content }) => {
            assert_eq!(path, "b.txt");
            assert_eq!(content, "xy");
        }
        _ => panic!("expected a write"),
    }
    let d = runner.advance(RunnerEvent::Executed(ToolOutcome::Written));
    match &d.notices[0] {
        Notice::StepFinished(1, r) => {
            assert_eq!(r.message, "Written to b.txt");
            assert_eq!(r.detail, Some("xy".to_string()));
        }
        _ => panic!("expected a finished step"),
    }
    let d = runner.advance(RunnerEvent::Tick { cancelled: false });
    match &d.notices[0] {
        Notice::TaskComplete(m) => assert_eq!(m, "All steps completed successfully!"),
        _ => panic!("expected completion"),
    }
    assert!(matches!(d.work, Work::Finish(Ok(()))));
    assert!(matches!(runner.phase, RunnerPhase::Done));
    // Once done, further events change nothing.
    let d = runner.advance(RunnerEvent::Tick { cancelled: false });
    assert!(d.notices.is_empty());
    assert!(matches!(runner.phase, RunnerPhase::Done));
}

#[test]
fn runner_waits_for_approval() {
    let (mut runner, _) = TaskRunner::begin(vec![approval_step("look", "a")], false);
    let d = runner.advance(RunnerEvent::Tick { cancelled: false });
    assert_eq!(d.notices.len(), 2);
    match &d.notices[1] {
        Notice::NeedApproval(desc, 0) => assert_eq!(desc, "look"),
        _ => panic!("expected an approval request"),
    }
    assert!(matches!(runner.phase, RunnerPhase::Approving(0)));
    let d = runner.advance(RunnerEvent::ApprovalPoll { cancelled: false, reply: ApprovalReply::Pending });
    assert!(matches!(d.work, Work::Wait(100)));
    // A tool outcome while waiting is ignored.
    let d = runner.advance(RunnerEvent::Executed(ToolOutcome::Written));
    assert!(d.notices.is_empty());
    assert!(matches!(runner.phase, RunnerPhase::Approving(0)));
    let d = runner.advance(RunnerEvent::ApprovalPoll { cancelled: false, reply: ApprovalReply::Answer(true) });
    assert!(matches!(d.work, Work::Execute(ToolCall::ReadFile { .. })));
}

#[test]
fn runner_rejected_closed_and_cancelled() {
    let (mut r1, _) = TaskRunner::begin(vec![approval_step("a", "x")], false);
    r1.advance(RunnerEvent::Tick { cancelled: false });
    let d = r1.advance(RunnerEvent::ApprovalPoll { cancelled: false, reply: ApprovalReply::Answer(false) });
    match &d.notices[0] {
        Notice::StepFailed(0, m) => assert_eq!(m, "Rejected by user"),
        _ => panic!("expected a refusal"),
    }
    assert!(matches!(d.work, Work::Finish(Ok(()))));

    let (mut r2, _) = TaskRunner::begin(vec![approval_step("a", "x")], false);
    r2.advance(RunnerEvent::Tick { cancelled: false });
    let d = r2.advance(RunnerEvent::ApprovalPoll { cancelled: false, reply: ApprovalReply::Closed });
    match d.work {
        Work::Finish(Err(e)) => assert_eq!(e, "User approval cancelled"),
        _ => panic!("expected an error"),
    }

    let (mut r3, _) = TaskRunner::begin(vec![approval_step("a", "x")], false);
    r3.advance(RunnerEvent::Tick { cancelled: false });
    let d = r3.advance(RunnerEvent::ApprovalPoll { cancelled: true, reply: ApprovalReply::Answer(true) });
    match &d.notices[0] {
        Notice::StepFailed(0, m) => assert_eq!(m, "Cancelled by user during approval"),
        _ => panic!("expected a cancellation"),
    }

    let (mut r4, _) = TaskRunner::begin(vec![step("read_file", &[("path", "a")])], false);
    let d = r4.advance(RunnerEvent::Tick { cancelled: true });
    match &d.notices[0] {
        Notice::StepFailed(0, m) => assert_eq!(m, "Cancelled by user"),
        _ => panic!("expected a cancellation"),
    }
}

#[test]
fn runner_reports_tool_failures() {
    let (mut r, _) = TaskRunner::begin(vec![step("read_file", &[])], false);
    let d = r.advance(RunnerEvent::Tick { cancelled: false });
    assert_eq!(d.notices.len(), 2);
    match &d.notices[1] {
        Notice::StepFailed(0, m) => assert_eq!(m, "Missing path"),
        _ => panic!("expected a failure"),
    }
    let (mut r, _) = TaskRunner::begin(vec![step("run_command", &[("command", "ls")])], false);
    let d = r.advance(RunnerEvent::Tick { cancelled: false });
    match d.work {
        Work::Execute(ToolCall::RunCommand { command, args }) => {
            assert_eq!(command, "ls");
            assert!(args.is_empty());
        }
        _ => panic!("expected a command"),
    }
    let d = r.advance(RunnerEvent::Executed(ToolOutcome::Failed("Command failed: no".to_string())));
    match &d.notices[0] {
        Notice::StepFailed(0, m) => assert_eq!(m, "Command failed: no"),
        _ => panic!("expected a failure"),
    }
}

#[test]
fn command_output_texts() {
    let call = ToolCall::RunCommand { command: "ls".to_string(), args: vec![] };
    assert_eq!(
        call_output(&call, &ToolOutcome::CommandOutput("x".to_string())),
        Some("Command output:\nx".to_string())
    );
    assert_eq!(call_output(&call, &ToolOutcome::Written), None);
    let s = step("run_command", &[("command", "ls")]);
    let r = success_result(&s, "Command output:\nx".to_string());
    assert_eq!(r.detail, Some("Command output:\nx".to_string()));
    assert_eq!(r.arg_summary, "ls");
    let other = step("custom", &[("k", "v")]);
    assert_eq!(arg_summary(&other), "v");
    assert_eq!(arg_summary(&step("custom", &[])), "");
}

#[test]
fn plan_request_parts() {
    let p = plan_prompt("list files");
    assert!(p.starts_with("You must output ONLY a valid JSON array of steps."));
    assert!(p.ends_with("\n\nTask: list files"));
    let m = plan_model_params();
    assert_eq!(m.model, "gpt-3.5-turbo");
    assert_eq!(m.max_tokens, 0);
    let r = api_response_result();
    assert_eq!(r.tool, "generate_plan");
    assert_eq!(r.message, "API response received");
}

#[test]
fn commands_are_answered() {
    assert!(matches!(command_reply(UserCommand::SubmitTask("t".to_string())), CommandReply::RunTask(t) if t == "t"));
    assert!(matches!(command_reply(UserCommand::Cancel), CommandReply::CancelTask(m) if m == "Cancelling current task..."));
    assert!(matches!(
        command_reply(UserCommand::QueryBalance),
        CommandReply::Report(AgentErrorKind::BalanceNotSupported)
    ));
}

#[test]
fn plan_step_arg_lookup() {
    let s = step("x", &[("a", "1"), ("b", "2")]);
    assert_eq!(s.arg("b"), Some("2".to_string()));
    assert_eq!(s.arg("c"), None);
    assert_eq!(s.first_arg_value(), Some("1".to_string()));
}

#[test]
fn step_arguments_form_a_map() {
    let pairs = vec![
        ("path".to_string(), "a.txt".to_string()),
        ("content".to_string(), "x".to_string()),
        ("path".to_string(), "b.txt".to_string()),
    ];
    let s = PlanStep::new("write".to_string(), "write_file".to_string(), pairs, false, None);
    assert_eq!(s.args.len(), 2);
    assert_eq!(s.arg("path"), Some("b.txt".to_string()));
    assert_eq!(s.arg("content"), Some("x".to_string()));
    assert_eq!(s.arg("other"), None);
}
