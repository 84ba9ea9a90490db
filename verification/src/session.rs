//! The interface's view of a task: the plan panel, the execution status,
//! the task history and the file-write blocks of the log, and how each
//! update from the agent changes them and which log messages it produces.
//!
//! Message texts come from a catalog of templates, in which each `{}` is a
//! slot: a slot filled "in turn" takes the first remaining `{}`, a slot
//! filled "everywhere" takes all of them.
use vstd::prelude::*;
use vstd::string::StringExecFns;
use crate::agent::{AgentErrorKind, PlanStep, StepResult, StepStatus, opt_view};
use crate::strutil::{
    chars_start_with, decimal, decimal_string, replace_all, replace_all_str, replace_first,
    replace_first_str, slice_chars, starts_with, str_eq, trim, trim_str,
};
use crate::text::{byte_len, collect_chars, str_byte_len, string_from_chars};

verus! {

/// The message templates of the interface's current language.
pub struct Templates {
    /// `{}`: the number of steps.
    pub plan_generated: String,
    /// In turn: the step's number, its description.
    pub plan_step: String,
    /// `{}`: the step's description.
    pub step_started: String,
    pub step_success_prefix: String,
    pub step_fail_prefix: String,
    /// In turn: the status prefix, the step's number, the tool.
    pub step_finished_simple: String,
    /// In turn: the status prefix, the step's number, the tool, its argument summary.
    pub step_finished_args: String,
    /// `{}`: a byte count.
    pub step_bytes: String,
    /// `{}`: milliseconds.
    pub step_ms: String,
    /// `{}`: seconds with one decimal.
    pub step_sec: String,
    /// In turn: the step's number, the error.
    pub step_failed: String,
    /// `{}`: the step's description.
    pub need_approval: String,
    /// `{}`: the error's text.
    pub error: String,
    /// `{}`: the first line of a user message.
    pub user_msg_prefix: String,
    /// `{}`: a further line of a user message.
    pub user_msg_cont: String,
    pub approval_cancelled: String,
}

/// Where the agent stands, as the interface shows it.
pub enum Status {
    Idle,
    Planning,
    Executing { current_step: usize, total: usize },
    WaitingForUser { prompt: String, step_index: usize },
    Done,
}

/// The plan panel: the steps, which are collapsed, the selected one, and
/// whether the panel is shown.
pub struct PlanPanel {
    pub steps: Vec<PlanStep>,
    pub collapsed: Vec<bool>,
    pub selected: usize,
    pub visible: bool,
}

/// A task of the history: its text, when it was given, and its summary.
#[derive(Clone)]
pub struct HistoryEntry {
    pub task: String,
    pub timestamp: String,
    pub summary: String,
}

/// The log lines `start_idx..end_idx` that stand for a written file.
#[derive(Clone, Debug)]
pub struct DiffBlock {
    pub start_idx: usize,
    pub end_idx: usize,
    pub file_path: String,
    pub content: String,
}

/// The popup that shows a written file.
#[derive(Clone, Debug)]
pub struct DiffPopup {
    pub block_idx: usize,
    pub file_path: String,
    pub content: String,
    pub scroll: u16,
}

/// The task-side state of the interface.
pub struct Session {
    pub plan: PlanPanel,
    pub status: Status,
    pub task_history: Vec<HistoryEntry>,
    pub diff_blocks: Vec<DiffBlock>,
    pub diff_popup: Option<DiffPopup>,
}

/// Number of tasks the history keeps.
pub const HISTORY_CAP: usize = 20;

/// Number of lines of a written file previewed in the log.
pub const DIFF_PREVIEW_LINES: usize = 20;

// ---------- templates ----------

pub open spec fn slot() -> Seq<char> {
    "{}"@
}

/// `t` with every slot filled with `a`.
pub open spec fn fill(t: Seq<char>, a: Seq<char>) -> Seq<char> {
    replace_all(t, slot(), a)
}

/// `t` with its first slot filled with `a`.
pub open spec fn fill_next(t: Seq<char>, a: Seq<char>) -> Seq<char> {
    replace_first(t, slot(), a)
}

fn fill_exec(t: &String, a: &str) -> (r: String)
    ensures
        r@ == fill(t@, a@),
{
    replace_all_str(t.as_str(), "{}", a)
}

fn fill_next_exec(t: &str, a: &str) -> (r: String)
    ensures
        r@ == fill_next(t@, a@),
{
    replace_first_str(t, "{}", a)
}

// ---------- specifications ----------

pub open spec fn step_number(idx: int) -> Seq<char> {
    decimal((idx + 1) as nat)
}

/// The log lines announcing a plan of `descs.len()` steps: the count, then
/// one line per step with its number and description.
pub open spec fn plan_messages(t: Templates, descs: Seq<Seq<char>>) -> Seq<Seq<char>> {
    seq![fill(t.plan_generated@, decimal(descs.len()))] + Seq::new(
        descs.len(),
        |i: int| fill_next(fill_next(t.plan_step@, step_number(i)), descs[i]),
    )
}

pub open spec fn descriptions(steps: Seq<PlanStep>) -> Seq<Seq<char>> {
    steps.map_values(|s: PlanStep| s.description@)
}

/// Number of lines of `s`, as `str::lines` counts them: a final line
/// counts whether or not it ends with a line break, an empty string has none.
pub open spec fn line_count(s: Seq<char>) -> nat
    decreases s.len(),
{
    if s.len() == 0 {
        0
    } else if s.len() == 1 {
        1
    } else {
        line_count(s.drop_last()) + if s[s.len() - 2] == '\n' { 1nat } else { 0nat }
    }
}

/// Number of log lines that stand for a written file: a title, the preview
/// of at most twenty lines, a note when there are more, a border and a
/// separating blank line.
pub open spec fn diff_placeholders(content: Seq<char>) -> nat {
    let n = line_count(content);
    let shown: nat = if n < DIFF_PREVIEW_LINES { n } else { DIFF_PREVIEW_LINES as nat };
    let more: nat = if n > DIFF_PREVIEW_LINES { 1 } else { 0 };
    2 + shown + more + 1
}

/// The log line of a finished step: status prefix, number and tool, with
/// the argument summary where it is not empty, then the byte count of the
/// details of a file tool, then the duration.
pub open spec fn finished_message(t: Templates, idx: int, r: StepResult, duration: Seq<char>) -> Seq<char> {
    let icon = match r.status {
        StepStatus::Success => t.step_success_prefix@,
        StepStatus::Failed => t.step_fail_prefix@,
    };
    let head = if r.arg_summary@.len() == 0 {
        fill_next(fill_next(fill_next(t.step_finished_simple@, icon), step_number(idx)), r.tool@)
    } else {
        fill_next(
            fill_next(fill_next(fill_next(t.step_finished_args@, icon), step_number(idx)), r.tool@),
            r.arg_summary@,
        )
    };
    let bytes = if r.tool@ == "read_file"@ || r.tool@ == "write_file"@ {
        match r.detail {
            Some(d) => fill(t.step_bytes@, decimal(byte_len(d@))),
            None => Seq::empty(),
        }
    } else {
        Seq::empty()
    };
    head + bytes + duration
}

/// The duration part of a step's log line: milliseconds below a second,
/// else the seconds text (one decimal) that the caller computed.
pub open spec fn duration_text(t: Templates, ms: Option<u64>, seconds: Seq<char>) -> Seq<char> {
    match ms {
        None => Seq::empty(),
        Some(m) => if m < 1000 {
            fill(t.step_ms@, decimal(m as nat))
        } else {
            fill(t.step_sec@, seconds)
        },
    }
}

impl PlanPanel {
    pub fn new() -> (p: PlanPanel)
        ensures
            p.steps@.len() == 0,
            p.collapsed@.len() == 0,
            p.selected == 0,
            p.visible,
            p.wf(),
    {
        PlanPanel { steps: Vec::new(), collapsed: Vec::new(), selected: 0, visible: true }
    }

    /// One collapse flag per step, and the selection is a step or the first
    /// position.
    pub open spec fn wf(&self) -> bool {
        &&& self.collapsed@.len() == self.steps@.len()
        &&& (self.selected == 0 || self.selected < self.steps@.len())
    }

    /// Selects the next step, where there is one.
    pub fn select_next(&mut self)
        ensures
            final(self).selected == (if old(self).steps@.len() > 0 && old(self).selected + 1 < old(
                self,
            ).steps@.len() {
                old(self).selected + 1
            } else {
                old(self).selected as int
            }),
            final(self).steps == old(self).steps,
            final(self).collapsed == old(self).collapsed,
            final(self).visible == old(self).visible,
    {
        if self.steps.len() > 0 && self.selected < self.steps.len() - 1 {
            self.selected = self.selected + 1;
        }
    }

    /// Selects the previous step, where there is one.
    pub fn select_prev(&mut self)
        ensures
            final(self).selected == (if old(self).selected > 0 {
                old(self).selected - 1
            } else {
                0
            }),
            final(self).steps == old(self).steps,
            final(self).collapsed == old(self).collapsed,
            final(self).visible == old(self).visible,
    {
        if self.selected > 0 {
            self.selected = self.selected - 1;
        }
    }

    /// Empties the plan for a new task.
    pub fn clear(&mut self)
        ensures
            final(self).steps@.len() == 0,
            final(self).collapsed@.len() == 0,
            final(self).selected == 0,
            final(self).visible == old(self).visible,
    {
        self.steps = Vec::new();
        self.collapsed = Vec::new();
        self.selected = 0;
    }
}

/// The selection stays on a step (or the first position) whichever way it
/// moves.
pub proof fn law_plan_selection_in_range(p: PlanPanel, q: PlanPanel)
    requires
        p.wf(),
        q.steps == p.steps,
        q.collapsed == p.collapsed,
        q.selected == (if p.steps@.len() > 0 && p.selected + 1 < p.steps@.len() {
            p.selected + 1
        } else {
            p.selected as int
        }) || q.selected == (if p.selected > 0 {
            p.selected - 1
        } else {
            0
        }),
    ensures
        q.wf(),
{
}

impl Session {
    pub fn new() -> (s: Session)
        ensures
            s.plan.steps@.len() == 0,
            s.plan.collapsed@.len() == 0,
            s.plan.selected == 0,
            s.plan.visible,
            s.plan.wf(),
            s.status is Idle,
            s.task_history@.len() == 0,
            s.diff_blocks@.len() == 0,
            s.diff_popup is None,
    {
        Session {
            plan: PlanPanel::new(),
            status: Status::Idle,
            task_history: Vec::new(),
            diff_blocks: Vec::new(),
            diff_popup: None,
        }
    }

    /// Records a task given by the user, keeping the last twenty.
    pub fn record_task(&mut self, task: String, timestamp: String)
        requires
            old(self).task_history@.len() <= HISTORY_CAP,
        ensures
            final(self).task_history@.len() <= HISTORY_CAP,
            final(self).task_history@.len() == if old(self).task_history@.len() < HISTORY_CAP {
                old(self).task_history@.len() + 1int
            } else {
                HISTORY_CAP as int
            },
            final(self).task_history@.last().task@ == task@,
            final(self).task_history@.last().timestamp@ == timestamp@,
            final(self).task_history@.last().summary@ == Seq::<char>::empty(),
            final(self).task_history@.drop_last() == (if old(self).task_history@.len() < HISTORY_CAP {
                old(self).task_history@
            } else {
                old(self).task_history@.drop_first()
            }),
            final(self).plan == old(self).plan,
            final(self).status == old(self).status,
            final(self).diff_blocks == old(self).diff_blocks,
            final(self).diff_popup == old(self).diff_popup,
    {
        self.task_history.push(HistoryEntry { task, timestamp, summary: String::new() });
        if self.task_history.len() > HISTORY_CAP {
            let ghost h = self.task_history@;
            self.task_history.remove(0);
            assert(self.task_history@ =~= h.drop_first());
            assert(self.task_history@.drop_last() =~= old(self).task_history@.drop_first());
        } else {
            assert(self.task_history@.drop_last() =~= old(self).task_history@);
        }
    }

    /// The log lines and changes of a generated plan: the plan is shown with
    /// nothing collapsed and its first step selected, and execution starts
    /// at step zero.
    pub fn plan_generated(&mut self, plan: Vec<PlanStep>, t: &Templates) -> (msgs: Vec<String>)
        ensures
            final(self).plan.steps@ == plan@,
            final(self).plan.collapsed@ == Seq::new(plan@.len(), |i: int| false),
            final(self).plan.selected == 0,
            final(self).plan.visible == old(self).plan.visible,
            final(self).plan.wf(),
            final(self).status == (Status::Executing { current_step: 0, total: plan@.len() as usize }),
            msgs@.map_values(|m: String| m@) == plan_messages(*t, descriptions(plan@)),
            final(self).task_history == old(self).task_history,
            final(self).diff_blocks == old(self).diff_blocks,
            final(self).diff_popup == old(self).diff_popup,
    {
        let n = plan.len();
        let mut collapsed: Vec<bool> = Vec::new();
        let mut msgs: Vec<String> = Vec::new();
        let count = decimal_string(n);
        msgs.push(fill_exec(&t.plan_generated, count.as_str()));
        let ghost expected = plan_messages(*t, descriptions(plan@));
        let mut i: usize = 0;
        while i < n
            invariant
                n == plan@.len(),
                i <= n,
                collapsed@ == Seq::new(i as nat, |k: int| false),
                expected == plan_messages(*t, descriptions(plan@)),
                msgs@.map_values(|m: String| m@) == expected.take(i + 1),
            decreases n - i,
        {
            let num = decimal_string(i + 1);
            let a = fill_next_exec(t.plan_step.as_str(), num.as_str());
            let line = fill_next_exec(a.as_str(), plan[i].description.as_str());
            let ghost mb = msgs@;
            msgs.push(line);
            collapsed.push(false);
            proof {
                assert(expected[i + 1] == line@);
                assert(msgs@ =~= mb.push(line));
                assert(msgs@.map_values(|m: String| m@) =~= mb.map_values(|m: String| m@).push(line@));
                assert(expected.take(i + 2) =~= expected.take(i + 1).push(expected[i + 1]));
                assert(msgs@.map_values(|m: String| m@) =~= expected.take(i + 2));
                assert(collapsed@ =~= Seq::new((i + 1) as nat, |k: int| false));
            }
            i = i + 1;
        }
        assert(expected.take(n + 1) =~= expected);
        self.plan.steps = plan;
        self.plan.collapsed = collapsed;
        self.plan.selected = 0;
        self.status = Status::Executing { current_step: 0, total: n };
        msgs
    }

    /// A started step becomes the current one while executing; its log line
    /// names its description, where the plan has that step.
    pub fn step_started(&mut self, idx: usize, t: &Templates) -> (msg: Option<String>)
        ensures
            match old(self).status {
                Status::Executing { current_step: _, total } => final(self).status == (Status::Executing {
                    current_step: idx,
                    total,
                }),
                _ => final(self).status == old(self).status,
            },
            idx < old(self).plan.steps@.len() ==> opt_view(msg) == Some(
                fill(t.step_started@, old(self).plan.steps@[idx as int].description@),
            ),
            idx >= old(self).plan.steps@.len() ==> msg is None,
            final(self).plan == old(self).plan,
            final(self).task_history == old(self).task_history,
            final(self).diff_blocks == old(self).diff_blocks,
            final(self).diff_popup == old(self).diff_popup,
    {
        match self.status {
            Status::Executing { current_step: _, total } => {
                self.status = Status::Executing { current_step: idx, total };
            },
            _ => {},
        }
        if idx < self.plan.steps.len() {
            Some(fill_exec(&t.step_started, self.plan.steps[idx].description.as_str()))
        } else {
            None
        }
    }

    /// A failed step ends the task: the status returns to idle and the log
    /// line gives the step's number and the error.
    pub fn step_failed(&mut self, idx: usize, error: &str, t: &Templates) -> (msg: String)
        requires
            idx < usize::MAX,
        ensures
            msg@ == fill_next(fill_next(t.step_failed@, step_number(idx as int)), error@),
            final(self).status is Idle,
            final(self).plan == old(self).plan,
            final(self).task_history == old(self).task_history,
            final(self).diff_blocks == old(self).diff_blocks,
            final(self).diff_popup == old(self).diff_popup,
    {
        let num = decimal_string(idx + 1);
        let a = fill_next_exec(t.step_failed.as_str(), num.as_str());
        self.status = Status::Idle;
        fill_next_exec(a.as_str(), error)
    }

    /// A step that needs approval makes the session wait for the user; the
    /// log line quotes the step's description.
    pub fn need_approval(&mut self, prompt: String, idx: usize, t: &Templates) -> (msg: String)
        ensures
            msg@ == fill(t.need_approval@, prompt@),
            final(self).status matches Status::WaitingForUser { prompt: p, step_index } && p@ == prompt@
                && step_index == idx,
            final(self).plan == old(self).plan,
            final(self).task_history == old(self).task_history,
            final(self).diff_blocks == old(self).diff_blocks,
            final(self).diff_popup == old(self).diff_popup,
    {
        let msg = fill_exec(&t.need_approval, prompt.as_str());
        self.status = Status::WaitingForUser { prompt, step_index: idx };
        msg
    }

    /// A completed task is done; its summary goes to the last history entry.
    pub fn task_complete(&mut self, summary: String)
        ensures
            final(self).status is Done,
            final(self).task_history@.len() == old(self).task_history@.len(),
            old(self).task_history@.len() > 0 ==> {
                &&& final(self).task_history@.last().summary@ == summary@
                &&& final(self).task_history@.last().task == old(self).task_history@.last().task
                &&& final(self).task_history@.last().timestamp == old(
                    self,
                ).task_history@.last().timestamp
                &&& final(self).task_history@.drop_last() == old(self).task_history@.drop_last()
            },
            old(self).task_history@.len() == 0 ==> final(self).task_history == old(self).task_history,
            final(self).plan == old(self).plan,
            final(self).diff_blocks == old(self).diff_blocks,
            final(self).diff_popup == old(self).diff_popup,
    {
        let n = self.task_history.len();
        if n > 0 {
            let ghost h = self.task_history@;
            let mut last = self.task_history.pop().unwrap();
            last.summary = summary;
            self.task_history.push(last);
            assert(self.task_history@.drop_last() =~= h.drop_last());
        }
        self.status = Status::Done;
    }

    /// Starts a new task: a pending approval is refused (its refusal is
    /// reported), the task is recorded, and the plan is emptied while
    /// planning. Returns the log line of a refused approval, if any.
    pub fn submit_task(&mut self, task: String, timestamp: String, t: &Templates) -> (refused: Option<String>)
        requires
            old(self).task_history@.len() <= HISTORY_CAP,
        ensures
            final(self).status is Planning,
            old(self).status is WaitingForUser ==> opt_view(refused) == Some(t.approval_cancelled@),
            !(old(self).status is WaitingForUser) ==> refused is None,
            final(self).plan.steps@.len() == 0,
            final(self).plan.collapsed@.len() == 0,
            final(self).plan.selected == 0,
            final(self).plan.visible == old(self).plan.visible,
            final(self).task_history@.len() <= HISTORY_CAP,
            final(self).task_history@.last().task@ == task@,
            final(self).task_history@.last().timestamp@ == timestamp@,
            final(self).diff_blocks == old(self).diff_blocks,
    {
        let refused = match self.status {
            Status::WaitingForUser { .. } => Some(t.approval_cancelled.clone()),
            _ => None,
        };
        self.status = Status::Planning;
        self.record_task(task, timestamp);
        self.plan.clear();
        refused
    }

    /// Runs a task of the history again: it is recorded like a new one, the
    /// plan is emptied, and the session is planning.
    pub fn retry_task(&mut self, task: String, timestamp: String)
        requires
            old(self).task_history@.len() <= HISTORY_CAP,
        ensures
            final(self).status is Planning,
            final(self).plan.steps@.len() == 0,
            final(self).plan.selected == 0,
            final(self).task_history@.len() <= HISTORY_CAP,
            final(self).task_history@.last().task@ == task@,
    {
        self.record_task(task, timestamp);
        self.plan.clear();
        self.status = Status::Planning;
    }
}

/// The history never holds more than twenty tasks, and a new task is always
/// its last entry.
pub proof fn law_history_bounded(before: Seq<HistoryEntry>, after: Seq<HistoryEntry>, task: Seq<char>)
    requires
        before.len() <= HISTORY_CAP,
        after.len() == if before.len() < HISTORY_CAP {
            before.len() + 1int
        } else {
            HISTORY_CAP as int
        },
        after.last().task@ == task,
        after.drop_last() == (if before.len() < HISTORY_CAP {
            before
        } else {
            before.drop_first()
        }),
    ensures
        after.len() <= HISTORY_CAP,
        after.len() > 0,
        after.last().task@ == task,
        before.len() == HISTORY_CAP ==> forall|i: int| 0 <= i < HISTORY_CAP - 1 ==> after[i] == before[i + 1],
{
    if before.len() == HISTORY_CAP {
        assert forall|i: int| 0 <= i < HISTORY_CAP - 1 implies after[i] == before[i + 1] by {
            assert(after[i] == after.drop_last()[i]);
        }
    }
}

// ---------- finished steps and errors ----------

/// Number of lines of `s`.
pub fn line_count_exec(s: &str) -> (n: usize)
    ensures
        n == line_count(s@),
{
    let v = collect_chars(s);
    if v.len() == 0 {
        return 0;
    }
    let mut n: usize = 1;
    let mut i: usize = 1;
    assert(v@.take(1).drop_last() =~= Seq::<char>::empty());
    while i < v.len()
        invariant
            1 <= i <= v@.len(),
            n <= i,
            n == line_count(v@.take(i as int)),
        decreases v.len() - i,
    {
        assert(v@.take(i + 1).drop_last() =~= v@.take(i as int));
        if v[i - 1] == '\n' {
            n = n + 1;
        }
        i = i + 1;
    }
    assert(v@.take(v@.len() as int) =~= v@);
    n
}

/// The duration part of a step's log line.
pub fn duration_suffix(t: &Templates, ms: Option<u64>, seconds: &str) -> (r: String)
    ensures
        r@ == duration_text(*t, ms, seconds@),
{
    match ms {
        None => String::new(),
        Some(m) => {
            if m < 1000 {
                let text = decimal_string(m as usize);
                fill_exec(&t.step_ms, text.as_str())
            } else {
                fill_exec(&t.step_sec, seconds)
            }
        },
    }
}

/// The log line of a finished step.
pub fn finished_line(t: &Templates, idx: usize, result: &StepResult, seconds: &str) -> (r: String)
    requires
        idx < usize::MAX,
    ensures
        r@ == finished_message(*t, idx as int, *result, duration_text(*t, result.duration_ms, seconds@)),
{
    let icon = match result.status {
        StepStatus::Success => &t.step_success_prefix,
        StepStatus::Failed => &t.step_fail_prefix,
    };
    let num = decimal_string(idx + 1);
    let mut line = if result.arg_summary.as_str().is_empty() {
        let a = fill_next_exec(t.step_finished_simple.as_str(), icon.as_str());
        let b = fill_next_exec(a.as_str(), num.as_str());
        fill_next_exec(b.as_str(), result.tool.as_str())
    } else {
        let a = fill_next_exec(t.step_finished_args.as_str(), icon.as_str());
        let b = fill_next_exec(a.as_str(), num.as_str());
        let c = fill_next_exec(b.as_str(), result.tool.as_str());
        fill_next_exec(c.as_str(), result.arg_summary.as_str())
    };
    let tool = result.tool.as_str();
    if str_eq(tool, "read_file") || str_eq(tool, "write_file") {
        match &result.detail {
            Some(d) => {
                let n = str_byte_len(d.as_str());
                let text = decimal_string(n);
                let bytes = fill_exec(&t.step_bytes, text.as_str());
                line.append(bytes.as_str());
            },
            None => {},
        }
    }
    let dur = duration_suffix(t, result.duration_ms, seconds);
    line.append(dur.as_str());
    line
}

/// What an agent error does to the interface: a short notice in the status
/// bar (which also drops the cached balance), or a log line.
pub enum ErrorEffect {
    Flash(String),
    Message(String),
}

impl Session {
    /// A finished step: its log line (see `finished_message`), its message
    /// kept as the plan step's output, and for a file write with content a
    /// block of placeholder lines appended to the log, whose count is
    /// returned, starting at `log_len`, the log's current length.
    pub fn step_finished(&mut self, idx: usize, result: StepResult, t: &Templates, seconds: &str, log_len: usize) -> (r: (String, usize))
        requires
            idx < usize::MAX,
            log_len <= usize::MAX - 24,
        ensures
            r.0@ == finished_message(*t, idx as int, result, duration_text(*t, result.duration_ms, seconds@)),
            (result.tool@ == "write_file"@ && result.detail is Some) ==> {
                &&& r.1 == diff_placeholders(result.detail->0@)
                &&& final(self).diff_blocks@.len() == old(self).diff_blocks@.len() + 1
                &&& final(self).diff_blocks@.drop_last() == old(self).diff_blocks@
                &&& final(self).diff_blocks@.last().start_idx == log_len
                &&& final(self).diff_blocks@.last().end_idx == log_len + r.1
                &&& final(self).diff_blocks@.last().file_path@ == result.arg_summary@
                &&& final(self).diff_blocks@.last().content@ == result.detail->0@
            },
            !(result.tool@ == "write_file"@ && result.detail is Some) ==> r.1 == 0 && final(self).diff_blocks
                == old(self).diff_blocks,
            final(self).plan.steps@.len() == old(self).plan.steps@.len(),
            forall|i: int|
                0 <= i < old(self).plan.steps@.len() && i != idx ==> #[trigger] final(self).plan.steps@[i]
                    == old(self).plan.steps@[i],
            idx < old(self).plan.steps@.len() ==> {
                &&& opt_view(final(self).plan.steps@[idx as int].output) == Some(result.message@)
                &&& final(self).plan.steps@[idx as int].description == old(self).plan.steps@[idx as int].description
                &&& final(self).plan.steps@[idx as int].tool == old(self).plan.steps@[idx as int].tool
                &&& final(self).plan.steps@[idx as int].args == old(self).plan.steps@[idx as int].args
                &&& final(self).plan.steps@[idx as int].need_approval == old(self).plan.steps@[idx as int].need_approval
            },
            final(self).plan.collapsed == old(self).plan.collapsed,
            final(self).plan.selected == old(self).plan.selected,
            final(self).plan.visible == old(self).plan.visible,
            final(self).status == old(self).status,
            final(self).task_history == old(self).task_history,
            final(self).diff_popup == old(self).diff_popup,
    {
        let line = finished_line(t, idx, &result, seconds);
        let mut placeholders: usize = 0;
        if str_eq(result.tool.as_str(), "write_file") {
            match &result.detail {
                Some(content) => {
                    let lines = line_count_exec(content.as_str());
                    let shown = if lines < DIFF_PREVIEW_LINES {
                        lines
                    } else {
                        DIFF_PREVIEW_LINES
                    };
                    let more: usize = if lines > DIFF_PREVIEW_LINES {
                        1
                    } else {
                        0
                    };
                    placeholders = 2 + shown + more + 1;
                    let ghost db = self.diff_blocks@;
                    self.diff_blocks.push(
                        DiffBlock {
                            start_idx: log_len,
                            end_idx: log_len + placeholders,
                            file_path: result.arg_summary.clone(),
                            content: content.clone(),
                        },
                    );
                    assert(self.diff_blocks@.drop_last() =~= db);
                },
                None => {},
            }
        }
        if idx < self.plan.steps.len() {
            let ghost sb = self.plan.steps@;
            let mut step = self.plan.steps.remove(idx);
            step.output = Some(result.message);
            self.plan.steps.insert(idx, step);
            assert forall|i: int| 0 <= i < sb.len() && i != idx implies #[trigger] self.plan.steps@[i] == sb[i] by {
                if i < idx {
                    assert(self.plan.steps@[i] == sb[i]);
                } else {
                    assert(self.plan.steps@[i] == sb[i]);
                }
            }
        }
        (line, placeholders)
    }

    /// The effect of an agent error. A failed or unsupported balance query
    /// only shows a notice; any other error is logged and ends the task.
    pub fn agent_error(&mut self, kind: AgentErrorKind, t: &Templates) -> (e: ErrorEffect)
        ensures
            match kind {
                AgentErrorKind::BalanceNotSupported => e matches ErrorEffect::Flash(m) && m@
                    == "Balance query not supported for this model"@ && final(self).status == old(
                    self,
                ).status,
                AgentErrorKind::BalanceQueryFailed(err) => e matches ErrorEffect::Flash(m) && m@
                    == "Balance query failed: "@ + err@ && final(self).status == old(self).status,
                AgentErrorKind::Other(msg) => e matches ErrorEffect::Message(m) && m@ == fill(
                    t.error@,
                    msg@,
                ) && final(self).status is Idle,
            },
            final(self).plan == old(self).plan,
            final(self).task_history == old(self).task_history,
            final(self).diff_blocks == old(self).diff_blocks,
            final(self).diff_popup == old(self).diff_popup,
    {
        match kind {
            AgentErrorKind::BalanceNotSupported => ErrorEffect::Flash(
                "Balance query not supported for this model".to_owned(),
            ),
            AgentErrorKind::BalanceQueryFailed(err) => {
                let mut m = "Balance query failed: ".to_owned();
                m.append(err.as_str());
                ErrorEffect::Flash(m)
            },
            AgentErrorKind::Other(msg) => {
                self.status = Status::Idle;
                ErrorEffect::Message(fill_exec(&t.error, msg.as_str()))
            },
        }
    }

    /// A step appended to the running plan: it becomes the current step of
    /// the execution, and its log line gives its number and description.
    pub fn step_added(&mut self, step: PlanStep) -> (msg: String)
        requires
            old(self).plan.steps@.len() < usize::MAX - 1,
            old(self).plan.wf(),
        ensures
            final(self).plan.steps@ == old(self).plan.steps@.push(step),
            final(self).plan.collapsed@ == old(self).plan.collapsed@.push(false),
            final(self).plan.selected == old(self).plan.selected,
            final(self).plan.wf(),
            final(self).status == (Status::Executing {
                current_step: old(self).plan.steps@.len() as usize,
                total: (old(self).plan.steps@.len() + 1) as usize,
            }),
            msg@ == "  "@ + step_number(old(self).plan.steps@.len() as int) + ". "@ + step.description@,
            final(self).task_history == old(self).task_history,
            final(self).diff_blocks == old(self).diff_blocks,
            final(self).diff_popup == old(self).diff_popup,
    {
        let idx = self.plan.steps.len();
        let mut msg = "  ".to_owned();
        let num = decimal_string(idx + 1);
        msg.append(num.as_str());
        msg.append(". ");
        msg.append(step.description.as_str());
        self.plan.steps.push(step);
        self.plan.collapsed.push(false);
        self.status = Status::Executing { current_step: idx, total: idx + 1 };
        msg
    }

    /// Answers a pending approval: the session returns to idle and the step
    /// index that was waiting is returned; without one nothing changes.
    pub fn take_approval(&mut self) -> (r: Option<usize>)
        ensures
            match old(self).status {
                Status::WaitingForUser { prompt: _, step_index } => r == Some(step_index)
                    && final(self).status is Idle,
                _ => r is None && final(self).status == old(self).status,
            },
            final(self).plan == old(self).plan,
            final(self).task_history == old(self).task_history,
            final(self).diff_blocks == old(self).diff_blocks,
            final(self).diff_popup == old(self).diff_popup,
    {
        match self.status {
            Status::WaitingForUser { prompt: _, step_index } => {
                self.status = Status::Idle;
                Some(step_index)
            },
            _ => None,
        }
    }

    /// Opens the popup of the first file block that starts at log line
    /// `start_idx`; nothing changes when none does.
    pub fn open_diff_popup(&mut self, start_idx: usize)
        ensures
            match first_block_at(old(self).diff_blocks@, start_idx, 0) {
                Some(i) => final(self).diff_popup matches Some(p) && p.block_idx == i && p.scroll == 0
                    && p.file_path@ == old(self).diff_blocks@[i as int].file_path@ && p.content@ == old(
                    self,
                ).diff_blocks@[i as int].content@,
                None => final(self).diff_popup == old(self).diff_popup,
            },
            final(self).plan == old(self).plan,
            final(self).status == old(self).status,
            final(self).task_history == old(self).task_history,
            final(self).diff_blocks == old(self).diff_blocks,
    {
        let mut i: usize = 0;
        while i < self.diff_blocks.len()
            invariant
                i <= self.diff_blocks@.len(),
                *self == *old(self),
                first_block_at(self.diff_blocks@, start_idx, i as int) == first_block_at(
                    self.diff_blocks@,
                    start_idx,
                    0,
                ),
            decreases self.diff_blocks.len() - i,
        {
            if self.diff_blocks[i].start_idx == start_idx {
                let path = self.diff_blocks[i].file_path.clone();
                let content = self.diff_blocks[i].content.clone();
                self.diff_popup = Some(DiffPopup { block_idx: i, file_path: path, content, scroll: 0 });
                return ;
            }
            i = i + 1;
        }
    }

    pub fn close_diff_popup(&mut self)
        ensures
            final(self).diff_popup is None,
            final(self).plan == old(self).plan,
            final(self).status == old(self).status,
            final(self).task_history == old(self).task_history,
            final(self).diff_blocks == old(self).diff_blocks,
    {
        self.diff_popup = None;
    }

    /// Scrolls the open file popup up one line (not past its top).
    pub fn diff_popup_scroll_up(&mut self)
        ensures
            match old(self).diff_popup {
                Some(p) => final(self).diff_popup matches Some(q) && q.scroll == (if p.scroll > 0 {
                    p.scroll - 1
                } else {
                    0
                }) && q.block_idx == p.block_idx && q.file_path == p.file_path && q.content
                    == p.content,
                None => final(self).diff_popup is None,
            },
            final(self).plan == old(self).plan,
            final(self).status == old(self).status,
            final(self).task_history == old(self).task_history,
            final(self).diff_blocks == old(self).diff_blocks,
    {
        match self.diff_popup.take() {
            Some(mut p) => {
                if p.scroll > 0 {
                    p.scroll = p.scroll - 1;
                }
                self.diff_popup = Some(p);
            },
            None => {},
        }
    }

    /// Scrolls the open file popup down one line (the renderer bounds it).
    pub fn diff_popup_scroll_down(&mut self)
        ensures
            match old(self).diff_popup {
                Some(p) => final(self).diff_popup matches Some(q) && q.scroll == (if p.scroll < u16::MAX {
                    p.scroll + 1
                } else {
                    u16::MAX as int
                }) && q.block_idx == p.block_idx && q.file_path == p.file_path && q.content
                    == p.content,
                None => final(self).diff_popup is None,
            },
            final(self).plan == old(self).plan,
            final(self).status == old(self).status,
            final(self).task_history == old(self).task_history,
            final(self).diff_blocks == old(self).diff_blocks,
    {
        match self.diff_popup.take() {
            Some(mut p) => {
                if p.scroll < u16::MAX {
                    p.scroll = p.scroll + 1;
                }
                self.diff_popup = Some(p);
            },
            None => {},
        }
    }
}

/// Index of the first block, from `i` on, that starts at `start`.
pub open spec fn first_block_at(blocks: Seq<DiffBlock>, start: usize, i: int) -> Option<int>
    decreases blocks.len() - i,
{
    if i < 0 || i >= blocks.len() {
        None
    } else if blocks[i].start_idx == start {
        Some(i)
    } else {
        first_block_at(blocks, start, i + 1)
    }
}

// ---------- status bar labels ----------

/// The workspace shown in the status bar: the current directory, with the
/// home directory at its start written `~`, or `?` when it is unknown.
pub open spec fn workspace_label_spec(cwd: Option<Seq<char>>, home: Option<Seq<char>>) -> Seq<char> {
    match cwd {
        Some(p) => match home {
            Some(h) => if starts_with(p, h) {
                "~"@ + p.skip(h.len() as int)
            } else {
                p
            },
            None => p,
        },
        None => "?"@,
    }
}

pub fn workspace_label(cwd: Option<String>, home: Option<String>) -> (r: String)
    ensures
        r@ == workspace_label_spec(opt_view(cwd), opt_view(home)),
{
    match cwd {
        Some(p) => match home {
            Some(h) => {
                let pv = collect_chars(p.as_str());
                let hv = collect_chars(h.as_str());
                if chars_start_with(&pv, &hv) {
                    let rest = slice_chars(&pv, hv.len(), pv.len());
                    assert(rest@ =~= pv@.skip(hv@.len() as int));
                    let mut s = "~".to_owned();
                    let tail = string_from_chars(&rest);
                    s.append(tail.as_str());
                    s
                } else {
                    p
                }
            },
            None => p,
        },
        None => "?".to_owned(),
    }
}

/// The branch shown in the status bar: the trimmed output of the version
/// control query, or `unknown` when there was none.
pub fn branch_label(output: Option<String>) -> (r: String)
    ensures
        r@ == match output {
            Some(o) => trim(o@),
            None => "unknown"@,
        },
{
    match output {
        Some(o) => trim_str(o.as_str()),
        None => "unknown".to_owned(),
    }
}

// ---------- order of work on an update ----------

/// The kinds of update that the agent sends.
#[derive(Clone, Copy, Debug, PartialEq, Eq, Structural)]
pub enum UpdateKind {
    PlanGenerated,
    StepStarted,
    StepFinished,
    StepFailed,
    NeedApproval,
    TaskComplete,
    /// An error that ends the task.
    FatalError,
    /// A failed or unsupported balance query.
    BalanceError,
    TokenUsage,
    Balance,
    ModelInfo,
    Info,
    StepAdded,
    RequestSelect,
    StreamChunk,
    ThinkingChunk,
}

/// What is done before an update is applied: the open reasoning block is
/// closed (unless more reasoning arrives), and pending streamed output is
/// emitted before anything that reports on the task.
pub struct Prelude {
    pub close_thinking: bool,
    pub flush_stream: bool,
}

pub open spec fn flushes(kind: UpdateKind) -> bool {
    match kind {
        UpdateKind::PlanGenerated | UpdateKind::StepStarted | UpdateKind::StepFinished
        | UpdateKind::StepFailed | UpdateKind::NeedApproval | UpdateKind::TaskComplete
        | UpdateKind::FatalError | UpdateKind::StepAdded => true,
        _ => false,
    }
}

pub fn update_prelude(kind: UpdateKind) -> (p: Prelude)
    ensures
        p.close_thinking == (kind != UpdateKind::ThinkingChunk),
        p.flush_stream == flushes(kind),
{
    let flush = match kind {
        UpdateKind::PlanGenerated | UpdateKind::StepStarted | UpdateKind::StepFinished
        | UpdateKind::StepFailed | UpdateKind::NeedApproval | UpdateKind::TaskComplete
        | UpdateKind::FatalError | UpdateKind::StepAdded => true,
        _ => false,
    };
    Prelude { close_thinking: kind != UpdateKind::ThinkingChunk, flush_stream: flush }
}

} // verus!
