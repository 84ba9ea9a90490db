//! The agent's data (plan steps, step results, error kinds, model
//! parameters, balances) and the decisions it takes on them: which tool call
//! a step asks for, how a finished step is summarised, and how a model reply
//! is cleaned before it is parsed as a plan.
use vstd::prelude::*;
use crate::text::strings_view;
use vstd::string::StringExecFns;
use crate::strutil::{
    decimal, decimal_string, slice_chars, str_eq, strip_prefixes, strip_prefixes_chars,
    strip_suffixes, strip_suffixes_chars, take_at_most, take_chars, trim, trim_chars,
};
use crate::text::{collect_chars, string_from_chars};

verus! {

/// Outcome of one executed step.
#[derive(Clone, Copy, Debug, PartialEq, Eq, Structural)]
pub enum StepStatus {
    Success,
    Failed,
}

/// What a finished step reports: the tool, a short summary of its
/// arguments, its status, a message, optional details and an optional
/// duration in milliseconds.
#[derive(Clone, Debug)]
pub struct StepResult {
    pub tool: String,
    pub arg_summary: String,
    pub status: StepStatus,
    pub message: String,
    pub detail: Option<String>,
    pub duration_ms: Option<u64>,
}

/// Parameters of a model call, as reported to the interface.
#[derive(Clone, Debug)]
pub struct ModelCallParams {
    pub model: String,
    pub max_tokens: u32,
    pub thinking_budget: Option<u32>,
    pub reasoning_effort: Option<String>,
    pub extra_body: Option<String>,
}

/// Kinds of agent errors: a failed balance query, a balance query that the
/// provider does not support, and any other error.
#[derive(Clone, Debug)]
pub enum AgentErrorKind {
    BalanceQueryFailed(String),
    BalanceNotSupported,
    Other(String),
}

/// Commands sent from the interface to the agent.
#[derive(Clone, Debug)]
pub enum UserCommand {
    SubmitTask(String),
    Cancel,
    QueryBalance,
}

/// One step of a plan: a description, the tool to call, its arguments as
/// key/value pairs, whether it needs approval, and its output once known.
#[derive(Clone, Debug)]
pub struct PlanStep {
    pub description: String,
    pub tool: String,
    pub args: Vec<(String, String)>,
    pub need_approval: bool,
    pub output: Option<String>,
}

/// Balance of one currency.
#[derive(Clone, Debug)]
pub struct BalanceEntry {
    pub currency: String,
    pub total_balance: String,
    pub granted_balance: String,
    pub topped_up_balance: String,
}

/// Result of a balance query.
#[derive(Clone, Debug)]
pub struct BalanceInfo {
    pub is_available: bool,
    pub balance_infos: Vec<BalanceEntry>,
}

// ---------- views ----------

pub open spec fn opt_view(o: Option<String>) -> Option<Seq<char>> {
    match o {
        Some(s) => Some(s@),
        None => None,
    }
}

pub open spec fn or_empty(o: Option<Seq<char>>) -> Seq<char> {
    match o {
        Some(s) => s,
        None => Seq::empty(),
    }
}

pub open spec fn pairs_view(args: Seq<(String, String)>) -> Seq<(Seq<char>, Seq<char>)> {
    args.map_values(|p: (String, String)| (p.0@, p.1@))
}

/// The value of the first pair whose key is `key`.
pub open spec fn lookup(pairs: Seq<(Seq<char>, Seq<char>)>, key: Seq<char>) -> Option<Seq<char>>
    decreases pairs.len(),
{
    if pairs.len() == 0 {
        None
    } else if pairs[0].0 == key {
        Some(pairs[0].1)
    } else {
        lookup(pairs.drop_first(), key)
    }
}

/// No key occurs twice, as in a map of arguments.
pub open spec fn keys_distinct(pairs: Seq<(Seq<char>, Seq<char>)>) -> bool {
    forall|i: int, j: int| 0 <= i < j < pairs.len() ==> pairs[i].0 != pairs[j].0
}

/// The value that a map built from `pairs`, inserted in order, holds for
/// `key`: that of the last pair with that key.
pub open spec fn map_lookup(pairs: Seq<(Seq<char>, Seq<char>)>, key: Seq<char>) -> Option<Seq<char>>
    decreases pairs.len(),
{
    if pairs.len() == 0 {
        None
    } else if pairs.last().0 == key {
        Some(pairs.last().1)
    } else {
        map_lookup(pairs.drop_last(), key)
    }
}

/// With distinct keys, looking up a key that no pair has gives nothing, and
/// the pair at `j` is found by its key.
proof fn lemma_lookup_distinct(pairs: Seq<(Seq<char>, Seq<char>)>, key: Seq<char>)
    requires
        keys_distinct(pairs),
    ensures
        (forall|j: int| 0 <= j < pairs.len() ==> pairs[j].0 != key) ==> lookup(pairs, key) is None,
        forall|j: int| 0 <= j < pairs.len() && pairs[j].0 == key ==> lookup(pairs, key) == Some(pairs[j].1),
    decreases pairs.len(),
{
    if pairs.len() > 0 {
        let rest = pairs.drop_first();
        assert forall|i: int, j: int| 0 <= i < j < rest.len() implies rest[i].0 != rest[j].0 by {
            assert(rest[i] == pairs[i + 1] && rest[j] == pairs[j + 1]);
        }
        lemma_lookup_distinct(rest, key);
        assert forall|j: int| 0 <= j < pairs.len() && pairs[j].0 == key implies lookup(pairs, key)
            == Some(pairs[j].1) by {
            if j > 0 {
                assert(rest[j - 1] == pairs[j]);
            }
        }
        if forall|j: int| 0 <= j < pairs.len() ==> pairs[j].0 != key {
            assert forall|j: int| 0 <= j < rest.len() implies rest[j].0 != key by {
                assert(rest[j] == pairs[j + 1]);
            }
        }
    }
}

pub open spec fn balance_not_supported_text() -> Seq<char> {
    "Balance query is only available for DeepSeek provider"@
}

impl AgentErrorKind {
    /// The human-readable description of the error.
    pub open spec fn message(&self) -> Seq<char> {
        match self {
            AgentErrorKind::BalanceQueryFailed(e) => e@,
            AgentErrorKind::BalanceNotSupported => balance_not_supported_text(),
            AgentErrorKind::Other(m) => m@,
        }
    }

    pub fn display(&self) -> (r: &str)
        ensures
            r@ == self.message(),
    {
        match self {
            AgentErrorKind::BalanceQueryFailed(e) => e.as_str(),
            AgentErrorKind::BalanceNotSupported => "Balance query is only available for DeepSeek provider",
            AgentErrorKind::Other(msg) => msg.as_str(),
        }
    }
}

impl PlanStep {
    pub open spec fn args_view(&self) -> Seq<(Seq<char>, Seq<char>)> {
        pairs_view(self.args@)
    }

    /// The arguments form a map: no key occurs twice.
    pub open spec fn wf(&self) -> bool {
        keys_distinct(self.args_view())
    }

    /// A step whose arguments are `pairs` gathered as in a map: a later
    /// value for a key replaces the earlier one, so no key occurs twice.
    pub fn new(
        description: String,
        tool: String,
        pairs: Vec<(String, String)>,
        need_approval: bool,
        output: Option<String>,
    ) -> (step: PlanStep)
        ensures
            step.wf(),
            step.description == description,
            step.tool == tool,
            step.need_approval == need_approval,
            step.output == output,
            forall|key: Seq<char>| lookup(step.args_view(), key) == map_lookup(pairs_view(pairs@), key),
    {
        let ghost pv = pairs_view(pairs@);
        let mut args: Vec<(String, String)> = Vec::new();
        let mut i: usize = 0;
        while i < pairs.len()
            invariant
                i <= pairs.len(),
                pv == pairs_view(pairs@),
                keys_distinct(pairs_view(args@)),
                forall|key: Seq<char>| lookup(pairs_view(args@), key) == map_lookup(pv.take(i as int), key),
            decreases pairs.len() - i,
        {
            let ghost av = pairs_view(args@);
            let k = pairs[i].0.clone();
            let v = pairs[i].1.clone();
            let mut j: usize = 0;
            while j < args.len()
                invariant
                    j <= args.len(),
                    av == pairs_view(args@),
                    forall|t: int| 0 <= t < j ==> av[t].0 != k@,
                ensures
                    j <= args.len(),
                    forall|t: int| 0 <= t < j ==> av[t].0 != k@,
                    j < args.len() ==> av[j as int].0 == k@,
                decreases args.len() - j,
            {
                if str_eq(args[j].0.as_str(), k.as_str()) {
                    break;
                }
                j = j + 1;
            }
            proof {
                assert(pv.take(i + 1).drop_last() =~= pv.take(i as int));
                assert(pv.take(i + 1).last() == (k@, v@));
                lemma_lookup_distinct(av, k@);
            }
            if j < args.len() {
                assert(av[j as int].0 == k@);
                args.set(j, (k, v));
                proof {
                    let nv = pairs_view(args@);
                    assert(nv =~= av.update(j as int, (av[j as int].0, v@)));
                    assert forall|a: int, b: int| 0 <= a < b < nv.len() implies nv[a].0 != nv[b].0 by {
                        assert(nv[a].0 == av[a].0 && nv[b].0 == av[b].0);
                    }
                    assert forall|key: Seq<char>| lookup(nv, key) == map_lookup(pv.take(i + 1), key) by {
                        lemma_lookup_distinct(nv, key);
                        lemma_lookup_distinct(av, key);
                        if key != k@ {
                            if exists|t: int| 0 <= t < av.len() && av[t].0 == key {
                                let t = choose|t: int| 0 <= t < av.len() && av[t].0 == key;
                                assert(nv[t] == av[t]);
                            } else {
                                assert forall|t: int| 0 <= t < nv.len() implies nv[t].0 != key by {
                                    assert(nv[t].0 == av[t].0);
                                }
                            }
                        } else {
                            assert(nv[j as int] == (k@, v@));
                        }
                    }
                }
            } else {
                args.push((k, v));
                proof {
                    let nv = pairs_view(args@);
                    assert(nv =~= av.push((k@, v@)));
                    assert forall|a: int, b: int| 0 <= a < b < nv.len() implies nv[a].0 != nv[b].0 by {
                        if b < av.len() {
                            assert(nv[a] == av[a] && nv[b] == av[b]);
                        } else {
                            assert(nv[a] == av[a]);
                        }
                    }
                    assert forall|key: Seq<char>| lookup(nv, key) == map_lookup(pv.take(i + 1), key) by {
                        lemma_lookup_distinct(nv, key);
                        lemma_lookup_distinct(av, key);
                        if key != k@ {
                            if exists|t: int| 0 <= t < av.len() && av[t].0 == key {
                                let t = choose|t: int| 0 <= t < av.len() && av[t].0 == key;
                                assert(nv[t] == av[t]);
                            } else {
                                assert forall|t: int| 0 <= t < nv.len() implies nv[t].0 != key by {
                                    if t < av.len() {
                                        assert(nv[t] == av[t]);
                                    }
                                }
                            }
                        } else {
                            assert(nv[av.len() as int] == (k@, v@));
                        }
                    }
                }
            }
            i = i + 1;
        }
        assert(pv.take(pairs.len() as int) =~= pv);
        PlanStep { description, tool, args, need_approval, output }
    }

    /// The value of argument `key`.
    pub fn arg(&self, key: &str) -> (r: Option<String>)
        ensures
            opt_view(r) == lookup(self.args_view(), key@),
    {
        let ghost pv = self.args_view();
        let mut i: usize = 0;
        assert(pv.skip(0) =~= pv);
        while i < self.args.len()
            invariant
                i <= self.args@.len(),
                pv == self.args_view(),
                pv.len() == self.args@.len(),
                lookup(pv.skip(i as int), key@) == lookup(pv, key@),
            decreases self.args.len() - i,
        {
            let ghost rest = pv.skip(i as int);
            assert(rest[0] == pv[i as int]);
            if str_eq(self.args[i].0.as_str(), key) {
                return Some(self.args[i].1.clone());
            }
            assert(rest.drop_first() =~= pv.skip(i + 1));
            i = i + 1;
        }
        None
    }

    /// The value of the first argument, if any.
    pub fn first_arg_value(&self) -> (r: Option<String>)
        ensures
            opt_view(r) == (if self.args@.len() > 0 {
                Some(self.args_view()[0].1)
            } else {
                None
            }),
    {
        if self.args.len() > 0 {
            Some(self.args[0].1.clone())
        } else {
            None
        }
    }
}

// ---------- step summaries ----------

/// The argument that summarises a step: the path of a file tool, the command
/// of `run_command`, else the first argument's value (empty when missing).
pub open spec fn arg_summary_spec(tool: Seq<char>, args: Seq<(Seq<char>, Seq<char>)>) -> Seq<char> {
    if tool == "read_file"@ || tool == "write_file"@ {
        or_empty(lookup(args, "path"@))
    } else if tool == "run_command"@ {
        or_empty(lookup(args, "command"@))
    } else if args.len() > 0 {
        args[0].1
    } else {
        Seq::empty()
    }
}

/// The details kept with a finished step: the written content of
/// `write_file`, the whole output of `run_command`, none otherwise.
pub open spec fn detail_spec(tool: Seq<char>, args: Seq<(Seq<char>, Seq<char>)>, output: Seq<char>) -> Option<Seq<char>> {
    if tool == "write_file"@ {
        lookup(args, "content"@)
    } else if tool == "run_command"@ {
        Some(output)
    } else {
        None
    }
}

/// Number of characters of a step's output kept as its message.
pub const PREVIEW_CHARS: usize = 200;

fn unwrap_or_empty(o: Option<String>) -> (r: String)
    ensures
        r@ == or_empty(opt_view(o)),
{
    match o {
        Some(s) => s,
        None => String::new(),
    }
}

/// The argument summary of a step.
pub fn arg_summary(step: &PlanStep) -> (r: String)
    ensures
        r@ == arg_summary_spec(step.tool@, step.args_view()),
{
    let tool = step.tool.as_str();
    if str_eq(tool, "read_file") || str_eq(tool, "write_file") {
        unwrap_or_empty(step.arg("path"))
    } else if str_eq(tool, "run_command") {
        unwrap_or_empty(step.arg("command"))
    } else {
        unwrap_or_empty(step.first_arg_value())
    }
}

/// The details kept with a finished step.
pub fn step_detail(step: &PlanStep, output: String) -> (r: Option<String>)
    ensures
        opt_view(r) == detail_spec(step.tool@, step.args_view(), output@),
{
    let tool = step.tool.as_str();
    if str_eq(tool, "write_file") {
        step.arg("content")
    } else if str_eq(tool, "run_command") {
        Some(output)
    } else {
        None
    }
}

/// The result reported for a step whose tool returned `output`: the step's
/// tool and argument summary, success, the first characters of the output as
/// message, and the details of the step.
pub fn success_result(step: &PlanStep, output: String) -> (r: StepResult)
    ensures
        r.tool@ == step.tool@,
        r.arg_summary@ == arg_summary_spec(step.tool@, step.args_view()),
        r.status == StepStatus::Success,
        r.message@ == take_at_most(output@, PREVIEW_CHARS as nat),
        opt_view(r.detail) == detail_spec(step.tool@, step.args_view(), output@),
        r.duration_ms is None,
{
    let summary = arg_summary(step);
    let preview = take_chars(output.as_str(), PREVIEW_CHARS);
    let detail = step_detail(step, output);
    StepResult {
        tool: step.tool.clone(),
        arg_summary: summary,
        status: StepStatus::Success,
        message: preview,
        detail,
        duration_ms: None,
    }
}

// ---------- plan requests and replies ----------

pub open spec fn plan_prompt_head() -> Seq<char> {
    "You must output ONLY a valid JSON array of steps. Each step has fields: description (str), tool (one of read_file, write_file, run_command), args (object with keys appropriate for the tool), need_approval (bool).\n\nTask: "@
}

/// The request text that asks the model for a plan for `task`.
pub fn plan_prompt(task: &str) -> (r: String)
    ensures
        r@ == plan_prompt_head() + task@,
{
    let mut s = "You must output ONLY a valid JSON array of steps. Each step has fields: description (str), tool (one of read_file, write_file, run_command), args (object with keys appropriate for the tool), need_approval (bool).\n\nTask: ".to_owned();
    s.append(task);
    s
}

/// The parameters reported for a plan request.
pub fn plan_model_params() -> (p: ModelCallParams)
    ensures
        p.model@ == "gpt-3.5-turbo"@,
        p.max_tokens == 0,
        p.thinking_budget is None,
        p.reasoning_effort is None,
        p.extra_body is None,
{
    ModelCallParams {
        model: "gpt-3.5-turbo".to_owned(),
        max_tokens: 0,
        thinking_budget: None,
        reasoning_effort: None,
        extra_body: None,
    }
}

/// The result reported once the model has answered a plan request.
pub fn api_response_result() -> (r: StepResult)
    ensures
        r.tool@ == "generate_plan"@,
        r.arg_summary@ == Seq::<char>::empty(),
        r.status == StepStatus::Success,
        r.message@ == "API response received"@,
        r.detail is None,
        r.duration_ms is None,
{
    StepResult {
        tool: "generate_plan".to_owned(),
        arg_summary: String::new(),
        status: StepStatus::Success,
        message: "API response received".to_owned(),
        detail: None,
        duration_ms: None,
    }
}

/// A model reply without surrounding white space, without leading code
/// fences (`` ```json `` then `` ``` ``, each repeated) and trailing fences.
pub open spec fn clean_plan_spec(content: Seq<char>) -> Seq<char> {
    trim(
        strip_suffixes(
            strip_prefixes(strip_prefixes(trim(content), "```json"@), "```"@),
            "```"@,
        ),
    )
}

/// Removes the code fences that a model may wrap around a plan.
pub fn clean_plan_response(content: &str) -> (r: String)
    ensures
        r@ == clean_plan_spec(content@),
{
    let v = collect_chars(content);
    let t = trim_chars(&v);
    let json_fence = collect_chars("```json");
    let fence = collect_chars("```");
    let a = strip_prefixes_chars(&t, &json_fence);
    let b = strip_prefixes_chars(&a, &fence);
    let c = strip_suffixes_chars(&b, &fence);
    let d = trim_chars(&c);
    string_from_chars(&d)
}

// ---------- tool calls ----------

/// A call of one of the sandbox's tools.
pub enum ToolCall {
    ReadFile { path: String },
    WriteFile { path: String, content: String },
    RunCommand { command: String, args: Vec<String> },
}

pub ghost enum ToolCallView {
    ReadFile(Seq<char>),
    WriteFile(Seq<char>, Seq<char>),
    RunCommand(Seq<char>, Seq<Seq<char>>),
}

pub open spec fn tool_call_view(c: ToolCall) -> ToolCallView {
    match c {
        ToolCall::ReadFile { path } => ToolCallView::ReadFile(path@),
        ToolCall::WriteFile { path, content } => ToolCallView::WriteFile(path@, content@),
        ToolCall::RunCommand { command, args } => ToolCallView::RunCommand(command@, strings_view(args@)),
    }
}

/// What `serde_json` makes of `text` as a JSON array of strings (parsed into
/// borrowed strings): `Ok` of the strings, or `Err` of the text of its error
/// (the error's `Display`, which names the problem and its line and column).
pub uninterp spec fn json_string_array(text: Seq<char>) -> Result<Seq<Seq<char>>, Seq<char>>;

/// Calls `serde_json::from_str::<Vec<&str>>`, copies the strings out, and
/// turns an error into its text. The contract names the outcome
/// `json_string_array(text@)`.
#[verifier::external_body]
fn parse_string_array(text: &str) -> (r: Result<Vec<String>, String>)
    ensures
        match r {
            Ok(v) => json_string_array(text@) == Ok::<Seq<Seq<char>>, Seq<char>>(strings_view(v@)),
            Err(m) => json_string_array(text@) == Err::<Seq<Seq<char>>, Seq<char>>(m@),
        },
{
    match serde_json::from_str::<Vec<&str>>(text) {
        Ok(items) => Ok(items.into_iter().map(String::from).collect()),
        Err(e) => Err(e.to_string()),
    }
}

pub open spec fn unknown_tool_text(tool: Seq<char>) -> Seq<char> {
    "Unknown tool: "@ + tool
}

/// The call that a step asks for, or the reason it cannot be made. A
/// `run_command` step takes its arguments from the JSON array in its `args`
/// argument (no arguments when that is missing); where that text is no such
/// array the reason is the parser's error text.
pub open spec fn tool_call_spec(tool: Seq<char>, args: Seq<(Seq<char>, Seq<char>)>) -> Result<ToolCallView, Seq<char>> {
    if tool == "read_file"@ {
        match lookup(args, "path"@) {
            None => Err("Missing path"@),
            Some(p) => Ok(ToolCallView::ReadFile(p)),
        }
    } else if tool == "write_file"@ {
        match lookup(args, "path"@) {
            None => Err("Missing path"@),
            Some(p) => match lookup(args, "content"@) {
                None => Err("Missing content"@),
                Some(c) => Ok(ToolCallView::WriteFile(p, c)),
            },
        }
    } else if tool == "run_command"@ {
        match lookup(args, "command"@) {
            None => Err("Missing command"@),
            Some(c) => {
                let text = match lookup(args, "args"@) {
                    Some(t) => t,
                    None => "[]"@,
                };
                match json_string_array(text) {
                    Ok(a) => Ok(ToolCallView::RunCommand(c, a)),
                    Err(m) => Err(m),
                }
            },
        }
    } else {
        Err(unknown_tool_text(tool))
    }
}

pub open spec fn tool_call_matches(r: Result<ToolCall, String>, expected: Result<ToolCallView, Seq<char>>) -> bool {
    match expected {
        Ok(c) => r matches Ok(call) && tool_call_view(call) == c,
        Err(m) => r matches Err(e) && e@ == m,
    }
}

fn concat(a: &str, b: &str) -> (r: String)
    ensures
        r@ == a@ + b@,
{
    let mut s = a.to_owned();
    s.append(b);
    s
}

/// The tool call that `step` asks for.
pub fn plan_tool_call(step: &PlanStep) -> (r: Result<ToolCall, String>)
    ensures
        tool_call_matches(r, tool_call_spec(step.tool@, step.args_view())),
{
    let tool = step.tool.as_str();
    if str_eq(tool, "read_file") {
        match step.arg("path") {
            None => Err("Missing path".to_owned()),
            Some(path) => Ok(ToolCall::ReadFile { path }),
        }
    } else if str_eq(tool, "write_file") {
        match step.arg("path") {
            None => Err("Missing path".to_owned()),
            Some(path) => match step.arg("content") {
                None => Err("Missing content".to_owned()),
                Some(content) => Ok(ToolCall::WriteFile { path, content }),
            },
        }
    } else if str_eq(tool, "run_command") {
        match step.arg("command") {
            None => Err("Missing command".to_owned()),
            Some(command) => {
                let text = match step.arg("args") {
                    Some(t) => t,
                    None => "[]".to_owned(),
                };
                match parse_string_array(text.as_str()) {
                    Ok(args) => Ok(ToolCall::RunCommand { command, args }),
                    Err(m) => Err(m),
                }
            },
        }
    } else {
        Err(concat("Unknown tool: ", tool))
    }
}

/// What a tool call gave back: the byte length of a read file, a completed
/// write, a command's output, or the reason it failed.
pub enum ToolOutcome {
    Read { bytes: usize },
    Written,
    CommandOutput(String),
    Failed(String),
}

pub open spec fn read_message_spec(bytes: nat) -> Seq<char> {
    "Read "@ + decimal(bytes) + " bytes"@
}

pub open spec fn written_message_spec(path: Seq<char>) -> Seq<char> {
    "Written to "@ + path
}

pub open spec fn command_message_spec(output: Seq<char>) -> Seq<char> {
    "Command output:\n"@ + output
}

/// The output text of a successful call: the byte count of a read, the path
/// of a write, the output of a command. A call and an outcome of different
/// tools give `None`, as does a failure.
pub open spec fn call_output_spec(call: ToolCallView, outcome: ToolOutcome) -> Option<Seq<char>> {
    match (call, outcome) {
        (ToolCallView::ReadFile(_), ToolOutcome::Read { bytes }) => Some(read_message_spec(bytes as nat)),
        (ToolCallView::WriteFile(p, _), ToolOutcome::Written) => Some(written_message_spec(p)),
        (ToolCallView::RunCommand(_, _), ToolOutcome::CommandOutput(o)) => Some(command_message_spec(o@)),
        _ => None,
    }
}

/// The output text of a successful call.
pub fn call_output(call: &ToolCall, outcome: &ToolOutcome) -> (r: Option<String>)
    ensures
        opt_view(r) == call_output_spec(tool_call_view(*call), *outcome),
{
    match (call, outcome) {
        (ToolCall::ReadFile { .. }, ToolOutcome::Read { bytes }) => {
            let mut s = "Read ".to_owned();
            let n = decimal_string(*bytes);
            s.append(n.as_str());
            s.append(" bytes");
            Some(s)
        },
        (ToolCall::WriteFile { path, .. }, ToolOutcome::Written) => Some(concat("Written to ", path.as_str())),
        (ToolCall::RunCommand { .. }, ToolOutcome::CommandOutput(o)) => Some(concat("Command output:\n", o.as_str())),
        _ => None,
    }
}

// ---------- running a plan ----------

/// What the interface is told while a plan runs.
pub enum Notice {
    /// The plan held by the runner is ready to be shown.
    PlanReady,
    StepStarted(usize),
    StepFinished(usize, StepResult),
    StepFailed(usize, String),
    /// The step needs the user's approval; the text is its description.
    NeedApproval(String, usize),
    TaskComplete(String),
}

/// The user's answer to an approval request, as far as it has come.
pub enum ApprovalReply {
    Pending,
    Answer(bool),
    Closed,
}

/// What happened since the runner's last decision.
pub enum RunnerEvent {
    /// Time to go on; `cancelled` tells whether the user cancelled the task.
    Tick { cancelled: bool },
    /// The state of the pending approval.
    ApprovalPoll { cancelled: bool, reply: ApprovalReply },
    /// The outcome of the tool call last asked for.
    Executed(ToolOutcome),
}

/// What the runner asks its driver to do next.
pub enum Work {
    /// Report the next event at once.
    Continue,
    /// Make this tool call and report its outcome.
    Execute(ToolCall),
    /// Wait this many milliseconds, then report the next event.
    Wait(u64),
    /// The task is over, with this result.
    Finish(Result<(), String>),
}

/// Where a running plan stands.
pub enum RunnerPhase {
    /// About to start the step with this index (the plan is done at its length).
    Ready(usize),
    /// Waiting for the approval of this step.
    Approving(usize),
    /// This step's tool call is under way.
    Running(usize, ToolCall),
    Done,
}

/// Runs the steps of a plan in order: announces each, asks for approval
/// where a step needs it, hands out its tool call, and reports the outcome.
pub struct TaskRunner {
    pub plan: Vec<PlanStep>,
    pub phase: RunnerPhase,
}

/// The notices to send and the work to do after one event.
pub struct Decision {
    pub notices: Vec<Notice>,
    pub work: Work,
}

/// Milliseconds between two polls of a pending approval.
pub const APPROVAL_POLL_MS: u64 = 100;

/// Milliseconds of pause after a finished step.
pub const STEP_PAUSE_MS: u64 = 200;

pub ghost struct StepView {
    pub description: Seq<char>,
    pub tool: Seq<char>,
    pub args: Seq<(Seq<char>, Seq<char>)>,
    pub need_approval: bool,
}

pub ghost struct ResultView {
    pub tool: Seq<char>,
    pub arg_summary: Seq<char>,
    pub status: StepStatus,
    pub message: Seq<char>,
    pub detail: Option<Seq<char>>,
    pub duration_ms: Option<u64>,
}

pub ghost enum NoticeView {
    PlanReady,
    StepStarted(nat),
    StepFinished(nat, ResultView),
    StepFailed(nat, Seq<char>),
    NeedApproval(Seq<char>, nat),
    TaskComplete(Seq<char>),
}

pub ghost enum WorkView {
    Continue,
    Execute(ToolCallView),
    Wait(nat),
    /// `None` for success, else the error's text.
    Finish(Option<Seq<char>>),
}

pub ghost enum PhaseView {
    Ready(nat),
    Approving(nat),
    Running(nat, ToolCallView),
    Done,
}

pub ghost enum ReplyView {
    Pending,
    Answer(bool),
    Closed,
}

pub ghost enum EventView {
    Tick(bool),
    ApprovalPoll(bool, ReplyView),
    Executed(ToolOutcome),
}

pub open spec fn step_view(s: PlanStep) -> StepView {
    StepView {
        description: s.description@,
        tool: s.tool@,
        args: pairs_view(s.args@),
        need_approval: s.need_approval,
    }
}

pub open spec fn plan_view(plan: Seq<PlanStep>) -> Seq<StepView> {
    plan.map_values(|s: PlanStep| step_view(s))
}

pub open spec fn result_view(r: StepResult) -> ResultView {
    ResultView {
        tool: r.tool@,
        arg_summary: r.arg_summary@,
        status: r.status,
        message: r.message@,
        detail: opt_view(r.detail),
        duration_ms: r.duration_ms,
    }
}

pub open spec fn notice_view(n: Notice) -> NoticeView {
    match n {
        Notice::PlanReady => NoticeView::PlanReady,
        Notice::StepStarted(i) => NoticeView::StepStarted(i as nat),
        Notice::StepFinished(i, r) => NoticeView::StepFinished(i as nat, result_view(r)),
        Notice::StepFailed(i, m) => NoticeView::StepFailed(i as nat, m@),
        Notice::NeedApproval(d, i) => NoticeView::NeedApproval(d@, i as nat),
        Notice::TaskComplete(m) => NoticeView::TaskComplete(m@),
    }
}

pub open spec fn notices_view(v: Seq<Notice>) -> Seq<NoticeView> {
    v.map_values(|n: Notice| notice_view(n))
}

pub open spec fn work_view(w: Work) -> WorkView {
    match w {
        Work::Continue => WorkView::Continue,
        Work::Execute(c) => WorkView::Execute(tool_call_view(c)),
        Work::Wait(ms) => WorkView::Wait(ms as nat),
        Work::Finish(Ok(())) => WorkView::Finish(None),
        Work::Finish(Err(e)) => WorkView::Finish(Some(e@)),
    }
}

pub open spec fn phase_view(p: RunnerPhase) -> PhaseView {
    match p {
        RunnerPhase::Ready(i) => PhaseView::Ready(i as nat),
        RunnerPhase::Approving(i) => PhaseView::Approving(i as nat),
        RunnerPhase::Running(i, c) => PhaseView::Running(i as nat, tool_call_view(c)),
        RunnerPhase::Done => PhaseView::Done,
    }
}

pub open spec fn event_view(e: RunnerEvent) -> EventView {
    match e {
        RunnerEvent::Tick { cancelled } => EventView::Tick(cancelled),
        RunnerEvent::ApprovalPoll { cancelled, reply } => EventView::ApprovalPoll(
            cancelled,
            match reply {
                ApprovalReply::Pending => ReplyView::Pending,
                ApprovalReply::Answer(b) => ReplyView::Answer(b),
                ApprovalReply::Closed => ReplyView::Closed,
            },
        ),
        RunnerEvent::Executed(o) => EventView::Executed(o),
    }
}

/// The phase's step indices lie within the plan.
pub open spec fn phase_wf(len: nat, p: PhaseView) -> bool {
    match p {
        PhaseView::Ready(i) => i <= len,
        PhaseView::Approving(i) => i < len,
        PhaseView::Running(i, _) => i < len,
        PhaseView::Done => true,
    }
}

/// The result reported for a step whose call gave the output text `out`.
pub open spec fn success_view(step: StepView, out: Seq<char>) -> ResultView {
    ResultView {
        tool: step.tool,
        arg_summary: arg_summary_spec(step.tool, step.args),
        status: StepStatus::Success,
        message: take_at_most(out, PREVIEW_CHARS as nat),
        detail: detail_spec(step.tool, step.args, out),
        duration_ms: None,
    }
}

pub type Outcome = (Seq<NoticeView>, WorkView, PhaseView);

/// Starting step `i` after the notices `pre`: its tool call is handed out,
/// or, where the call cannot be made, the step fails with the reason and the
/// task ends.
pub open spec fn start_ok(step: StepView, i: nat, pre: Seq<NoticeView>, out: Outcome) -> bool {
    match tool_call_spec(step.tool, step.args) {
        Ok(c) => out == (pre, WorkView::Execute(c), PhaseView::Running(i, c)),
        Err(m) => out == (pre.push(NoticeView::StepFailed(i, m)), WorkView::Finish(None), PhaseView::Done),
    }
}

pub open spec fn ignored(p: PhaseView, out: Outcome) -> bool {
    out == (Seq::<NoticeView>::empty(), WorkView::Continue, p)
}

pub open spec fn all_done_text() -> Seq<char> {
    "All steps completed successfully!"@
}

/// One step of the runner: from phase `p` of `plan`, on event `e`, the
/// notices, the work and the next phase are `out`.
pub open spec fn transition_ok(plan: Seq<StepView>, p: PhaseView, e: EventView, out: Outcome) -> bool {
    match p {
        PhaseView::Ready(i) => match e {
            EventView::Tick(cancelled) => {
                if i >= plan.len() {
                    out == (seq![NoticeView::TaskComplete(all_done_text())], WorkView::Finish(None), PhaseView::Done)
                } else if cancelled {
                    out == (seq![NoticeView::StepFailed(i, "Cancelled by user"@)], WorkView::Finish(None), PhaseView::Done)
                } else if plan[i as int].need_approval {
                    out == (
                        seq![NoticeView::StepStarted(i), NoticeView::NeedApproval(plan[i as int].description, i)],
                        WorkView::Continue,
                        PhaseView::Approving(i),
                    )
                } else {
                    start_ok(plan[i as int], i, seq![NoticeView::StepStarted(i)], out)
                }
            },
            _ => ignored(p, out),
        },
        PhaseView::Approving(i) => match e {
            EventView::ApprovalPoll(cancelled, reply) => {
                if cancelled {
                    out == (
                        seq![NoticeView::StepFailed(i, "Cancelled by user during approval"@)],
                        WorkView::Finish(None),
                        PhaseView::Done,
                    )
                } else {
                    match reply {
                        ReplyView::Pending => out == (Seq::<NoticeView>::empty(), WorkView::Wait(APPROVAL_POLL_MS as nat), p),
                        ReplyView::Closed => out == (
                            Seq::<NoticeView>::empty(),
                            WorkView::Finish(Some("User approval cancelled"@)),
                            PhaseView::Done,
                        ),
                        ReplyView::Answer(false) => out == (
                            seq![NoticeView::StepFailed(i, "Rejected by user"@)],
                            WorkView::Finish(None),
                            PhaseView::Done,
                        ),
                        ReplyView::Answer(true) => start_ok(plan[i as int], i, Seq::empty(), out),
                    }
                }
            },
            _ => ignored(p, out),
        },
        PhaseView::Running(i, c) => match e {
            EventView::Executed(ToolOutcome::Failed(m)) => out == (
                seq![NoticeView::StepFailed(i, m@)],
                WorkView::Finish(None),
                PhaseView::Done,
            ),
            EventView::Executed(o) => match call_output_spec(c, o) {
                Some(text) => out == (
                    seq![NoticeView::StepFinished(i, success_view(plan[i as int], text))],
                    WorkView::Wait(STEP_PAUSE_MS as nat),
                    PhaseView::Ready(i + 1),
                ),
                None => ignored(p, out),
            },
            _ => ignored(p, out),
        },
        PhaseView::Done => ignored(p, out),
    }
}

pub open spec fn decision_view(d: Decision, p: RunnerPhase) -> Outcome {
    (notices_view(d.notices@), work_view(d.work), phase_view(p))
}

impl TaskRunner {
    pub open spec fn wf(&self) -> bool {
        phase_wf(self.plan@.len(), phase_view(self.phase))
    }

    /// Starts running `plan` once it has been generated: a task cancelled in
    /// the meantime fails its first step and ends; otherwise the plan is
    /// announced and its first step is next.
    pub fn begin(plan: Vec<PlanStep>, cancelled: bool) -> (r: (TaskRunner, Decision))
        ensures
            r.0.plan@ == plan@,
            r.0.wf(),
            cancelled ==> decision_view(r.1, r.0.phase) == (
                seq![NoticeView::StepFailed(0, "Cancelled by user before execution"@)],
                WorkView::Finish(None),
                PhaseView::Done,
            ),
            !cancelled ==> decision_view(r.1, r.0.phase) == (
                seq![NoticeView::PlanReady],
                WorkView::Continue,
                PhaseView::Ready(0),
            ),
    {
        let mut notices: Vec<Notice> = Vec::new();
        if cancelled {
            notices.push(Notice::StepFailed(0, "Cancelled by user before execution".to_owned()));
            let d = Decision { notices, work: Work::Finish(Ok(())) };
            assert(notices_view(d.notices@) =~= seq![NoticeView::StepFailed(0, "Cancelled by user before execution"@)]);
            (TaskRunner { plan, phase: RunnerPhase::Done }, d)
        } else {
            notices.push(Notice::PlanReady);
            let d = Decision { notices, work: Work::Continue };
            assert(notices_view(d.notices@) =~= seq![NoticeView::PlanReady]);
            (TaskRunner { plan, phase: RunnerPhase::Ready(0) }, d)
        }
    }

    fn start_step(&mut self, i: usize, notices: Vec<Notice>) -> (d: Decision)
        requires
            i < old(self).plan@.len(),
        ensures
            final(self).plan == old(self).plan,
            final(self).wf(),
            start_ok(plan_view(old(self).plan@)[i as int], i as nat, notices_view(notices@), decision_view(d, final(self).phase)),
    {
        let mut notices = notices;
        let ghost pre = notices_view(notices@);
        let ghost sv = plan_view(self.plan@)[i as int];
        assert(sv == step_view(self.plan@[i as int]));
        match plan_tool_call(&self.plan[i]) {
            Ok(call) => {
                let c2 = clone_call(&call);
                self.phase = RunnerPhase::Running(i, call);
                Decision { notices, work: Work::Execute(c2) }
            },
            Err(m) => {
                notices.push(Notice::StepFailed(i, m));
                self.phase = RunnerPhase::Done;
                let d = Decision { notices, work: Work::Finish(Ok(())) };
                assert(notices_view(d.notices@) =~= pre.push(notice_view(d.notices@.last())));
                d
            },
        }
    }

    /// Takes the decision for `event` and moves to the next phase.
    pub fn advance(&mut self, event: RunnerEvent) -> (d: Decision)
        requires
            old(self).wf(),
        ensures
            final(self).plan == old(self).plan,
            final(self).wf(),
            transition_ok(
                plan_view(old(self).plan@),
                phase_view(old(self).phase),
                event_view(event),
                decision_view(d, final(self).phase),
            ),
    {
        let ghost pv = plan_view(self.plan@);
        let ghost p0 = phase_view(self.phase);
        let empty: Vec<Notice> = Vec::new();
        assert(notices_view(empty@) =~= Seq::<NoticeView>::empty());
        match self.phase {
            RunnerPhase::Ready(i) => {
                match event {
                    RunnerEvent::Tick { cancelled } => {
                        let mut notices: Vec<Notice> = Vec::new();
                        if i >= self.plan.len() {
                            notices.push(Notice::TaskComplete("All steps completed successfully!".to_owned()));
                            self.phase = RunnerPhase::Done;
                            let d = Decision { notices, work: Work::Finish(Ok(())) };
                            assert(notices_view(d.notices@) =~= seq![NoticeView::TaskComplete(all_done_text())]);
                            d
                        } else if cancelled {
                            notices.push(Notice::StepFailed(i, "Cancelled by user".to_owned()));
                            self.phase = RunnerPhase::Done;
                            let d = Decision { notices, work: Work::Finish(Ok(())) };
                            assert(notices_view(d.notices@) =~= seq![NoticeView::StepFailed(i as nat, "Cancelled by user"@)]);
                            d
                        } else if self.plan[i].need_approval {
                            assert(pv[i as int] == step_view(self.plan@[i as int]));
                            notices.push(Notice::StepStarted(i));
                            notices.push(Notice::NeedApproval(self.plan[i].description.clone(), i));
                            self.phase = RunnerPhase::Approving(i);
                            let d = Decision { notices, work: Work::Continue };
                            assert(notices_view(d.notices@) =~= seq![
                                NoticeView::StepStarted(i as nat),
                                NoticeView::NeedApproval(pv[i as int].description, i as nat),
                            ]);
                            d
                        } else {
                            notices.push(Notice::StepStarted(i));
                            assert(notices_view(notices@) =~= seq![NoticeView::StepStarted(i as nat)]);
                            self.start_step(i, notices)
                        }
                    },
                    _ => Decision { notices: empty, work: Work::Continue },
                }
            },
            RunnerPhase::Approving(i) => {
                match event {
                    RunnerEvent::ApprovalPoll { cancelled, reply } => {
                        let mut notices: Vec<Notice> = Vec::new();
                        if cancelled {
                            notices.push(Notice::StepFailed(i, "Cancelled by user during approval".to_owned()));
                            self.phase = RunnerPhase::Done;
                            let d = Decision { notices, work: Work::Finish(Ok(())) };
                            assert(notices_view(d.notices@) =~= seq![NoticeView::StepFailed(i as nat, "Cancelled by user during approval"@)]);
                            d
                        } else {
                            match reply {
                                ApprovalReply::Pending => Decision { notices: empty, work: Work::Wait(APPROVAL_POLL_MS) },
                                ApprovalReply::Closed => {
                                    self.phase = RunnerPhase::Done;
                                    Decision { notices: empty, work: Work::Finish(Err("User approval cancelled".to_owned())) }
                                },
                                ApprovalReply::Answer(false) => {
                                    notices.push(Notice::StepFailed(i, "Rejected by user".to_owned()));
                                    self.phase = RunnerPhase::Done;
                                    let d = Decision { notices, work: Work::Finish(Ok(())) };
                                    assert(notices_view(d.notices@) =~= seq![NoticeView::StepFailed(i as nat, "Rejected by user"@)]);
                                    d
                                },
                                ApprovalReply::Answer(true) => self.start_step(i, empty),
                            }
                        }
                    },
                    _ => Decision { notices: empty, work: Work::Continue },
                }
            },
            RunnerPhase::Running(i, ref call) => {
                match event {
                    RunnerEvent::Executed(ToolOutcome::Failed(m)) => {
                        let mut notices: Vec<Notice> = Vec::new();
                        notices.push(Notice::StepFailed(i, m));
                        self.phase = RunnerPhase::Done;
                        let d = Decision { notices, work: Work::Finish(Ok(())) };
                        assert(notices_view(d.notices@) =~= seq![notice_view(d.notices@[0])]);
                        d
                    },
                    RunnerEvent::Executed(outcome) => {
                        match call_output(call, &outcome) {
                            Some(text) => {
                                let n = self.plan.len();
                                assert(i < n);
                                assert(pv[i as int] == step_view(self.plan@[i as int]));
                                let result = success_result(&self.plan[i], text);
                                let mut notices: Vec<Notice> = Vec::new();
                                notices.push(Notice::StepFinished(i, result));
                                self.phase = RunnerPhase::Ready(i + 1);
                                let d = Decision { notices, work: Work::Wait(STEP_PAUSE_MS) };
                                assert(notices_view(d.notices@) =~= seq![notice_view(d.notices@[0])]);
                                d
                            },
                            None => Decision { notices: empty, work: Work::Continue },
                        }
                    },
                    _ => Decision { notices: empty, work: Work::Continue },
                }
            },
            RunnerPhase::Done => Decision { notices: empty, work: Work::Continue },
        }
    }
}

/// A copy of a tool call.
pub fn clone_call(c: &ToolCall) -> (r: ToolCall)
    ensures
        tool_call_view(r) == tool_call_view(*c),
{
    match c {
        ToolCall::ReadFile { path } => ToolCall::ReadFile { path: path.clone() },
        ToolCall::WriteFile { path, content } => ToolCall::WriteFile { path: path.clone(), content: content.clone() },
        ToolCall::RunCommand { command, args } => {
            let mut out: Vec<String> = Vec::new();
            let mut i: usize = 0;
            while i < args.len()
                invariant
                    i <= args@.len(),
                    strings_view(out@) == strings_view(args@.take(i as int)),
                decreases args.len() - i,
            {
                let ghost ob = out@;
                let s = args[i].clone();
                out.push(s);
                proof {
                    assert(out@ =~= ob.push(args@[i as int]));
                    assert(args@.take(i + 1) =~= args@.take(i as int).push(args@[i as int]));
                    assert(strings_view(out@) =~= strings_view(ob).push(args@[i as int]@));
                    assert(strings_view(args@.take(i + 1)) =~= strings_view(args@.take(i as int)).push(
                        args@[i as int]@,
                    ));
                }
                i = i + 1;
            }
            assert(args@.take(args@.len() as int) =~= args@);
            ToolCall::RunCommand { command: command.clone(), args: out }
        },
    }
}

// ---------- laws of the runner ----------

/// A tool call is handed out only for a step that needs no approval, on a
/// tick of a task that was not cancelled, or right after the user approved
/// the step; and the call is the one that the step asks for.
pub proof fn law_execute_needs_approval(plan: Seq<StepView>, p: PhaseView, e: EventView, out: Outcome)
    requires
        phase_wf(plan.len(), p),
        transition_ok(plan, p, e, out),
        out.1 is Execute,
    ensures
        match p {
            PhaseView::Ready(i) => i < plan.len() && !plan[i as int].need_approval && e == EventView::Tick(false)
                && tool_call_spec(plan[i as int].tool, plan[i as int].args) == Ok::<
                ToolCallView,
                Seq<char>,
            >(out.1->Execute_0),
            PhaseView::Approving(i) => e == EventView::ApprovalPoll(false, ReplyView::Answer(true))
                && tool_call_spec(plan[i as int].tool, plan[i as int].args) == Ok::<
                ToolCallView,
                Seq<char>,
            >(out.1->Execute_0),
            _ => false,
        },
{
}

/// Steps run in plan order: the runner moves on to another step only after
/// the step before it finished, and then to the very next one.
pub proof fn law_steps_in_order(plan: Seq<StepView>, p: PhaseView, e: EventView, out: Outcome)
    requires
        phase_wf(plan.len(), p),
        transition_ok(plan, p, e, out),
        out.2 is Ready,
    ensures
        p == out.2 || (p is Running && out.2 == PhaseView::Ready(p->Running_0 + 1) && out.0.len() == 1
            && out.0[0] is StepFinished && out.0[0]->StepFinished_0 == p->Running_0),
{
}

/// The task is over exactly when the runner enters its final phase, which
/// it never leaves and in which it reports nothing.
pub proof fn law_finish_iff_done(plan: Seq<StepView>, p: PhaseView, e: EventView, out: Outcome)
    requires
        phase_wf(plan.len(), p),
        transition_ok(plan, p, e, out),
    ensures
        out.1 is Finish <==> (out.2 is Done && !(p is Done)),
        p is Done ==> out.2 is Done && out.0.len() == 0,
{
}

/// Every phase that the runner enters keeps its step index within the plan.
pub proof fn law_phase_wf_kept(plan: Seq<StepView>, p: PhaseView, e: EventView, out: Outcome)
    requires
        phase_wf(plan.len(), p),
        transition_ok(plan, p, e, out),
    ensures
        phase_wf(plan.len(), out.2),
{
}

/// A cancelled task stops at the step it has reached, which it reports as
/// failed, and ends successfully.
pub proof fn law_cancel_stops(plan: Seq<StepView>, p: PhaseView, e: EventView, out: Outcome)
    requires
        phase_wf(plan.len(), p),
        transition_ok(plan, p, e, out),
        (p is Ready && p->Ready_0 < plan.len() && e == EventView::Tick(true)) || (p is Approving
            && e is ApprovalPoll && e->ApprovalPoll_0),
    ensures
        out.1 == WorkView::Finish(None),
        out.2 == PhaseView::Done,
        out.0.len() == 1,
        out.0[0] is StepFailed,
        p is Ready ==> out.0[0]->StepFailed_0 == p->Ready_0,
        p is Approving ==> out.0[0]->StepFailed_0 == p->Approving_0,
{
}

/// A step that fails (for whatever reason) ends the task: no further work
/// is handed out and the runner is done.
pub proof fn law_failure_ends_task(plan: Seq<StepView>, p: PhaseView, e: EventView, out: Outcome, k: int)
    requires
        phase_wf(plan.len(), p),
        transition_ok(plan, p, e, out),
        0 <= k < out.0.len(),
        out.0[k] is StepFailed,
    ensures
        out.1 == WorkView::Finish(None),
        out.2 == PhaseView::Done,
{
}

/// The task is reported complete only once every step of the plan has run.
pub proof fn law_complete_only_after_all_steps(plan: Seq<StepView>, p: PhaseView, e: EventView, out: Outcome, k: int)
    requires
        phase_wf(plan.len(), p),
        transition_ok(plan, p, e, out),
        0 <= k < out.0.len(),
        out.0[k] is TaskComplete,
    ensures
        p == PhaseView::Ready(plan.len()),
        out.2 == PhaseView::Done,
{
}

// ---------- commands ----------

/// How the agent answers a command from the interface.
pub enum CommandReply {
    /// The task to start.
    RunTask(String),
    /// Raise the cancel flag and tell the interface this text.
    CancelTask(String),
    /// Report this error.
    Report(AgentErrorKind),
}

/// The agent's answer to `cmd`: a task is run, a cancel request raises the
/// cancel flag, and a balance query is answered that it is not supported.
pub fn command_reply(cmd: UserCommand) -> (r: CommandReply)
    ensures
        match cmd {
            UserCommand::SubmitTask(t) => r matches CommandReply::RunTask(x) && x@ == t@,
            UserCommand::Cancel => r matches CommandReply::CancelTask(m) && m@ == "Cancelling current task..."@,
            UserCommand::QueryBalance => r matches CommandReply::Report(k) && k is BalanceNotSupported,
        },
{
    match cmd {
        UserCommand::SubmitTask(t) => CommandReply::RunTask(t),
        UserCommand::Cancel => CommandReply::CancelTask("Cancelling current task...".to_owned()),
        UserCommand::QueryBalance => CommandReply::Report(AgentErrorKind::BalanceNotSupported),
    }
}

} // verus!
