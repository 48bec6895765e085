//! A run of the agent, step by step.
use vstd::prelude::*;

use crate::json::{group_json_views, list_view, object, text_value, Json, JsonView};
use crate::model::anthropic::{empty_object, format_tool_result_messages, message, message_value, result_messages};
use crate::model::{calls_view, lemma_calls_push, maybe_text, CallView, ChatResponse, ResponseView, ToolCall};
use crate::numbers::{decimal, decimal_text};
use crate::schema::{fault_of, validate_schema_value};
use crate::std_text::{quote, quoted};
use crate::summary::{is_error, is_error_output};
use crate::text::{begins, clip, contains, contains_of, lemma_texts_push, lemma_trim_again, same, starts_with, texts, trim, trim_of};
use crate::tools::{error_of, error_output, openai_tool, AgentTool, ToolSpec, ToolView};
use crate::usage::{usage_of, TokenUsage};
use super::context::{append_hint, context_block, upsert_workspace_context, with_context, with_hint, workspace_context_block};
use super::state::{call_key, count_in, counts_upto, fresh_state, lemma_count_upto, lemma_put_upto, tool_call_key, RunState, StateView};
use super::{rejected_view, results_view, stop_word, usual_policy, AgentPolicy, IterationTelemetry, RejectReason, RunResult, StopReason};

verus! {

/// What every run is told first.
pub const REACT_NUDGE: &'static str = "You are a coding agent with access to tools.

Available tools (high level):
- read: read file contents
- glob: find files by pattern
- bash: run shell commands
- edit: exact text replacements in a file
- write: create/overwrite a file

Rules:
- Be concise and practical.
- Use tools whenever you need to inspect files, run commands, or change the filesystem.
- Do NOT fabricate tool outputs. If you need info, call a tool.
- Batch ALL independent reads and globs into a single turn before acting — gather everything you need first, then implement.
- Once you have the information needed, implement immediately without further exploration.
- Do not re-read files you have already read unless they were modified since your last read.
- Prefer one comprehensive edit over multiple small edits to the same file.
- IMPORTANT: Only use the tools listed here. For shell work, ONLY use the bash tool and ONLY run commands that succeed under the bash tool's safety policy. If a command is blocked, pick an allowed alternative.
- Avoid repeating identical tool calls with the same arguments unless the workspace changed (e.g., after an edit).
- Before using edit, ensure you have read the exact file region you are changing.
- When all required actions are complete, respond with the final answer immediately — do not do additional cleanup or exploration.
";

/// An agent: its tools and its limits.
pub struct Agent {
    pub tools: Vec<ToolSpec>,
    pub max_iterations: u32,
    pub policy: AgentPolicy,
}

/// A run of an agent.
pub struct AgentSession {
    pub tools: Vec<ToolSpec>,
    pub max_iterations: u32,
    pub policy: AgentPolicy,
    pub run_id: String,
    pub messages: Vec<Json>,
    pub state: RunState,
    pub iteration: u32,
    /// The iteration has begun, and the model has yet to reply.
    pub awaits: bool,
    pub nudged: bool,
    pub stop: Option<StopReason>,
    pub final_text: Option<String>,
    /// How many calls of this iteration have been settled.
    pub settled: u32,
    pub outputs: Vec<String>,
    pub executed: Vec<ToolCall>,
}

/// What a run says.
pub struct SessionView {
    pub tools: Seq<ToolView>,
    pub max_iterations: u32,
    pub policy: AgentPolicy,
    pub run_id: Seq<char>,
    pub messages: Seq<JsonView>,
    pub state: StateView,
    pub iteration: u32,
    pub awaits: bool,
    pub nudged: bool,
    pub stop: Option<StopReason>,
    pub final_text: Option<Seq<char>>,
    pub settled: u32,
    pub outputs: Seq<Seq<char>>,
    pub executed: Seq<CallView>,
}

/// What is to be done after a reply.
#[derive(Clone, Copy, PartialEq, Eq, Structural)]
pub enum Step {
    /// Settle the tool calls.
    Calls,
    /// End the run.
    Stop,
    /// Ask again.
    Again,
}

/// What is to be done with a tool call.
pub enum CallPlan {
    /// It has been made too often.
    Blocked,
    /// Its arguments cannot be read.
    Malformed,
    /// It cannot be carried out; why, in words.
    Refused(String),
    /// It is carried out.
    Run,
}

/// What a plan says.
pub enum PlanView {
    Blocked,
    Malformed,
    Refused(Seq<char>),
    Run,
}

/// What a list of tools says.
pub open spec fn tools_view(v: Seq<ToolSpec>) -> Seq<ToolView> {
    v.map_values(|t: ToolSpec| t@)
}

impl CallPlan {
    /// What the plan says.
    pub open spec fn view(&self) -> PlanView {
        match self {
            CallPlan::Blocked => PlanView::Blocked,
            CallPlan::Malformed => PlanView::Malformed,
            CallPlan::Refused(e) => PlanView::Refused(e@),
            CallPlan::Run => PlanView::Run,
        }
    }
}

/// How often a call can have been counted.
pub open spec fn most_counted(iteration: u32, settled: u32, limit: u32) -> int {
    if iteration == 0 {
        0
    } else {
        (iteration - 1) * limit + settled
    }
}

impl AgentSession {
    /// What the run says.
    pub open spec fn view(&self) -> SessionView {
        SessionView {
            tools: tools_view(self.tools@),
            max_iterations: self.max_iterations,
            policy: self.policy,
            run_id: self.run_id@,
            messages: list_view(self.messages@),
            state: self.state@,
            iteration: self.iteration,
            awaits: self.awaits,
            nudged: self.nudged,
            stop: self.stop,
            final_text: maybe_text(self.final_text),
            settled: self.settled,
            outputs: texts(self.outputs@),
            executed: calls_view(self.executed@),
        }
    }

    /// The run is within its limits, and its counts within what they can have come to.
    pub open spec fn wf(&self) -> bool {
        self@.wf()
    }
}

impl SessionView {
    /// The run is within its limits, and its counts within what they can have come to.
    pub open spec fn wf(self) -> bool {
        let most = most_counted(self.iteration, self.settled, self.policy.max_calls_per_iteration);
        &&& self.iteration <= self.max_iterations
        &&& self.settled <= self.policy.max_calls_per_iteration
        &&& self.iteration == 0 ==> self.settled == 0
        &&& self.outputs.len() == self.executed.len()
        &&& self.state.tool_calls_total <= most
        &&& counts_upto(self.state.call_counts, most)
        &&& self.state.consecutive_error_iters == 0 || self.state.consecutive_error_iters
            < self.policy.max_consecutive_error_iters
        &&& self.state.recent.len() <= super::state::MAX_RECENT
        &&& self.state.recent_errors.len() <= super::state::MAX_RECENT_ERRORS
        &&& self.stop == Some(StopReason::FinalText) <==> self.final_text is Some
        &&& self.final_text matches Some(t) ==> t.len() > 0 && trim_of(t) == t
        &&& self.stop != Some(StopReason::MaxIterations)
        &&& self.is_recorded()
    }

    /// There is one record for each iteration that the model has replied to, in order,
    /// and what the run has used is what the records come to.
    pub open spec fn is_recorded(self) -> bool {
        let rows = self.state.iteration_telemetry;
        &&& self.awaits ==> self.iteration > 0
        &&& rows.len() == (if self.awaits { self.iteration - 1 } else { self.iteration as int })
        &&& forall|i: int| 0 <= i < rows.len() ==> (#[trigger] rows[i]).iteration == i + 1
        &&& tally(self.state.usage) == tally_of(rows)
    }
}

/// Counts of tokens, by kind.
pub struct Tally {
    pub input: int,
    pub output: int,
    pub reasoning: int,
    pub cache_write: int,
    pub cache_read: int,
}

/// The counts that were used.
pub open spec fn tally(usage: TokenUsage) -> Tally {
    Tally {
        input: usage.input as int,
        output: usage.output as int,
        reasoning: usage.reasoning as int,
        cache_write: usage.cache_write as int,
        cache_read: usage.cache_read as int,
    }
}

/// What the counts of some iterations come to.
pub open spec fn tally_of(rows: Seq<IterationTelemetry>) -> Tally
    decreases rows.len(),
{
    if rows.len() == 0 {
        Tally { input: 0, output: 0, reasoning: 0, cache_write: 0, cache_read: 0 }
    } else {
        let before = tally_of(rows.drop_last());
        let row = rows.last();
        Tally {
            input: before.input + row.input_tokens,
            output: before.output + row.output_tokens,
            reasoning: before.reasoning + row.reasoning_tokens,
            cache_write: before.cache_write + row.cache_write_tokens,
            cache_read: before.cache_read + row.cache_read_tokens,
        }
    }
}

// ---------------------------------------------------------------------------
// The beginning
// ---------------------------------------------------------------------------

/// The system message: what the caller says, then what every run is told.
pub open spec fn system_text(system: Seq<char>) -> Seq<char> {
    if trim_of(system).len() == 0 {
        trim_of(REACT_NUDGE@)
    } else {
        trim_of(system) + "\n\n"@ + trim_of(REACT_NUDGE@)
    }
}

/// The messages at the beginning of a run.
pub open spec fn opening(task: Seq<char>, system: Seq<char>, history: Seq<JsonView>) -> Seq<JsonView> {
    seq![message("system"@, JsonView::Str(system_text(system)))] + history + seq![
        message("user"@, JsonView::Str(task)),
    ]
}

/// The first tool of a name, or the count of the tools.
pub open spec fn tool_index(tools: Seq<ToolView>, name: Seq<char>) -> int
    decreases tools.len(),
{
    if tools.len() == 0 || tools[0].name == name {
        0
    } else {
        1 + tool_index(tools.skip(1), name)
    }
}

/// The position of the first tool of a name, or the count of the tools.
fn find_tool(tools: &Vec<ToolSpec>, name: &str) -> (r: usize)
    ensures
        r == tool_index(tools_view(tools@), name@),
        r <= tools@.len(),
{
    let ghost all = tools_view(tools@);
    assert(all.skip(0) =~= all);
    for i in 0..tools.len()
        invariant
            all == tools_view(tools@),
            tool_index(all, name@) == i + tool_index(all.skip(i as int), name@),
    {
        assert(all.skip(i as int)[0] == tools@[i as int]@);
        if same(tools[i].name.as_str(), name) {
            return i;
        }
        assert(all.skip(i as int).skip(1) =~= all.skip(i + 1));
    }
    assert(all.skip(tools@.len() as int) =~= Seq::empty());
    tools.len()
}

/// A copy of a list of tools.
fn copy_tools(tools: &Vec<ToolSpec>) -> (r: Vec<ToolSpec>)
    ensures
        tools_view(r@) == tools_view(tools@),
{
    let mut out: Vec<ToolSpec> = Vec::new();
    for i in 0..tools.len()
        invariant
            out@.len() == i,
            forall|k: int| 0 <= k < i ==> (#[trigger] out@[k])@ == tools@[k]@,
    {
        out.push(tools[i].copy());
    }
    assert(tools_view(out@) =~= tools_view(tools@));
    out
}

impl Agent {
    /// An agent with the usual limits.
    pub fn new(tools: Vec<ToolSpec>, max_iterations: u32) -> (r: Agent)
        ensures
            r.tools == tools,
            r.max_iterations == max_iterations,
            r.policy == usual_policy(),
    {
        Agent { tools, max_iterations, policy: AgentPolicy::default() }
    }

    /// Says whether a tool may be called.
    fn set_tool(&mut self, name: &str, enabled: bool) -> (r: Result<(), String>)
        ensures
            final(self).max_iterations == old(self).max_iterations,
            final(self).policy == old(self).policy,
            ({
                let t = tools_view(old(self).tools@);
                let i = tool_index(t, name@);
                if i < t.len() {
                    r is Ok && tools_view(final(self).tools@) == t.update(i, (ToolView { enabled, ..t[i] }))
                } else {
                    (r matches Err(e) && e@ == "Unknown tool: "@ + quoted(name@)) && tools_view(final(self).tools@) == t
                }
            }),
    {
        let i = find_tool(&self.tools, name);
        let ghost t = tools_view(self.tools@);
        if i == self.tools.len() {
            let mut out = String::from_str("Unknown tool: ");
            out.append(quote(name).as_str());
            return Err(out);
        }
        let mut tool = self.tools[i].copy();
        tool.set_enabled(enabled);
        let ghost new = tool@;
        self.tools.set(i, tool);
        assert(tools_view(self.tools@) =~= t.update(i as int, new));
        Ok(())
    }

    /// Lets a tool be called.
    pub fn enable_tool(&mut self, name: &str) -> (r: Result<(), String>)
        ensures
            final(self).max_iterations == old(self).max_iterations,
            final(self).policy == old(self).policy,
            ({
                let t = tools_view(old(self).tools@);
                let i = tool_index(t, name@);
                if i < t.len() {
                    r is Ok && tools_view(final(self).tools@) == t.update(i, (ToolView { enabled: true, ..t[i] }))
                } else {
                    (r matches Err(e) && e@ == "Unknown tool: "@ + quoted(name@)) && tools_view(final(self).tools@) == t
                }
            }),
    {
        self.set_tool(name, true)
    }

    /// Keeps a tool from being called.
    pub fn disable_tool(&mut self, name: &str) -> (r: Result<(), String>)
        ensures
            final(self).max_iterations == old(self).max_iterations,
            final(self).policy == old(self).policy,
            ({
                let t = tools_view(old(self).tools@);
                let i = tool_index(t, name@);
                if i < t.len() {
                    r is Ok && tools_view(final(self).tools@) == t.update(i, (ToolView { enabled: false, ..t[i] }))
                } else {
                    (r matches Err(e) && e@ == "Unknown tool: "@ + quoted(name@)) && tools_view(final(self).tools@) == t
                }
            }),
    {
        self.set_tool(name, false)
    }

    /// Begins a run of the agent on a task.
    pub fn start(&self, task: &str, system: &str, chat_history: &Vec<Json>, run_id: &str) -> (r: AgentSession)
        ensures
            r.wf(),
            r@ == (SessionView {
                tools: tools_view(self.tools@),
                max_iterations: self.max_iterations,
                policy: self.policy,
                run_id: run_id@,
                messages: opening(task@, system@, list_view(chat_history@)),
                state: fresh_state(),
                iteration: 0,
                awaits: false,
                nudged: false,
                stop: None,
                final_text: None,
                settled: 0,
                outputs: Seq::empty(),
                executed: Seq::empty(),
            }),
    {
        broadcast use group_json_views;

        let said = trim(system);
        let told = trim(REACT_NUDGE);
        let text = if said.is_empty() {
            String::from_str(told)
        } else {
            let mut s = String::from_str(said);
            s.append("\n\n");
            s.append(told);
            s
        };
        let ghost history = list_view(chat_history@);
        let mut messages: Vec<Json> = Vec::new();
        messages.push(message_value("system", Json::Str(text)));
        assert(list_view(messages@) =~= seq![message("system"@, JsonView::Str(system_text(system@)))]);
        let ghost first = list_view(messages@);
        assert(first + history.take(0) =~= first);
        for i in 0..chat_history.len()
            invariant
                history == list_view(chat_history@),
                list_view(messages@) == first + history.take(i as int),
        {
            messages.push(chat_history[i].copy());
            assert(first + history.take(i + 1) =~= (first + history.take(i as int)).push(history[i as int]));
        }
        assert(history.take(chat_history@.len() as int) =~= history);
        messages.push(message_value("user", text_value(task)));
        assert(list_view(messages@) =~= opening(task@, system@, history));
        let r = AgentSession {
            tools: copy_tools(&self.tools),
            max_iterations: self.max_iterations,
            policy: self.policy,
            run_id: String::from_str(run_id),
            messages,
            state: RunState::new(),
            iteration: 0,
            awaits: false,
            nudged: false,
            stop: None,
            final_text: None,
            settled: 0,
            outputs: Vec::new(),
            executed: Vec::new(),
        };
        assert(r@.outputs =~= Seq::empty());
        assert(r@.executed =~= Seq::empty());
        r
    }
}

// ---------------------------------------------------------------------------
// An iteration begins
// ---------------------------------------------------------------------------

/// What the model is told of the run in its next iteration.
pub open spec fn next_block(s: SessionView) -> Seq<char> {
    context_block(
        s.state.tool_calls_total as nat,
        s.state.recent_errors,
        s.state.recent,
        (s.iteration + 1) as nat,
        s.max_iterations as nat,
        s.policy.max_tool_calls_total as nat,
    )
}

/// The run goes on: it has not ended, and may have another iteration.
pub open spec fn goes_on(s: SessionView) -> bool {
    s.stop is None && s.iteration < s.max_iterations
}

/// The run in its next iteration.
pub open spec fn next_iteration(s: SessionView) -> SessionView {
    SessionView {
        iteration: (s.iteration + 1) as u32,
        awaits: true,
        settled: 0,
        outputs: Seq::empty(),
        executed: Seq::empty(),
        messages: with_context(s.messages, next_block(s)),
        ..s
    }
}

/// The tools that are offered.
pub open spec fn offered(tools: Seq<ToolView>) -> Seq<JsonView>
    decreases tools.len(),
{
    if tools.len() == 0 {
        Seq::empty()
    } else if tools.last().enabled {
        offered(tools.drop_last()).push(openai_tool(tools.last()))
    } else {
        offered(tools.drop_last())
    }
}

impl AgentSession {
    /// Begins the next iteration, where there is one.
    pub fn begin_iteration(&mut self) -> (r: bool)
        requires
            old(self).wf(),
            !old(self).awaits,
        ensures
            final(self).wf(),
            r == goes_on(old(self)@),
            final(self)@ == (if goes_on(old(self)@) {
                next_iteration(old(self)@)
            } else {
                old(self)@
            }),
    {
        if self.stop.is_some() || self.iteration >= self.max_iterations {
            return false;
        }
        proof {
            lemma_most_grows(self.iteration, self.settled, self.policy.max_calls_per_iteration);
        }
        self.iteration = self.iteration + 1;
        self.awaits = true;
        self.settled = 0;
        self.outputs = Vec::new();
        self.executed = Vec::new();
        assert(self@.outputs =~= Seq::empty());
        assert(self@.executed =~= Seq::empty());
        let block = workspace_context_block(
            self.state.tool_calls_total,
            &self.state.recent_errors,
            &self.state.recent,
            self.iteration,
            self.max_iterations,
            &self.policy,
        );
        upsert_workspace_context(&mut self.messages, block.as_str());
        true
    }

    /// The tools that are offered.
    pub fn tool_schemas(&self) -> (r: Vec<Json>)
        ensures
            list_view(r@) == offered(self@.tools),
    {
        broadcast use group_json_views;

        let ghost all = tools_view(self.tools@);
        let mut out: Vec<Json> = Vec::new();
        assert(list_view(out@) =~= offered(all.take(0)));
        for i in 0..self.tools.len()
            invariant
                all == tools_view(self.tools@),
                list_view(out@) == offered(all.take(i as int)),
        {
            proof {
                assert(all.take(i + 1).drop_last() =~= all.take(i as int));
                assert(all.take(i + 1).last() == self.tools@[i as int]@);
            }
            if self.tools[i].enabled {
                out.push(self.tools[i].to_openai_tool());
            }
        }
        assert(all.take(self.tools@.len() as int) =~= all);
        out
    }
}

/// What the counts can have come to grows from one iteration to the next.
proof fn lemma_most_grows(iteration: u32, settled: u32, limit: u32)
    requires
        iteration < u32::MAX,
        settled <= limit,
        iteration == 0 ==> settled == 0,
    ensures
        most_counted(iteration, settled, limit) <= most_counted((iteration + 1) as u32, 0, limit),
{
    if iteration > 0 {
        assert((iteration - 1) * limit + limit == iteration * limit) by (nonlinear_arith);
    } else {
        assert(0 * limit == 0) by (nonlinear_arith);
    }
}

/// What the counts can have come to fits 64 bits.
proof fn lemma_most_fits(iteration: u32, settled: u32, limit: u32)
    requires
        settled < limit,
    ensures
        0 <= most_counted(iteration, settled, limit) < u64::MAX,
{
    if iteration > 0 {
        let a = iteration - 1;
        let b = limit as int;
        assert(0 <= a * b <= 0xffff_fffe * 0xffff_ffff) by (nonlinear_arith)
            requires
                0 <= a <= 0xffff_fffe,
                0 <= b <= 0xffff_ffff,
        ;
    }
}

// ---------------------------------------------------------------------------
// The model replies
// ---------------------------------------------------------------------------

/// The counts of an iteration.
pub open spec fn telemetry_of(iteration: u32, r: ResponseView) -> IterationTelemetry {
    let u = usage_of(r.usage);
    IterationTelemetry {
        iteration,
        input_tokens: u.input,
        output_tokens: u.output,
        reasoning_tokens: u.reasoning,
        cache_write_tokens: u.cache_write,
        cache_read_tokens: u.cache_read,
        tool_calls_requested: r.tool_calls.len() as u32,
        had_final_text: trim_of(r.text).len() > 0,
    }
}

/// One of the recent errors speaks of JSON.
pub open spec fn speaks_of_json(errors: Seq<Seq<char>>) -> bool {
    exists|i: int| 0 <= i < errors.len() && contains_of(#[trigger] errors[i], "JSON"@)
}

/// What a model is told that replied with nothing.
pub open spec fn empty_reply_hint(errors: Seq<Seq<char>>) -> Seq<char> {
    if speaks_of_json(errors) {
        "Your last tool call could not be parsed because the arguments were not valid JSON. Please re-emit the tool call with a properly formed JSON object matching the tool schema."@
    } else {
        "Reply with either tool_calls (to take an action) or a final answer as text."@
    }
}

/// What is to be done after a reply: tool calls come before text, and a run whose
/// calls are used up ends.
pub open spec fn step_after(s: SessionView, r: ResponseView) -> Step {
    if r.tool_calls.len() > 0 {
        if s.state.tool_calls_total >= s.policy.max_tool_calls_total {
            Step::Stop
        } else {
            Step::Calls
        }
    } else if trim_of(r.text).len() > 0 {
        Step::Stop
    } else {
        Step::Again
    }
}

/// The run once the model has replied.
pub open spec fn replied(s: SessionView, r: ResponseView) -> SessionView {
    let counted = SessionView {
        state: StateView {
            usage: s.state.usage.plus(usage_of(r.usage)),
            iteration_telemetry: s.state.iteration_telemetry.push(telemetry_of(s.iteration, r)),
            ..s.state
        },
        awaits: false,
        ..s
    };
    match step_after(s, r) {
        Step::Calls => counted,
        Step::Stop => if r.tool_calls.len() > 0 {
            SessionView { stop: Some(StopReason::ToolBudget), final_text: None, ..counted }
        } else {
            SessionView { stop: Some(StopReason::FinalText), final_text: Some(trim_of(r.text)), ..counted }
        },
        Step::Again => if s.nudged {
            counted
        } else {
            SessionView {
                nudged: true,
                messages: with_hint(s.messages, empty_reply_hint(s.state.recent_errors)),
                ..counted
            }
        },
    }
}

/// Whether one of the recent errors speaks of JSON.
fn find_json_error(errors: &Vec<String>) -> (r: bool)
    ensures
        r == speaks_of_json(texts(errors@)),
{
    for i in 0..errors.len()
        invariant
            forall|k: int| 0 <= k < i ==> !contains_of(#[trigger] errors@[k]@, "JSON"@),
    {
        if contains(errors[i].as_str(), "JSON") {
            assert(contains_of(texts(errors@)[i as int], "JSON"@));
            return true;
        }
    }
    proof {
        let e = texts(errors@);
        assert forall|k: int| 0 <= k < e.len() implies !contains_of(#[trigger] e[k], "JSON"@) by {
            assert(e[k] == errors@[k]@);
        }
    }
    false
}

impl AgentSession {
    /// Takes in a reply, and says what is to be done.
    pub fn on_response(&mut self, response: &ChatResponse) -> (r: Step)
        requires
            old(self).wf(),
            old(self).awaits,
            old(self)@.stop is None,
            old(self)@.state.usage.addable(usage_of(response@.usage)),
        ensures
            final(self).wf(),
            final(self)@ == replied(old(self)@, response@),
            r == step_after(old(self)@, response@),
    {
        let usage = TokenUsage::from_raw(response.usage.as_ref());
        let text = trim(response.text.as_str());
        let n = response.tool_calls.len();
        assert(response@.tool_calls.len() == n);
        self.state.usage.add_assign(usage);
        let row = IterationTelemetry {
            iteration: self.iteration,
            input_tokens: usage.input,
            output_tokens: usage.output,
            reasoning_tokens: usage.reasoning,
            cache_write_tokens: usage.cache_write,
            cache_read_tokens: usage.cache_read,
            tool_calls_requested: n as u32,
            had_final_text: !text.is_empty(),
        };
        let ghost rows = self.state.iteration_telemetry@;
        self.state.iteration_telemetry.push(row);
        self.awaits = false;
        assert(rows.push(row).drop_last() =~= rows);
        if n > 0 {
            if self.state.tool_calls_total >= self.policy.max_tool_calls_total as u64 {
                self.stop = Some(StopReason::ToolBudget);
                self.final_text = None;
                return Step::Stop;
            }
            return Step::Calls;
        }
        if !text.is_empty() {
            proof { lemma_trim_again(response@.text); }
            self.stop = Some(StopReason::FinalText);
            self.final_text = Some(String::from_str(text));
            return Step::Stop;
        }
        if !self.nudged {
            self.nudged = true;
            let hint = if find_json_error(&self.state.recent_errors) {
                "Your last tool call could not be parsed because the arguments were not valid JSON. Please re-emit the tool call with a properly formed JSON object matching the tool schema."
            } else {
                "Reply with either tool_calls (to take an action) or a final answer as text."
            };
            append_hint(&mut self.messages, hint);
        }
        Step::Again
    }
}

// ---------------------------------------------------------------------------
// A tool is called
// ---------------------------------------------------------------------------

/// How often a call of a tool is let through.
pub open spec fn max_repeats(policy: AgentPolicy, name: Seq<char>) -> int {
    if name == "read"@ {
        policy.max_repeated_calls * policy.read_repeat_multiplier
    } else {
        policy.max_repeated_calls as int
    }
}

/// Why a tool cannot be called so, if it cannot.
pub open spec fn tool_fault(tools: Seq<ToolView>, name: Seq<char>, args: JsonView) -> Option<Seq<char>> {
    let i = tool_index(tools, name);
    if i >= tools.len() {
        Some("unknown tool "@ + quoted(name))
    } else if !tools[i].enabled {
        Some("tool "@ + quoted(name) + " is disabled"@)
    } else if !(args is Object) {
        Some("tool "@ + quoted(name) + " arguments must be an object"@)
    } else {
        fault_of(tools[i].parameters, args, "args"@)
    }
}

/// What is to be done with a call.
pub open spec fn plan_of(s: SessionView, call: CallView) -> PlanView {
    if count_in(s.state.call_counts, call_key(call.name, call.arguments)) + 1 > max_repeats(s.policy, call.name) {
        PlanView::Blocked
    } else if call.raw_arguments_error is Some {
        PlanView::Malformed
    } else {
        match tool_fault(s.tools, call.name, call.arguments) {
            Some(e) => PlanView::Refused(e),
            None => PlanView::Run,
        }
    }
}

/// What is answered to a call that has been made too often.
pub open spec fn blocked_text(max_repeats: int) -> Seq<char> {
    "Error: repeated tool call blocked after "@ + decimal(max_repeats as nat)
        + " tries. Change arguments (e.g., different offset/limit/path) or change approach."@
}

/// What is answered to a call whose arguments cannot be read.
pub open spec fn malformed_text(call: CallView) -> Seq<char> {
    let error = match call.raw_arguments_error {
        Some(e) => e,
        None => Seq::empty(),
    };
    let raw = match call.raw_arguments {
        Some(r) => r,
        None => Seq::empty(),
    };
    "Error: tool call arguments were not valid JSON and could not be parsed.\ntool="@ + quoted(call.name)
        + "\nparse_error="@ + error + "\nraw_arguments="@ + quoted(raw)
        + "\nFix: emit a tool call with a JSON object matching the tool schema."@
}

/// What is answered to a call; `raw` is what the tool answers where it is run.
pub open spec fn answer_of(s: SessionView, call: CallView, raw: Seq<char>) -> Seq<char> {
    match plan_of(s, call) {
        PlanView::Blocked => blocked_text(max_repeats(s.policy, call.name)),
        PlanView::Malformed => malformed_text(call),
        PlanView::Refused(e) => error_of(e),
        PlanView::Run => raw,
    }
}

/// An output as it is handed back: cut where it is too long, unless it is an error.
pub open spec fn history_of(output: Seq<char>, most: int) -> Seq<char> {
    if is_error(output) || output.len() <= most {
        output
    } else {
        output.take(most) + "\n…[output truncated: "@ + decimal((output.len() - most) as nat)
            + " chars omitted. Use read(path, offset=N) to page through the rest.]"@
    }
}

/// The call may have changed files.
pub open spec fn changed_files(name: Seq<char>, output: Seq<char>) -> bool {
    !is_error(output) && (name == "edit"@ || name == "write"@)
}

/// The state once a call has been dealt with.
pub open spec fn state_after_call(s: SessionView, call: CallView, raw: Seq<char>) -> StateView {
    let output = answer_of(s, call, raw);
    let counted = s.state.counted(call_key(call.name, call.arguments));
    let kept = match plan_of(s, call) {
        PlanView::Blocked => counted.recorded(call.name, call.arguments, output).rejected(
            call.name,
            call.arguments,
            RejectReason::RepeatBlocked,
        ),
        PlanView::Malformed => counted.rejected(call.name, call.arguments, RejectReason::BadJson).recorded(
            call.name,
            call.arguments,
            output,
        ),
        _ => counted.executed(call.name, call.arguments, output).recorded(call.name, call.arguments, output),
    };
    if !(plan_of(s, call) is Blocked) && changed_files(call.name, output) {
        kept.forgotten()
    } else {
        kept
    }
}

/// The run once a call has been dealt with.
pub open spec fn after_call(s: SessionView, call: CallView, raw: Seq<char>) -> SessionView {
    SessionView {
        state: state_after_call(s, call, raw),
        settled: (s.settled + 1) as u32,
        outputs: s.outputs.push(history_of(answer_of(s, call, raw), s.policy.max_history_chars as int)),
        executed: s.executed.push(call.settled()),
        ..s
    }
}

/// An output as it is handed back.
fn history_output(output: &str, most: usize) -> (r: String)
    ensures
        r@ == history_of(output@, most as int),
{
    let n = output.unicode_len();
    if is_error_output(output) || n <= most {
        return String::from_str(output);
    }
    let mut out = clip(output, most);
    out.append("\n…[output truncated: ");
    out.append(decimal_text((n - most) as u64).as_str());
    out.append(" chars omitted. Use read(path, offset=N) to page through the rest.]");
    out
}

/// What is answered to a call that has been made too often.
fn repeated_call_hint(max_repeats: u64) -> (r: String)
    ensures
        r@ == blocked_text(max_repeats as int),
{
    let mut out = String::from_str("Error: repeated tool call blocked after ");
    out.append(decimal_text(max_repeats).as_str());
    out.append(" tries. Change arguments (e.g., different offset/limit/path) or change approach.");
    out
}

/// What is answered to a call whose arguments cannot be read.
fn malformed_output(call: &ToolCall) -> (r: String)
    ensures
        r@ == malformed_text(call@),
{
    let mut out = String::from_str("Error: tool call arguments were not valid JSON and could not be parsed.\ntool=");
    out.append(quote(call.name.as_str()).as_str());
    out.append("\nparse_error=");
    match &call.raw_arguments_error {
        Some(e) => {
            out.append(e.as_str());
        },
        None => {
            let nothing = String::new();
            out.append(nothing.as_str());
        },
    }
    out.append("\nraw_arguments=");
    let raw = match &call.raw_arguments {
        Some(r) => r.clone(),
        None => String::new(),
    };
    out.append(quote(raw.as_str()).as_str());
    out.append("\nFix: emit a tool call with a JSON object matching the tool schema.");
    out
}

/// How often a call of a tool is let through.
fn max_repeats_for_tool(policy: &AgentPolicy, name: &str) -> (r: u64)
    ensures
        r == max_repeats(*policy, name@),
{
    if same(name, "read") {
        let a = policy.max_repeated_calls as u64;
        let b = policy.read_repeat_multiplier as u64;
        assert(0 <= a * b <= 0xffff_ffff * 0xffff_ffff) by (nonlinear_arith)
            requires
                0 <= a <= 0xffff_ffff,
                0 <= b <= 0xffff_ffff,
        ;
        a * b
    } else {
        policy.max_repeated_calls as u64
    }
}

/// Why a tool cannot be called so, if it cannot.
pub fn check_tool(tools: &Vec<ToolSpec>, name: &str, args: &Json) -> (r: Option<String>)
    ensures
        maybe_text(r) == tool_fault(tools_view(tools@), name@, args@),
{
    let i = find_tool(tools, name);
    if i == tools.len() {
        let mut out = String::from_str("unknown tool ");
        out.append(quote(name).as_str());
        return Some(out);
    }
    assert(tools_view(tools@)[i as int] == tools@[i as int]@);
    if !tools[i].enabled {
        let mut out = String::from_str("tool ");
        out.append(quote(name).as_str());
        out.append(" is disabled");
        return Some(out);
    }
    if !args.is_object() {
        let mut out = String::from_str("tool ");
        out.append(quote(name).as_str());
        out.append(" arguments must be an object");
        return Some(out);
    }
    validate_schema_value(&tools[i].parameters, args, "args")
}

impl AgentSession {
    /// What is to be done with a call.
    pub fn plan_call(&self, call: &ToolCall) -> (r: CallPlan)
        requires
            self.wf(),
            self.settled < self.policy.max_calls_per_iteration,
        ensures
            r@ == plan_of(self@, call@),
    {
        let key = tool_call_key(call.name.as_str(), &call.arguments);
        let count = self.state.call_counts.get(key.as_str());
        proof {
            lemma_most_fits(self.iteration, self.settled, self.policy.max_calls_per_iteration);
            lemma_count_upto(
                self@.state.call_counts,
                key@,
                most_counted(self.iteration, self.settled, self.policy.max_calls_per_iteration),
            );
        }
        if count + 1 > max_repeats_for_tool(&self.policy, call.name.as_str()) {
            return CallPlan::Blocked;
        }
        if call.raw_arguments_error.is_some() {
            return CallPlan::Malformed;
        }
        match check_tool(&self.tools, call.name.as_str(), &call.arguments) {
            Some(e) => CallPlan::Refused(e),
            None => CallPlan::Run,
        }
    }

    /// What is answered to a call; `raw` is what the tool answers where it is run.
    pub fn call_output(&self, call: &ToolCall, raw: &str) -> (r: String)
        requires
            self.wf(),
            self.settled < self.policy.max_calls_per_iteration,
        ensures
            r@ == answer_of(self@, call@, raw@),
    {
        match self.plan_call(call) {
            CallPlan::Blocked => repeated_call_hint(max_repeats_for_tool(&self.policy, call.name.as_str())),
            CallPlan::Malformed => malformed_output(call),
            CallPlan::Refused(e) => error_output(e.as_str()),
            CallPlan::Run => String::from_str(raw),
        }
    }

    /// Deals with a call; `raw` is what the tool answered where it was run.
    pub fn settle_call(&mut self, call: &ToolCall, raw: &str)
        requires
            old(self).wf(),
            old(self).iteration > 0,
            old(self).settled < old(self).policy.max_calls_per_iteration,
        ensures
            final(self).wf(),
            final(self)@ == after_call(old(self)@, call@, raw@),
    {
        let plan = self.plan_call(call);
        let output = self.call_output(call, raw);
        let key = tool_call_key(call.name.as_str(), &call.arguments);
        let name = call.name.as_str();
        let ghost most = most_counted(self.iteration, self.settled, self.policy.max_calls_per_iteration);
        proof {
            lemma_most_fits(self.iteration, self.settled, self.policy.max_calls_per_iteration);
            lemma_count_upto(self@.state.call_counts, key@, most);
            assert(counts_upto(self@.state.call_counts, most + 1)) by {
                let c = self@.state.call_counts;
                assert forall|i: int| 0 <= i < c.len() implies (#[trigger] c[i]).1 <= most + 1 by {}
            }
            lemma_put_upto(
                self@.state.call_counts,
                key@,
                count_in(self@.state.call_counts, key@) + 1,
                most + 1,
            );
        }
        self.state.count_call(key.as_str());
        let blocked = match plan {
            CallPlan::Blocked => {
                self.state.record_tool_result(name, &call.arguments, output.as_str());
                self.state.record_rejected_call(name, &call.arguments, RejectReason::RepeatBlocked);
                true
            },
            CallPlan::Malformed => {
                self.state.record_rejected_call(name, &call.arguments, RejectReason::BadJson);
                self.state.record_tool_result(name, &call.arguments, output.as_str());
                false
            },
            _ => {
                self.state.record_execution(name, &call.arguments, output.as_str());
                self.state.record_tool_result(name, &call.arguments, output.as_str());
                false
            },
        };
        if !blocked && !is_error_output(output.as_str()) && (same(name, "edit") || same(name, "write")) {
            self.state.forget_calls();
        }
        self.settled = self.settled + 1;
        let kept = history_output(output.as_str(), self.policy.max_history_chars);
        proof { lemma_texts_push(self.outputs@, kept); }
        self.outputs.push(kept);
        let done = call.settled();
        proof { lemma_calls_push(self.executed@, done); }
        self.executed.push(done);
    }
}

// ---------------------------------------------------------------------------
// The calls of an iteration are done
// ---------------------------------------------------------------------------

/// How many of the calls of a reply are dealt with.
pub open spec fn calls_taken(s: SessionView, calls: Seq<CallView>) -> int {
    if calls.len() < s.policy.max_calls_per_iteration {
        calls.len() as int
    } else {
        s.policy.max_calls_per_iteration as int
    }
}

/// The call that is to be dealt with next, if any is.
pub open spec fn next_of(s: SessionView, calls: Seq<CallView>) -> Option<CallView> {
    if s.settled < calls_taken(s, calls) {
        Some(calls[s.settled as int])
    } else {
        None
    }
}

/// What is told of calls that were left out.
pub open spec fn skipped_text(skipped: nat, limit: nat) -> Seq<char> {
    "Note: "@ + decimal(skipped)
        + " tool call(s) were skipped this iteration due to max_tool_calls_per_iteration="@ + decimal(limit) + "."@
}

/// The call under which that is told.
pub open spec fn skipped_note() -> CallView {
    CallView {
        id: "skipped_tool_calls_note"@,
        name: "note"@,
        arguments: JsonView::Object(seq![]),
        raw_arguments: None,
        raw_arguments_error: None,
    }
}

/// The state with calls that were left out.
pub open spec fn state_with_skipped(state: StateView, skipped: Seq<CallView>) -> StateView
    decreases skipped.len(),
{
    if skipped.len() == 0 {
        state
    } else {
        state_with_skipped(state, skipped.drop_last()).rejected(
            skipped.last().name,
            skipped.last().arguments,
            RejectReason::IterationSkip,
        )
    }
}

/// The outputs that are no notes.
pub open spec fn real_outputs(outputs: Seq<Seq<char>>) -> Seq<Seq<char>>
    decreases outputs.len(),
{
    if outputs.len() == 0 {
        Seq::empty()
    } else if begins(outputs.last(), "Note:"@) {
        real_outputs(outputs.drop_last())
    } else {
        real_outputs(outputs.drop_last()).push(outputs.last())
    }
}

/// All of the outputs are errors.
pub open spec fn all_errors(outputs: Seq<Seq<char>>) -> bool {
    forall|i: int| 0 <= i < outputs.len() ==> is_error(#[trigger] outputs[i])
}

/// There were outputs, and all of them are errors.
pub open spec fn all_failed(outputs: Seq<Seq<char>>) -> bool {
    let told = real_outputs(outputs);
    told.len() > 0 && all_errors(told)
}

/// What a model is told all of whose calls fail.
pub open spec fn stuck_hint() -> Seq<char> {
    "Every tool call for several consecutive iterations has failed. Stop attempting tool calls and output a BLOCKED: section listing exactly what is preventing progress and what the user must resolve."@
}

/// The run with what is told of calls that were left out.
pub open spec fn with_skipped(s: SessionView, calls: Seq<CallView>) -> SessionView {
    let skipped = calls.skip(calls_taken(s, calls));
    if skipped.len() == 0 {
        s
    } else {
        SessionView {
            state: state_with_skipped(s.state, skipped),
            outputs: s.outputs.push(
                skipped_text(skipped.len(), s.policy.max_calls_per_iteration as nat),
            ),
            executed: s.executed.push(skipped_note()),
            ..s
        }
    }
}

/// The run with its calls and outputs handed back.
pub open spec fn with_results(s: SessionView, thoughts: Seq<JsonView>) -> SessionView {
    SessionView { messages: s.messages + result_messages(s.executed, s.outputs, thoughts), ..s }
}

/// The run with a hint where it has been stuck for too long.
pub open spec fn unstuck(s: SessionView) -> SessionView {
    let failed = if all_failed(s.outputs) { s.state.consecutive_error_iters + 1 } else { 0 };
    if failed < s.policy.max_consecutive_error_iters {
        SessionView { state: StateView { consecutive_error_iters: failed, ..s.state }, ..s }
    } else {
        SessionView {
            state: StateView { consecutive_error_iters: 0, ..s.state },
            messages: with_hint(s.messages, stuck_hint()),
            ..s
        }
    }
}

/// The run once the calls of a reply are done.
pub open spec fn calls_done(s: SessionView, calls: Seq<CallView>, thoughts: Seq<JsonView>) -> SessionView {
    unstuck(with_results(with_skipped(s, calls), thoughts))
}

/// Adds messages to the talk.
fn push_messages(messages: &mut Vec<Json>, new: Vec<Json>)
    ensures
        list_view(final(messages)@) == list_view(old(messages)@) + list_view(new@),
{
    broadcast use group_json_views;

    let ghost before = list_view(messages@);
    let ghost added = list_view(new@);
    assert(before + added.take(0) =~= before);
    for m in it: new
        invariant
            it.seq() == new@,
            added == list_view(new@),
            list_view(messages@) == before + added.take(it.index()),
    {
        assert(added[it.index()] == m@);
        messages.push(m);
        assert(before + added.take(it.index() + 1) =~= (before + added.take(it.index())).push(added[it.index()]));
    }
    assert(added.take(added.len() as int) =~= added);
}

/// Whether there were outputs, and all of them are errors.
fn check_all_failed(outputs: &Vec<String>) -> (r: bool)
    ensures
        r == all_failed(texts(outputs@)),
{
    let ghost all = texts(outputs@);
    let mut any = false;
    let mut failed = true;
    assert(real_outputs(all.take(0)) =~= Seq::empty());
    for i in 0..outputs.len()
        invariant
            all == texts(outputs@),
            any == (real_outputs(all.take(i as int)).len() > 0),
            failed == all_errors(real_outputs(all.take(i as int))),
    {
        let ghost before = real_outputs(all.take(i as int));
        let ghost after = real_outputs(all.take(i + 1));
        proof {
            assert(all.take(i + 1).drop_last() =~= all.take(i as int));
            assert(all.take(i + 1).last() == outputs@[i as int]@);
        }
        let output = outputs[i].as_str();
        if !starts_with(output, "Note:") {
            any = true;
            assert(after == before.push(output@));
            if !is_error_output(output) {
                failed = false;
                assert(!is_error(after[before.len() as int]));
            } else {
                proof {
                    if failed {
                        assert forall|k: int| 0 <= k < after.len() implies is_error(#[trigger] after[k]) by {
                            if k < before.len() {
                                assert(after[k] == before[k]);
                            }
                        }
                    } else {
                        let k = choose|k: int| 0 <= k < before.len() && !is_error(#[trigger] before[k]);
                        assert(after[k] == before[k]);
                    }
                }
            }
        }
    }
    assert(all.take(outputs@.len() as int) =~= all);
    any && failed
}

impl AgentSession {
    /// Keeps the calls that are left out, and tells of them.
    fn append_skipped_tool_calls(&mut self, calls: &Vec<ToolCall>)
        requires
            old(self).wf(),
        ensures
            final(self).wf(),
            final(self)@ == with_skipped(old(self)@, calls_view(calls@)),
    {
        let n = calls.len();
        let ghost all = calls_view(calls@);
        let limit = self.policy.max_calls_per_iteration;
        let start: usize = if (n as u64) < limit as u64 { n } else { limit as usize };
        let ghost before = self@;
        let ghost skipped = all.skip(start as int);
        if start == n {
            assert(skipped =~= Seq::empty());
            return;
        }
        assert(state_with_skipped(before.state, skipped.take(0)) == before.state) by {
            assert(skipped.take(0) =~= Seq::empty());
        }
        for i in start..n
            invariant
                start <= i <= n == calls@.len(),
                all == calls_view(calls@),
                skipped == all.skip(start as int),
                self@ == (SessionView { state: state_with_skipped(before.state, skipped.take(i - start)), ..before }),
        {
            proof {
                assert(skipped.take(i + 1 - start).drop_last() =~= skipped.take(i - start));
                assert(skipped.take(i + 1 - start).last() == calls@[i as int]@);
            }
            self.state.record_rejected_call(
                calls[i].name.as_str(),
                &calls[i].arguments,
                RejectReason::IterationSkip,
            );
        }
        assert(skipped.take(n - start) =~= skipped);
        proof { lemma_skipped_keeps(before.state, skipped); }
        let mut note = String::from_str("Note: ");
        note.append(decimal_text((n - start) as u64).as_str());
        note.append(" tool call(s) were skipped this iteration due to max_tool_calls_per_iteration=");
        note.append(decimal_text(limit as u64).as_str());
        note.append(".");
        proof { lemma_texts_push(self.outputs@, note); }
        self.outputs.push(note);
        let call = ToolCall {
            id: String::from_str("skipped_tool_calls_note"),
            name: String::from_str("note"),
            arguments: empty_object(),
            raw_arguments: None,
            raw_arguments_error: None,
        };
        proof { lemma_calls_push(self.executed@, call); }
        self.executed.push(call);
    }

    /// The call that is to be dealt with next, of those that a reply asks for; none
    /// where they are done, be it that there are no more or that an iteration may have
    /// no more.
    pub fn next_call<'a>(&self, calls: &'a Vec<ToolCall>) -> (r: Option<&'a ToolCall>)
        ensures
            match next_of(self@, calls_view(calls@)) {
                Some(c) => r matches Some(call) && call@ == c,
                None => r is None,
            },
    {
        if self.settled < self.policy.max_calls_per_iteration && (self.settled as u64) < calls.len() as u64 {
            assert(calls_view(calls@)[self.settled as int] == calls@[self.settled as int]@);
            Some(&calls[self.settled as usize])
        } else {
            None
        }
    }

    /// Hands the calls and their outputs back, once none is to be dealt with any more.
    pub fn finish_calls(&mut self, calls: &Vec<ToolCall>, reasoning_blocks: &Vec<Json>)
        requires
            old(self).wf(),
            next_of(old(self)@, calls_view(calls@)) is None,
        ensures
            final(self).wf(),
            final(self)@ == calls_done(old(self)@, calls_view(calls@), list_view(reasoning_blocks@)),
    {
        broadcast use group_json_views;

        self.append_skipped_tool_calls(calls);
        let new = format_tool_result_messages(&self.executed, &self.outputs, reasoning_blocks);
        push_messages(&mut self.messages, new);
        let failed: u32 = if check_all_failed(&self.outputs) { self.state.consecutive_error_iters + 1 } else { 0 };
        if failed < self.policy.max_consecutive_error_iters {
            self.state.consecutive_error_iters = failed;
        } else {
            self.state.consecutive_error_iters = 0;
            append_hint(
                &mut self.messages,
                "Every tool call for several consecutive iterations has failed. Stop attempting tool calls and output a BLOCKED: section listing exactly what is preventing progress and what the user must resolve.",
            );
        }
    }

    /// What came of the run.
    pub fn into_result(self) -> (r: RunResult)
        ensures
            maybe_text(r.final_text) == self@.final_text,
            r.stop_reason@ == stop_word(
                match self@.stop {
                    Some(reason) => reason,
                    None => StopReason::MaxIterations,
                },
            ),
            r.usage == self@.state.usage,
            r.iterations == self@.iteration,
            results_view(r.tool_results@) == self@.state.tool_results,
            rejected_view(r.rejected_calls@) == self@.state.rejected_calls,
            r.iteration_telemetry@ == self@.state.iteration_telemetry,
            self.wf() ==> tally(r.usage) == tally_of(r.iteration_telemetry@),
            self.wf() && !self.awaits ==> r.iteration_telemetry@.len() == r.iterations,
            self.wf() ==> r.iterations <= self@.max_iterations,
            self.wf() ==> (r.stop_reason@ == stop_word(StopReason::FinalText) <==> r.final_text is Some),
            self.wf() && r.final_text is Some ==> r.final_text->0@.len() > 0 && trim_of(r.final_text->0@)
                == r.final_text->0@,
            self.wf() && !goes_on(self@) && r.stop_reason@ == stop_word(StopReason::MaxIterations) ==> r.iterations
                == self@.max_iterations,
    {
        proof {
            reveal_strlit("final_text");
            reveal_strlit("max_iterations");
            reveal_strlit("tool_budget");
            assert("final_text"@.len() == 10 && "max_iterations"@.len() == 14 && "tool_budget"@.len() == 11);
        }
        let reason = match self.stop {
            Some(reason) => reason,
            None => StopReason::MaxIterations,
        };
        RunResult {
            final_text: self.final_text,
            stop_reason: String::from_str(reason.as_str()),
            usage: self.state.usage,
            iterations: self.iteration,
            tool_results: self.state.tool_results,
            rejected_calls: self.state.rejected_calls,
            iteration_telemetry: self.state.iteration_telemetry,
        }
    }
}

/// Calls that are left out change nothing but the list of rejected calls.
proof fn lemma_skipped_keeps(state: StateView, skipped: Seq<CallView>)
    ensures
        state_with_skipped(state, skipped) == (StateView {
            rejected_calls: state_with_skipped(state, skipped).rejected_calls,
            ..state
        }),
    decreases skipped.len(),
{
    if skipped.len() > 0 {
        lemma_skipped_keeps(state, skipped.drop_last());
    }
}

// ---------------------------------------------------------------------------
// Laws
// ---------------------------------------------------------------------------

/// A call that has been made as often as it is let through is not carried out again:
/// it is answered with an error, and kept as a rejected call alone.
pub proof fn law_repeated_call_is_blocked(s: SessionView, call: CallView, raw: Seq<char>)
    requires
        count_in(s.state.call_counts, call_key(call.name, call.arguments)) >= max_repeats(s.policy, call.name),
    ensures
        plan_of(s, call) is Blocked,
        answer_of(s, call, raw) == blocked_text(max_repeats(s.policy, call.name)),
        after_call(s, call, raw).state.tool_calls_total == s.state.tool_calls_total,
        after_call(s, call, raw).state.tool_results == s.state.tool_results,
{
}

/// A tool is run only where there is one of that name that may be called, and the
/// arguments are an object as its schema asks.
pub proof fn law_only_conforming_calls_run(s: SessionView, call: CallView)
    requires
        plan_of(s, call) is Run,
    ensures
        ({
            let i = tool_index(s.tools, call.name);
            &&& 0 <= i < s.tools.len()
            &&& s.tools[i].name == call.name
            &&& s.tools[i].enabled
            &&& call.arguments is Object
            &&& crate::schema::conforms(s.tools[i].parameters, call.arguments)
            &&& call.raw_arguments_error is None
        }),
{
    lemma_tool_index(s.tools, call.name);
    let i = tool_index(s.tools, call.name);
    crate::schema::law_faultless_iff_conforming(s.tools[i].parameters, call.arguments, "args"@);
}

proof fn lemma_tool_index(tools: Seq<ToolView>, name: Seq<char>)
    ensures
        0 <= tool_index(tools, name) <= tools.len(),
        tool_index(tools, name) < tools.len() ==> tools[tool_index(tools, name)].name == name,
    decreases tools.len(),
{
    if tools.len() > 0 && tools[0].name != name {
        lemma_tool_index(tools.skip(1), name);
    }
}

/// Each call that is dealt with is kept either as carried out or as rejected, never
/// as both; it is rejected exactly where it was blocked or could not be read.
pub proof fn law_call_is_executed_or_rejected(s: SessionView, call: CallView, raw: Seq<char>)
    ensures
        ({
            let t = after_call(s, call, raw).state;
            if plan_of(s, call) is Blocked || plan_of(s, call) is Malformed {
                &&& t.tool_results == s.state.tool_results
                &&& t.tool_calls_total == s.state.tool_calls_total
                &&& t.rejected_calls.len() == s.state.rejected_calls.len() + 1
            } else {
                &&& t.rejected_calls == s.state.rejected_calls
                &&& t.tool_results.len() == s.state.tool_results.len() + 1
                &&& t.tool_calls_total == s.state.tool_calls_total + 1
            }
        }),
{
}

/// Once an edit or a write has succeeded, every call may be made again.
pub proof fn law_change_lets_calls_repeat(s: SessionView, call: CallView, raw: Seq<char>, key: Seq<char>)
    requires
        plan_of(s, call) is Run,
        !is_error(raw),
        call.name == "edit"@ || call.name == "write"@,
    ensures
        count_in(after_call(s, call, raw).state.call_counts, key) == 0,
{
}

/// Any other call that is dealt with counts once more, and no other call does.
pub proof fn law_calls_add_up(s: SessionView, call: CallView, raw: Seq<char>, other: Seq<char>)
    requires
        !changed_files(call.name, answer_of(s, call, raw)),
    ensures
        ({
            let key = call_key(call.name, call.arguments);
            let after = after_call(s, call, raw).state.call_counts;
            &&& count_in(after, key) == count_in(s.state.call_counts, key) + 1
            &&& other != key ==> count_in(after, other) == count_in(s.state.call_counts, other)
        }),
{
    super::state::law_counting_is_local(s.state, call_key(call.name, call.arguments), other);
}

/// A run that has used up its calls ends when the model asks for another, without an
/// answer, whatever text comes with it.
pub proof fn law_budget_ends_run(s: SessionView, r: ResponseView)
    requires
        s.state.tool_calls_total >= s.policy.max_tool_calls_total,
        r.tool_calls.len() > 0,
    ensures
        step_after(s, r) == Step::Stop,
        replied(s, r).stop == Some(StopReason::ToolBudget),
        replied(s, r).final_text is None,
{
}

/// Tool calls come before text: a reply that asks for calls never ends a run with an
/// answer.
pub proof fn law_calls_come_before_text(s: SessionView, r: ResponseView)
    requires
        r.tool_calls.len() > 0,
        s.stop is None,
    ensures
        replied(s, r).stop != Some(StopReason::FinalText),
        step_after(s, r) == Step::Calls ==> replied(s, r).stop is None,
{
}

/// A model that replies with nothing is told so once, and no more.
pub proof fn law_empty_reply_is_hinted_once(s: SessionView, r: ResponseView)
    requires
        r.tool_calls.len() == 0,
        trim_of(r.text).len() == 0,
    ensures
        replied(s, r).nudged,
        s.nudged ==> replied(s, r).messages == s.messages,
        !s.nudged ==> replied(s, r).messages == with_hint(s.messages, empty_reply_hint(s.state.recent_errors)),
{
}

/// Errors are handed back whole; any other output is cut behind as many characters
/// as may be kept.
pub proof fn law_history_keeps_errors(output: Seq<char>, most: int)
    requires
        0 <= most,
    ensures
        is_error(output) ==> history_of(output, most) == output,
        output.len() > most && !is_error(output) ==> history_of(output, most).take(most) == output.take(most),
{
    if output.len() > most && !is_error(output) {
        assert(history_of(output, most).take(most) =~= output.take(most));
    }
}

/// The messages of a run begin with the system message.
pub proof fn law_opening_is_system_message(task: Seq<char>, system: Seq<char>, history: Seq<JsonView>)
    ensures
        opening(task, system, history).len() == history.len() + 2,
        crate::model::anthropic::has_role(opening(task, system, history)[0], "system"@),
{
    let m = message("system"@, JsonView::Str(system_text(system)));
    assert(opening(task, system, history)[0] == m);
    reveal_strlit("content");
    reveal_strlit("role");
    assert("content"@.len() == 7 && "role"@.len() == 4);
    let e = m->Object_0;
    assert(e.skip(1)[0] == ("role"@, JsonView::Str("system"@)));
    assert(crate::ordered::lookup(e.skip(1), "role"@) == Some(JsonView::Str("system"@)));
    assert(crate::ordered::lookup(e, "role"@) == crate::ordered::lookup(e.skip(1), "role"@));
}

/// No step of a run changes its system message, or takes messages away.
pub proof fn law_system_message_stays(
    s: SessionView,
    r: ResponseView,
    call: CallView,
    raw: Seq<char>,
    calls: Seq<CallView>,
    thoughts: Seq<JsonView>,
)
    requires
        s.messages.len() >= 2,
        crate::model::anthropic::has_role(s.messages[0], "system"@),
    ensures
        next_iteration(s).messages.len() >= s.messages.len(),
        next_iteration(s).messages[0] == s.messages[0],
        replied(s, r).messages.len() >= s.messages.len(),
        replied(s, r).messages[0] == s.messages[0],
        after_call(s, call, raw).messages == s.messages,
        calls_done(s, calls, thoughts).messages.len() >= s.messages.len(),
        calls_done(s, calls, thoughts).messages[0] == s.messages[0],
{
    super::context::law_system_is_not_user(s.messages[0]);
    super::context::law_context_leaves_system_alone(s.messages, next_block(s), 0);
}

/// A run has no more iterations than it may have: each step that begins one counts it,
/// and no other step changes the count or the limit.
pub proof fn law_iterations_are_bounded(
    s: SessionView,
    r: ResponseView,
    call: CallView,
    raw: Seq<char>,
    calls: Seq<CallView>,
    thoughts: Seq<JsonView>,
)
    ensures
        goes_on(s) ==> next_iteration(s).iteration == s.iteration + 1 && next_iteration(s).iteration <= s.max_iterations,
        next_iteration(s).max_iterations == s.max_iterations,
        replied(s, r).iteration == s.iteration,
        replied(s, r).max_iterations == s.max_iterations,
        after_call(s, call, raw).iteration == s.iteration,
        after_call(s, call, raw).max_iterations == s.max_iterations,
        calls_done(s, calls, thoughts).iteration == s.iteration,
        calls_done(s, calls, thoughts).max_iterations == s.max_iterations,
{
}

/// A run after calls were settled one after the other; `raws` is what the tools
/// answered.
pub open spec fn after_calls(s: SessionView, calls: Seq<CallView>, raws: Seq<Seq<char>>) -> SessionView
    decreases calls.len(),
{
    if calls.len() == 0 {
        s
    } else {
        after_call(after_calls(s, calls.drop_last(), raws), calls.last(), raws[calls.len() - 1])
    }
}

/// Settling calls carries out no more than there are.
proof fn lemma_calls_carried_out(s: SessionView, calls: Seq<CallView>, raws: Seq<Seq<char>>)
    ensures
        after_calls(s, calls, raws).state.tool_calls_total <= s.state.tool_calls_total + calls.len(),
    decreases calls.len(),
{
    if calls.len() > 0 {
        lemma_calls_carried_out(s, calls.drop_last(), raws);
        law_call_is_executed_or_rejected(
            after_calls(s, calls.drop_last(), raws),
            calls.last(),
            raws[calls.len() - 1],
        );
    }
}

/// A run exceeds its budget of calls by less than what one iteration may carry out.
pub proof fn law_calls_stay_near_budget(
    s: SessionView,
    r: ResponseView,
    calls: Seq<CallView>,
    raws: Seq<Seq<char>>,
)
    requires
        step_after(s, r) == Step::Calls,
        calls.len() <= s.policy.max_calls_per_iteration,
    ensures
        after_calls(replied(s, r), calls, raws).state.tool_calls_total < s.policy.max_tool_calls_total
            + s.policy.max_calls_per_iteration,
{
    lemma_calls_carried_out(replied(s, r), calls, raws);
}

/// The calls of a reply are dealt with from the first on, one after the other, until
/// as many have been as an iteration may have; what is left out is what follows them.
pub proof fn law_calls_are_taken_in_order(s: SessionView, calls: Seq<CallView>, raws: Seq<Seq<char>>, n: int)
    requires
        s.settled == 0,
        0 <= n <= calls_taken(s, calls),
    ensures
        ({
            let t = after_calls(s, calls.take(n), raws);
            &&& t.settled == n
            &&& n < calls_taken(s, calls) ==> next_of(t, calls) == Some(calls[n])
            &&& n == calls_taken(s, calls) ==> next_of(t, calls) is None
        }),
    decreases n,
{
    lemma_policy_stays(s, calls.take(n), raws);
    if n > 0 {
        assert(calls.take(n).drop_last() =~= calls.take(n - 1));
        law_calls_are_taken_in_order(s, calls, raws, n - 1);
    }
}

/// Settling calls leaves the limits as they are.
proof fn lemma_policy_stays(s: SessionView, calls: Seq<CallView>, raws: Seq<Seq<char>>)
    ensures
        after_calls(s, calls, raws).policy == s.policy,
    decreases calls.len(),
{
    if calls.len() > 0 {
        lemma_policy_stays(s, calls.drop_last(), raws);
    }
}

/// No step of a run loses count: each reply adds one record, with what it used, and
/// the other steps add none. So a run has one record for each iteration, and has used
/// what the records come to.
pub proof fn law_replies_are_recorded(
    s: SessionView,
    r: ResponseView,
    call: CallView,
    raw: Seq<char>,
    calls: Seq<CallView>,
    thoughts: Seq<JsonView>,
)
    requires
        s.is_recorded(),
    ensures
        goes_on(s) && !s.awaits ==> next_iteration(s).is_recorded(),
        s.awaits && s.state.usage.addable(usage_of(r.usage)) ==> {
            &&& replied(s, r).is_recorded()
            &&& replied(s, r).state.iteration_telemetry.len() == replied(s, r).iteration
        },
        after_call(s, call, raw).is_recorded(),
        calls_done(s, calls, thoughts).is_recorded(),
{
    let rows = s.state.iteration_telemetry;
    assert(rows.push(telemetry_of(s.iteration, r)).drop_last() =~= rows);
    lemma_skipped_keeps(s.state, calls.skip(calls_taken(s, calls)));
}

/// Where every call of so many iterations in a row has failed, the model is told to
/// stop, and the count begins anew; where one has not, the count begins anew too.
pub proof fn law_stuck_run_is_told(s: SessionView)
    ensures
        !all_failed(s.outputs) ==> unstuck(s).state.consecutive_error_iters == 0,
        all_failed(s.outputs) && s.state.consecutive_error_iters + 1 >= s.policy.max_consecutive_error_iters ==> {
            &&& unstuck(s).messages == with_hint(s.messages, stuck_hint())
            &&& unstuck(s).state.consecutive_error_iters == 0
        },
        all_failed(s.outputs) && s.state.consecutive_error_iters + 1 < s.policy.max_consecutive_error_iters ==> {
            &&& unstuck(s).messages == s.messages
            &&& unstuck(s).state.consecutive_error_iters == s.state.consecutive_error_iters + 1
        },
{
}

/// A name stands for the first tool that has it.
pub proof fn law_first_tool_of_a_name_counts(tools: Seq<ToolView>, name: Seq<char>, i: int)
    requires
        0 <= i <= tools.len(),
        forall|k: int| 0 <= k < i ==> (#[trigger] tools[k]).name != name,
    ensures
        i < tools.len() && tools[i].name == name ==> tool_index(tools, name) == i,
        i == tools.len() ==> tool_index(tools, name) == i,
    decreases i,
{
    if i > 0 {
        assert(tools[0].name != name);
        let rest = tools.skip(1);
        assert forall|k: int| 0 <= k < i - 1 implies (#[trigger] rest[k]).name != name by {
            assert(rest[k] == tools[k + 1]);
        }
        law_first_tool_of_a_name_counts(rest, name, i - 1);
    }
}

/// Every tool that may be called is offered, in order, and no other.
pub proof fn law_enabled_tools_are_offered(tools: Seq<ToolView>)
    ensures
        offered(tools) == tools.filter_map(
            |t: ToolView|
                if t.enabled {
                    Some(openai_tool(t))
                } else {
                    None
                },
        ),
    decreases tools.len(),
{
    if tools.len() > 0 {
        law_enabled_tools_are_offered(tools.drop_last());
    }
}

/// A call is carried out exactly where it has not been made too often, its arguments
/// could be read, and the first tool of its name may be called with them; a file may be
/// read more often than other calls are let through.
pub proof fn law_conforming_calls_run(s: SessionView, call: CallView, i: int)
    requires
        0 <= i < s.tools.len(),
        s.tools[i].name == call.name,
        forall|k: int| 0 <= k < i ==> (#[trigger] s.tools[k]).name != call.name,
    ensures
        ({
            let made = count_in(s.state.call_counts, call_key(call.name, call.arguments));
            let most = if call.name == "read"@ {
                s.policy.max_repeated_calls * s.policy.read_repeat_multiplier
            } else {
                s.policy.max_repeated_calls as int
            };
            &&& plan_of(s, call) is Blocked <==> made >= most
            &&& plan_of(s, call) is Malformed <==> made < most && call.raw_arguments_error is Some
            &&& plan_of(s, call) is Run <==> made < most && call.raw_arguments_error is None && s.tools[i].enabled
                && call.arguments is Object && crate::schema::conforms(s.tools[i].parameters, call.arguments)
        }),
{
    law_first_tool_of_a_name_counts(s.tools, call.name, i);
    crate::schema::law_faultless_iff_conforming(s.tools[i].parameters, call.arguments, "args"@);
}

/// A call of a tool that there is none of, that may not be called, or of arguments that
/// are no object, is told so.
pub proof fn law_refused_call_is_told_why(tools: Seq<ToolView>, name: Seq<char>, args: JsonView, i: int)
    requires
        0 <= i <= tools.len(),
        forall|k: int| 0 <= k < i ==> (#[trigger] tools[k]).name != name,
        i < tools.len() ==> tools[i].name == name,
    ensures
        i == tools.len() ==> tool_fault(tools, name, args) == Some("unknown tool "@ + quoted(name)),
        i < tools.len() && !tools[i].enabled ==> tool_fault(tools, name, args) == Some(
            "tool "@ + quoted(name) + " is disabled"@,
        ),
        i < tools.len() && tools[i].enabled && !(args is Object) ==> tool_fault(tools, name, args) == Some(
            "tool "@ + quoted(name) + " arguments must be an object"@,
        ),
        i < tools.len() && tools[i].enabled && args is Object ==> tool_fault(tools, name, args) == fault_of(
            tools[i].parameters,
            args,
            "args"@,
        ),
{
    law_first_tool_of_a_name_counts(tools, name, i);
}

/// Each call that is dealt with is handed back with its answer, behind those before it,
/// and nothing of the run changes but its state and these.
pub proof fn law_call_is_answered(s: SessionView, call: CallView, raw: Seq<char>)
    requires
        s.settled < u32::MAX,
    ensures
        ({
            let t = after_call(s, call, raw);
            let answer = answer_of(s, call, raw);
            let most = s.policy.max_history_chars as int;
            &&& t.outputs.len() == s.outputs.len() + 1
            &&& t.outputs.drop_last() == s.outputs
            &&& answer.len() <= most ==> t.outputs.last() == answer
            &&& is_error(answer) ==> t.outputs.last() == answer
            &&& t.executed.len() == s.executed.len() + 1
            &&& t.executed.drop_last() == s.executed
            &&& t.executed.last().id == call.id
            &&& t.executed.last().name == call.name
            &&& t.settled == s.settled + 1
            &&& plan_of(s, call) is Run ==> answer == raw
            &&& plan_of(s, call) matches PlanView::Refused(e) ==> answer == error_of(e)
            &&& t == (SessionView {
                state: t.state,
                settled: t.settled,
                outputs: t.outputs,
                executed: t.executed,
                ..s
            })
        }),
{
    let t = after_call(s, call, raw);
    assert(t.outputs.drop_last() =~= s.outputs);
    assert(t.executed.drop_last() =~= s.executed);
}

/// What a call leaves in the state: it is listed with its name and arguments, among the
/// calls that were carried out with how that went, or else among the rejected ones with
/// the reason; and it is the latest of the recent calls.
pub proof fn law_call_is_listed(s: SessionView, call: CallView, raw: Seq<char>)
    ensures
        ({
            let t = after_call(s, call, raw).state;
            let answer = answer_of(s, call, raw);
            &&& t.recent.len() > 0
            &&& t.recent.last().tool == call.name
            &&& t.recent.last().ok == !is_error(answer)
            &&& plan_of(s, call) is Blocked ==> t.rejected_calls.last().reason == RejectReason::RepeatBlocked
            &&& plan_of(s, call) is Malformed ==> t.rejected_calls.last().reason == RejectReason::BadJson
            &&& plan_of(s, call) is Blocked || plan_of(s, call) is Malformed ==> {
                &&& t.rejected_calls.last().name == call.name
                &&& t.rejected_calls.last().args == call.arguments
                &&& t.rejected_calls.drop_last() == s.state.rejected_calls
            }
            &&& plan_of(s, call) is Run || plan_of(s, call) is Refused ==> {
                &&& t.tool_results.last().name == call.name
                &&& t.tool_results.last().args == call.arguments
                &&& t.tool_results.last().ok == !is_error(answer)
                &&& t.tool_results.drop_last() == s.state.tool_results
            }
            &&& t.usage == s.state.usage
            &&& t.iteration_telemetry == s.state.iteration_telemetry
            &&& t.consecutive_error_iters == s.state.consecutive_error_iters
        }),
{
    let t = after_call(s, call, raw).state;
    let counted = s.state.counted(call_key(call.name, call.arguments));
    let answer = answer_of(s, call, raw);
    super::state::law_latest_calls_are_kept(s.state, call.name, call.arguments, answer);
    if plan_of(s, call) is Blocked || plan_of(s, call) is Malformed {
        assert(t.rejected_calls.drop_last() =~= s.state.rejected_calls);
    } else {
        assert(t.tool_results.drop_last() =~= s.state.tool_results);
    }
}

/// An output that is too long is handed back up to the limit, with how many characters
/// were left out; any other is handed back whole.
pub proof fn law_long_output_is_cut(output: Seq<char>, most: int)
    requires
        0 <= most,
    ensures
        output.len() <= most ==> history_of(output, most) == output,
        output.len() > most && !is_error(output) ==> history_of(output, most).skip(most) == "\n…[output truncated: "@
            + decimal((output.len() - most) as nat)
            + " chars omitted. Use read(path, offset=N) to page through the rest.]"@,
{
    if output.len() > most && !is_error(output) {
        assert(history_of(output, most).skip(most) =~= "\n…[output truncated: "@ + decimal(
            (output.len() - most) as nat,
        ) + " chars omitted. Use read(path, offset=N) to page through the rest.]"@);
    }
}

/// What a reply leads to: calls are dealt with while there is a budget for them; a reply
/// of text alone ends the run with that text; an empty one asks again. The reply is
/// recorded whatever it leads to.
pub proof fn law_reply_decides(s: SessionView, r: ResponseView)
    requires
        s.stop is None,
    ensures
        step_after(s, r) == Step::Calls <==> r.tool_calls.len() > 0 && s.state.tool_calls_total
            < s.policy.max_tool_calls_total,
        step_after(s, r) == Step::Again <==> r.tool_calls.len() == 0 && trim_of(r.text).len() == 0,
        replied(s, r).stop is Some <==> step_after(s, r) == Step::Stop,
        r.tool_calls.len() == 0 && trim_of(r.text).len() > 0 ==> replied(s, r).stop == Some(StopReason::FinalText)
            && replied(s, r).final_text == Some(trim_of(r.text)),
        step_after(s, r) != Step::Again ==> replied(s, r).messages == s.messages && replied(s, r).nudged == s.nudged,
        !replied(s, r).awaits,
        replied(s, r).tools == s.tools && replied(s, r).outputs == s.outputs && replied(s, r).executed == s.executed,
        replied(s, r).settled == s.settled && replied(s, r).policy == s.policy && replied(s, r).run_id == s.run_id,
        ({
            let t = replied(s, r).state;
            let row = t.iteration_telemetry.last();
            let u = usage_of(r.usage);
            &&& t.iteration_telemetry.len() == s.state.iteration_telemetry.len() + 1
            &&& t.iteration_telemetry.drop_last() == s.state.iteration_telemetry
            &&& row.iteration == s.iteration
            &&& row.input_tokens == u.input && row.output_tokens == u.output && row.reasoning_tokens == u.reasoning
            &&& row.cache_write_tokens == u.cache_write && row.cache_read_tokens == u.cache_read
            &&& row.tool_calls_requested == r.tool_calls.len() as u32
            &&& row.had_final_text == (trim_of(r.text).len() > 0)
            &&& t == (StateView { usage: t.usage, iteration_telemetry: t.iteration_telemetry, ..s.state })
        }),
{
    assert(replied(s, r).state.iteration_telemetry.drop_last() =~= s.state.iteration_telemetry);
}

/// A model that replied with nothing is told to mend its JSON exactly where one of the
/// recent errors speaks of it.
pub proof fn law_hint_follows_the_errors(errors: Seq<Seq<char>>, i: int)
    ensures
        0 <= i < errors.len() && contains_of(errors[i], "JSON"@) ==> empty_reply_hint(errors)
            == "Your last tool call could not be parsed because the arguments were not valid JSON. Please re-emit the tool call with a properly formed JSON object matching the tool schema."@,
        (forall|k: int| 0 <= k < errors.len() ==> !contains_of(#[trigger] errors[k], "JSON"@)) ==> empty_reply_hint(
            errors,
        ) == "Reply with either tool_calls (to take an action) or a final answer as text."@,
{
}

/// A run begins with what the caller says to the system and what every run is told, then
/// the whole history in order, then the task.
pub proof fn law_opening_holds_all(task: Seq<char>, system: Seq<char>, history: Seq<JsonView>, i: int)
    requires
        0 <= i < history.len(),
    ensures
        opening(task, system, history)[i + 1] == history[i],
        opening(task, system, history).last() == message("user"@, JsonView::Str(task)),
        trim_of(system).len() == 0 ==> opening(task, system, history)[0] == message(
            "system"@,
            JsonView::Str(trim_of(REACT_NUDGE@)),
        ),
        trim_of(system).len() > 0 ==> opening(task, system, history)[0] == message(
            "system"@,
            JsonView::Str(trim_of(system) + "\n\n"@ + trim_of(REACT_NUDGE@)),
        ),
{
}

/// A run goes on until it has ended or has had all of its iterations; a new iteration
/// starts with no calls settled, and keeps all that the run has come to.
pub proof fn law_iterations_go_on(s: SessionView)
    ensures
        goes_on(s) <==> s.stop is None && s.iteration < s.max_iterations,
        next_iteration(s).awaits,
        next_iteration(s).settled == 0,
        next_iteration(s).outputs.len() == 0 && next_iteration(s).executed.len() == 0,
        next_iteration(s).state == s.state,
        next_iteration(s).tools == s.tools && next_iteration(s).policy == s.policy,
        next_iteration(s).nudged == s.nudged && next_iteration(s).stop == s.stop,
        next_iteration(s).final_text == s.final_text && next_iteration(s).run_id == s.run_id,
{
}

/// What the model is told of the run at the beginning of an iteration is where the run
/// stands then: the iteration that begins, and the calls and errors so far.
pub proof fn law_iteration_begins_with_context(s: SessionView)
    ensures
        next_iteration(s).messages == with_context(
            s.messages,
            context_block(
                s.state.tool_calls_total as nat,
                s.state.recent_errors,
                s.state.recent,
                (s.iteration + 1) as nat,
                s.max_iterations as nat,
                s.policy.max_tool_calls_total as nat,
            ),
        ),
{
}

/// All calls that are left out are listed as such, in order, behind the calls that were
/// rejected before; nothing else of the state changes.
pub proof fn law_skipped_calls_are_listed(state: StateView, skipped: Seq<CallView>, i: int)
    ensures
        state_with_skipped(state, skipped).rejected_calls.len() == state.rejected_calls.len() + skipped.len(),
        0 <= i < state.rejected_calls.len() ==> state_with_skipped(state, skipped).rejected_calls[i]
            == state.rejected_calls[i],
        0 <= i < skipped.len() ==> ({
            let kept = state_with_skipped(state, skipped).rejected_calls[state.rejected_calls.len() + i];
            &&& kept.name == skipped[i].name
            &&& kept.args == skipped[i].arguments
            &&& kept.reason == RejectReason::IterationSkip
        }),
        state_with_skipped(state, skipped) == (StateView {
            rejected_calls: state_with_skipped(state, skipped).rejected_calls,
            ..state
        }),
    decreases skipped.len(),
{
    lemma_skipped_keeps(state, skipped);
    if skipped.len() > 0 {
        law_skipped_calls_are_listed(state, skipped.drop_last(), i);
    }
}

/// Calls beyond what an iteration may have are left out, all of them, and the model is
/// told how many; where there are none, nothing is told.
pub proof fn law_skipped_calls_are_told(s: SessionView, calls: Seq<CallView>)
    ensures
        calls.len() <= s.policy.max_calls_per_iteration ==> with_skipped(s, calls) == s,
        calls.len() > s.policy.max_calls_per_iteration ==> ({
            let t = with_skipped(s, calls);
            let limit = s.policy.max_calls_per_iteration as int;
            &&& t.outputs == s.outputs.push(
                "Note: "@ + decimal((calls.len() - limit) as nat)
                    + " tool call(s) were skipped this iteration due to max_tool_calls_per_iteration="@ + decimal(
                    limit as nat,
                ) + "."@,
            )
            &&& t.executed.drop_last() == s.executed
            &&& t.executed.len() == s.executed.len() + 1
            &&& t.executed.last().id == "skipped_tool_calls_note"@
            &&& t.executed.last().name == "note"@
            &&& t.state == state_with_skipped(s.state, calls.subrange(limit, calls.len() as int))
            &&& t == (SessionView { state: t.state, outputs: t.outputs, executed: t.executed, ..s })
        }),
{
    let limit = s.policy.max_calls_per_iteration as int;
    if calls.len() > limit {
        assert(calls.skip(limit) =~= calls.subrange(limit, calls.len() as int));
        assert(with_skipped(s, calls).executed.drop_last() =~= s.executed);
    }
}

/// All has failed exactly where there is an output that is no note, and every such
/// output is an error.
pub proof fn law_all_failed_iff(outputs: Seq<Seq<char>>)
    ensures
        real_outputs(outputs) == outputs.filter(|o: Seq<char>| !begins(o, "Note:"@)),
        all_failed(outputs) <==> {
            &&& exists|i: int| 0 <= i < outputs.len() && !begins(#[trigger] outputs[i], "Note:"@)
            &&& forall|i: int|
                0 <= i < outputs.len() ==> begins(#[trigger] outputs[i], "Note:"@) || is_error(outputs[i])
        },
{
    lemma_real_outputs(outputs);
    let f = |o: Seq<char>| !begins(o, "Note:"@);
    let told = real_outputs(outputs);
    assert forall|i: int| 0 <= i < outputs.len() && !begins(#[trigger] outputs[i], "Note:"@) implies told.contains(
        outputs[i],
    ) by {
        outputs.lemma_filter_contains(f, i);
    }
    assert forall|k: int| 0 <= k < told.len() implies outputs.contains(#[trigger] told[k]) && !begins(
        told[k],
        "Note:"@,
    ) by {
        outputs.lemma_filter_pred(f, k);
        outputs.lemma_filter_contains_rev(f, told[k]);
    }
    if told.len() > 0 {
        assert(outputs.contains(told[0]) && !begins(told[0], "Note:"@));
    }
    if all_failed(outputs) {
        assert forall|i: int| 0 <= i < outputs.len() implies begins(#[trigger] outputs[i], "Note:"@) || is_error(
            outputs[i],
        ) by {
            if !begins(outputs[i], "Note:"@) {
                assert(told.contains(outputs[i]));
                let k = choose|k: int| 0 <= k < told.len() && told[k] == outputs[i];
                assert(is_error(told[k]));
            }
        }
    }
}

/// The outputs that are no notes are all of them, in order.
proof fn lemma_real_outputs(outputs: Seq<Seq<char>>)
    ensures
        real_outputs(outputs) == outputs.filter(|o: Seq<char>| !begins(o, "Note:"@)),
    decreases outputs.len(),
{
    reveal(Seq::filter);
    if outputs.len() > 0 {
        lemma_real_outputs(outputs.drop_last());
    }
}

/// Once the calls of a reply are done, they are handed back with their outputs and the
/// thoughts behind the messages before, and the calls that were left out are told of.
pub proof fn law_results_are_handed_back(s: SessionView, calls: Seq<CallView>, thoughts: Seq<JsonView>)
    requires
        s.policy.max_consecutive_error_iters > 0,
    ensures
        ({
            let told = with_skipped(s, calls);
            let t = calls_done(s, calls, thoughts);
            let all = s.messages + result_messages(told.executed, told.outputs, thoughts);
            let failed = s.state.consecutive_error_iters + 1;
            &&& !all_failed(told.outputs) || failed < s.policy.max_consecutive_error_iters ==> t.messages == all
            &&& all_failed(told.outputs) && failed >= s.policy.max_consecutive_error_iters ==> t.messages == with_hint(
                all,
                stuck_hint(),
            )
            &&& t.outputs == told.outputs && t.executed == told.executed
            &&& t.state == (StateView { consecutive_error_iters: t.state.consecutive_error_iters, ..told.state })
            &&& t == (SessionView {
                state: t.state,
                messages: t.messages,
                outputs: t.outputs,
                executed: t.executed,
                ..s
            })
        }),
{
    lemma_skipped_keeps(s.state, calls.skip(calls_taken(s, calls)));
}

/// What the iterations come to is the sum of what each used.
pub proof fn law_tally_adds(a: Seq<IterationTelemetry>, b: Seq<IterationTelemetry>)
    ensures
        tally_of(a + b).input == tally_of(a).input + tally_of(b).input,
        tally_of(a + b).output == tally_of(a).output + tally_of(b).output,
        tally_of(a + b).reasoning == tally_of(a).reasoning + tally_of(b).reasoning,
        tally_of(a + b).cache_write == tally_of(a).cache_write + tally_of(b).cache_write,
        tally_of(a + b).cache_read == tally_of(a).cache_read + tally_of(b).cache_read,
        a.len() == 1 ==> tally_of(a).input == a[0].input_tokens && tally_of(a).output == a[0].output_tokens
            && tally_of(a).reasoning == a[0].reasoning_tokens && tally_of(a).cache_write == a[0].cache_write_tokens
            && tally_of(a).cache_read == a[0].cache_read_tokens,
    decreases b.len(),
{
    if a.len() == 1 {
        assert(tally_of(a.drop_last()).input == 0);
        assert(a.last() == a[0]);
    }
    if b.len() == 0 {
        assert(a + b =~= a);
    } else {
        assert((a + b).drop_last() =~= a + b.drop_last());
        law_tally_adds(a, b.drop_last());
    }
}

/// A run that has just started has made no call and used nothing: ended there, it tells of
/// no iteration and of no answer.
pub proof fn law_fresh_run_is_empty(
    a: Agent,
    task: &str,
    system: &str,
    history: Vec<Json>,
    id: &str,
    s: AgentSession,
    r: RunResult,
)
    requires
        call_ensures(Agent::start, (&a, task, system, &history, id), s),
        call_ensures(AgentSession::into_result, (s,), r),
    ensures
        r.iterations == 0,
        r.final_text is None,
        r.tool_results@.len() == 0 && r.rejected_calls@.len() == 0 && r.iteration_telemetry@.len() == 0,
        s@.max_iterations == a.max_iterations,
        s@.tools.len() == a.tools@.len(),
{
    assert(results_view(r.tool_results@).len() == 0);
    assert(rejected_view(r.rejected_calls@).len() == 0);
}

} // verus!
