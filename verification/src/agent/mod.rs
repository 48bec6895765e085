//! The agent: a bounded loop of model replies and tool calls.
pub mod context;
pub mod events;
pub mod session;
pub mod state;

use vstd::prelude::*;

use crate::json::{Json, JsonView};
use crate::model::maybe_text;
use crate::usage::TokenUsage;

verus! {

/// The limits of a run.
#[derive(Clone, Copy)]
pub struct AgentPolicy {
    pub max_tool_calls_total: u32,
    pub max_calls_per_iteration: u32,
    pub max_repeated_calls: u32,
    /// Reads get more repeats, for paging and for looking at what was changed.
    pub read_repeat_multiplier: u32,
    pub max_consecutive_error_iters: u32,
    pub max_history_chars: usize,
}

/// The usual limits.
pub open spec fn usual_policy() -> AgentPolicy {
    AgentPolicy {
        max_tool_calls_total: 120,
        max_calls_per_iteration: 10,
        max_repeated_calls: 2,
        read_repeat_multiplier: 3,
        max_consecutive_error_iters: 3,
        max_history_chars: 8000,
    }
}

impl Default for AgentPolicy {
    fn default() -> (r: AgentPolicy)
        ensures
            r == usual_policy(),
    {
        AgentPolicy {
            max_tool_calls_total: 120,
            max_calls_per_iteration: 10,
            max_repeated_calls: 2,
            read_repeat_multiplier: 3,
            max_consecutive_error_iters: 3,
            max_history_chars: 8000,
        }
    }
}

/// A tool call that was carried out.
pub struct ToolResult {
    pub name: String,
    pub args: Json,
    pub ok: bool,
    pub output_preview: String,
}

/// Why a tool call was not carried out.
#[derive(Clone, Copy, PartialEq, Eq, Structural)]
pub enum RejectReason {
    RepeatBlocked,
    BadJson,
    IterationSkip,
}

/// A tool call that was not carried out.
pub struct RejectedCall {
    pub name: String,
    pub args: Json,
    pub reason: RejectReason,
}

/// The counts of one iteration.
#[derive(Clone, Copy)]
pub struct IterationTelemetry {
    pub iteration: u32,
    pub input_tokens: u64,
    pub output_tokens: u64,
    pub reasoning_tokens: u64,
    pub cache_write_tokens: u64,
    pub cache_read_tokens: u64,
    pub tool_calls_requested: u32,
    pub had_final_text: bool,
}

/// Why a run ended.
#[derive(Clone, Copy, PartialEq, Eq, Structural)]
pub enum StopReason {
    FinalText,
    MaxIterations,
    ToolBudget,
}

/// What came of a run.
pub struct RunResult {
    pub final_text: Option<String>,
    pub stop_reason: String,
    pub usage: TokenUsage,
    pub iterations: u32,
    pub tool_results: Vec<ToolResult>,
    pub rejected_calls: Vec<RejectedCall>,
    pub iteration_telemetry: Vec<IterationTelemetry>,
}

/// What a carried-out call says.
pub struct ToolResultView {
    pub name: Seq<char>,
    pub args: JsonView,
    pub ok: bool,
    pub output_preview: Seq<char>,
}

/// What a rejected call says.
pub struct RejectedView {
    pub name: Seq<char>,
    pub args: JsonView,
    pub reason: RejectReason,
}

impl ToolResult {
    /// What the carried-out call says.
    pub open spec fn view(&self) -> ToolResultView {
        ToolResultView {
            name: self.name@,
            args: self.args@,
            ok: self.ok,
            output_preview: self.output_preview@,
        }
    }
}

impl RejectedCall {
    /// What the rejected call says.
    pub open spec fn view(&self) -> RejectedView {
        RejectedView { name: self.name@, args: self.args@, reason: self.reason }
    }
}

/// What a list of carried-out calls says.
pub open spec fn results_view(v: Seq<ToolResult>) -> Seq<ToolResultView> {
    v.map_values(|t: ToolResult| t@)
}

/// What a list of rejected calls says.
pub open spec fn rejected_view(v: Seq<RejectedCall>) -> Seq<RejectedView> {
    v.map_values(|r: RejectedCall| r@)
}

/// The reason in a word.
pub open spec fn reject_word(r: RejectReason) -> Seq<char> {
    match r {
        RejectReason::RepeatBlocked => "repeat_blocked"@,
        RejectReason::BadJson => "bad_json"@,
        RejectReason::IterationSkip => "iteration_skip"@,
    }
}

/// The reason in a word.
pub open spec fn stop_word(r: StopReason) -> Seq<char> {
    match r {
        StopReason::FinalText => "final_text"@,
        StopReason::MaxIterations => "max_iterations"@,
        StopReason::ToolBudget => "tool_budget"@,
    }
}

impl RejectReason {
    /// The reason in a word.
    pub fn as_str(&self) -> (r: &'static str)
        ensures
            r@ == reject_word(*self),
    {
        match self {
            RejectReason::RepeatBlocked => "repeat_blocked",
            RejectReason::BadJson => "bad_json",
            RejectReason::IterationSkip => "iteration_skip",
        }
    }
}

impl StopReason {
    /// The reason in a word.
    pub fn as_str(&self) -> (r: &'static str)
        ensures
            r@ == stop_word(*self),
    {
        match self {
            StopReason::FinalText => "final_text",
            StopReason::MaxIterations => "max_iterations",
            StopReason::ToolBudget => "tool_budget",
        }
    }
}

/// What is said of a run: its answer, or why there is none.
pub open spec fn outcome_text(final_text: Option<Seq<char>>, stop_reason: Seq<char>) -> Seq<char> {
    match final_text {
        Some(t) => t,
        None => if stop_reason == "tool_budget"@ {
            "[Agent stopped: tool-call budget reached without a final answer]"@
        } else {
            "[Agent stopped: "@ + stop_reason + " reached without a final answer]"@
        },
    }
}

impl RunResult {
    /// What is said of the run: its answer, or why there is none.
    pub fn to_text(&self) -> (r: String)
        ensures
            r@ == outcome_text(maybe_text(self.final_text), self.stop_reason@),
    {
        match &self.final_text {
            Some(t) => t.clone(),
            None => if crate::text::same(self.stop_reason.as_str(), "tool_budget") {
                String::from_str("[Agent stopped: tool-call budget reached without a final answer]")
            } else {
                let mut out = String::from_str("[Agent stopped: ");
                out.append(self.stop_reason.as_str());
                out.append(" reached without a final answer]");
                out
            },
        }
    }
}

// ---------------------------------------------------------------------------
// Laws
// ---------------------------------------------------------------------------

/// Different reasons have different words.
pub proof fn law_reasons_are_told_apart(a: StopReason, b: StopReason, c: RejectReason, d: RejectReason)
    ensures
        stop_word(a) == stop_word(b) ==> a == b,
        reject_word(c) == reject_word(d) ==> c == d,
{
    reveal_strlit("final_text");
    reveal_strlit("max_iterations");
    reveal_strlit("tool_budget");
    reveal_strlit("repeat_blocked");
    reveal_strlit("bad_json");
    reveal_strlit("iteration_skip");
    assert("final_text"@.len() == 10 && "max_iterations"@.len() == 14 && "tool_budget"@.len() == 11);
    assert("repeat_blocked"@[0] == 'r' && "bad_json"@[0] == 'b' && "iteration_skip"@[0] == 'i');
}

/// The answer of a run is said as it is; of a run without one, its reason is said.
pub proof fn law_outcome_is_answer_or_reason(answer: Seq<char>, reason: StopReason)
    ensures
        outcome_text(Some(answer), stop_word(reason)) == answer,
        reason == StopReason::ToolBudget ==> outcome_text(None, stop_word(reason))
            == "[Agent stopped: tool-call budget reached without a final answer]"@,
        reason != StopReason::ToolBudget ==> outcome_text(None, stop_word(reason)) == "[Agent stopped: "@ + stop_word(
            reason,
        ) + " reached without a final answer]"@,
{
    law_reasons_are_told_apart(reason, StopReason::ToolBudget, RejectReason::BadJson, RejectReason::BadJson);
}

/// By default a run makes up to 120 calls, ten in one iteration, and the same call twice at
/// most, but for reads, which may come back three times as often. It stops after three
/// iterations in a row whose calls all fail.
pub proof fn law_usual_limits(p: AgentPolicy)
    requires
        call_ensures(AgentPolicy::default, (), p),
    ensures
        p.max_tool_calls_total == 120 && p.max_calls_per_iteration == 10,
        p.max_repeated_calls == 2 && p.read_repeat_multiplier == 3,
        p.max_consecutive_error_iters == 3 && p.max_history_chars == 8000,
{
}

} // verus!
