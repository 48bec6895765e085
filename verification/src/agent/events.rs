//! The events of a run, as they are logged.
use vstd::prelude::*;

use crate::json::{copy_or_null, number_value, number_view, object3, object4, object6, object9, or_null, text_or_null, text_value, whole, Json, JsonView, NumberView};
use crate::model::{maybe_text, ResponseView, ChatResponse};
use crate::text::{clip, clip_of, trim, trim_of};
use crate::usage::TokenUsage;
use super::{reject_word, RejectReason};

verus! {

/// A text, or null where it is empty.
pub open spec fn text_unless_empty(s: Seq<char>) -> JsonView {
    if s.len() == 0 {
        JsonView::Null
    } else {
        JsonView::Str(s)
    }
}

/// The first characters of a text, or null where it is empty.
fn preview_value(s: &str) -> (r: Json)
    ensures
        r@ == text_unless_empty(clip_of(s@, 500)),
{
    if s.is_empty() {
        Json::Null
    } else {
        Json::Str(clip(s, 500))
    }
}

/// The event that begins a run.
pub open spec fn run_start(run_id: Seq<char>, max_iterations: int) -> JsonView {
    JsonView::Object(
        seq![
            ("event"@, JsonView::Str("run_start"@)),
            ("max_iterations"@, whole(max_iterations)),
            ("mode"@, JsonView::Str("native_tools"@)),
            ("run_id"@, JsonView::Str(run_id)),
        ],
    )
}

/// The event that begins a run.
pub fn run_start_event(run_id: &str, max_iterations: u32) -> (r: Json)
    ensures
        r@ == run_start(run_id@, max_iterations as int),
{
    object4(
        "event",
        text_value("run_start"),
        "max_iterations",
        number_value(max_iterations as u64),
        "mode",
        text_value("native_tools"),
        "run_id",
        text_value(run_id),
    )
}

/// The event that begins an iteration.
pub open spec fn iteration_start(run_id: Seq<char>, iteration: int) -> JsonView {
    JsonView::Object(
        seq![
            ("event"@, JsonView::Str("iteration_start"@)),
            ("iteration"@, whole(iteration)),
            ("run_id"@, JsonView::Str(run_id)),
        ],
    )
}

/// The event that begins an iteration.
pub fn iteration_start_event(run_id: &str, iteration: u32) -> (r: Json)
    ensures
        r@ == iteration_start(run_id@, iteration as int),
{
    object3(
        "event",
        text_value("iteration_start"),
        "iteration",
        number_value(iteration as u64),
        "run_id",
        text_value(run_id),
    )
}

/// The event that ends an iteration of tool calls.
pub open spec fn iteration_end(run_id: Seq<char>, iteration: int) -> JsonView {
    JsonView::Object(
        seq![
            ("event"@, JsonView::Str("iteration_end"@)),
            ("iteration"@, whole(iteration)),
            ("run_id"@, JsonView::Str(run_id)),
            ("stop_reason"@, JsonView::Str("tool_calls"@)),
        ],
    )
}

/// The event that ends an iteration of tool calls.
pub fn iteration_end_event(run_id: &str, iteration: u32) -> (r: Json)
    ensures
        r@ == iteration_end(run_id@, iteration as int),
{
    object4(
        "event",
        text_value("iteration_end"),
        "iteration",
        number_value(iteration as u64),
        "run_id",
        text_value(run_id),
        "stop_reason",
        text_value("tool_calls"),
    )
}

/// The event of a model's reply. The duration is in milliseconds.
pub open spec fn model_response(run_id: Seq<char>, iteration: int, r: ResponseView, duration: NumberView) -> JsonView {
    let text = trim_of(r.text);
    let reasoning = trim_of(r.reasoning);
    JsonView::Object(
        seq![
            ("duration_ms"@, JsonView::Num(duration)),
            ("event"@, JsonView::Str("model_response"@)),
            ("iteration"@, whole(iteration)),
            ("model_reasoning"@, text_unless_empty(clip_of(reasoning, 500))),
            ("model_text"@, text_unless_empty(clip_of(text, 500))),
            ("run_id"@, JsonView::Str(run_id)),
            ("text_chars"@, whole(text.len() as int)),
            ("tool_calls"@, whole(r.tool_calls.len() as int)),
            ("usage"@, or_null(r.usage)),
        ],
    )
}

/// The event of a model's reply.
pub fn model_response_event(
    run_id: &str,
    iteration: u32,
    response: &ChatResponse,
    duration_ms: serde_json::Number,
) -> (r: Json)
    ensures
        r@ == model_response(run_id@, iteration as int, response@, number_view(duration_ms)),
{
    let text = trim(response.text.as_str());
    let reasoning = trim(response.reasoning.as_str());
    assert(crate::model::calls_view(response.tool_calls@).len() == response.tool_calls@.len());
    object9(
        "duration_ms",
        Json::Num(duration_ms),
        "event",
        text_value("model_response"),
        "iteration",
        number_value(iteration as u64),
        "model_reasoning",
        preview_value(reasoning),
        "model_text",
        preview_value(text),
        "run_id",
        text_value(run_id),
        "text_chars",
        number_value(text.unicode_len() as u64),
        "tool_calls",
        number_value(response.tool_calls.len() as u64),
        "usage",
        copy_or_null(response.usage.as_ref()),
    )
}

/// The event that begins a tool call.
pub open spec fn tool_start(run_id: Seq<char>, iteration: int, tool: Seq<char>, args: JsonView, model_text: Seq<char>) -> JsonView {
    JsonView::Object(
        seq![
            ("args"@, args),
            ("event"@, JsonView::Str("tool_start"@)),
            ("iteration"@, whole(iteration)),
            ("model_reasoning"@, JsonView::Str(model_text)),
            ("run_id"@, JsonView::Str(run_id)),
            ("tool"@, JsonView::Str(tool)),
        ],
    )
}

/// The event that begins a tool call.
pub fn tool_start_event(run_id: &str, iteration: u32, tool: &str, args: &Json, model_text: &str) -> (r: Json)
    ensures
        r@ == tool_start(run_id@, iteration as int, tool@, args@, model_text@),
{
    object6(
        "args",
        args.copy(),
        "event",
        text_value("tool_start"),
        "iteration",
        number_value(iteration as u64),
        "model_reasoning",
        text_value(model_text),
        "run_id",
        text_value(run_id),
        "tool",
        text_value(tool),
    )
}

/// The event that ends a tool call. The duration is in milliseconds.
pub open spec fn tool_end(
    run_id: Seq<char>,
    iteration: int,
    tool: Seq<char>,
    error: Option<Seq<char>>,
    duration: NumberView,
    output: Seq<char>,
) -> JsonView {
    JsonView::Object(
        seq![
            ("duration_ms"@, JsonView::Num(duration)),
            ("error"@, text_or_null(error)),
            ("event"@, JsonView::Str("tool_end"@)),
            ("iteration"@, whole(iteration)),
            ("ok"@, JsonView::Bool(error is None)),
            ("output_chars"@, whole(output.len() as int)),
            ("output_preview"@, text_unless_empty(clip_of(output, 500))),
            ("run_id"@, JsonView::Str(run_id)),
            ("tool"@, JsonView::Str(tool)),
        ],
    )
}

/// The event that ends a tool call.
pub fn tool_end_event(
    run_id: &str,
    iteration: u32,
    tool: &str,
    error: &Option<String>,
    duration_ms: serde_json::Number,
    output: &str,
) -> (r: Json)
    ensures
        r@ == tool_end(run_id@, iteration as int, tool@, maybe_text(*error), number_view(duration_ms), output@),
{
    let told = match error {
        Some(e) => text_value(e.as_str()),
        None => Json::Null,
    };
    object9(
        "duration_ms",
        Json::Num(duration_ms),
        "error",
        told,
        "event",
        text_value("tool_end"),
        "iteration",
        number_value(iteration as u64),
        "ok",
        Json::Bool(error.is_none()),
        "output_chars",
        number_value(output.unicode_len() as u64),
        "output_preview",
        preview_value(output),
        "run_id",
        text_value(run_id),
        "tool",
        text_value(tool),
    )
}

/// The event of a tool call that was not carried out.
pub open spec fn tool_rejected(run_id: Seq<char>, iteration: int, tool: Seq<char>, args: JsonView, reason: RejectReason) -> JsonView {
    JsonView::Object(
        seq![
            ("args"@, args),
            ("event"@, JsonView::Str("tool_rejected"@)),
            ("iteration"@, whole(iteration)),
            ("reason"@, JsonView::Str(reject_word(reason))),
            ("run_id"@, JsonView::Str(run_id)),
            ("tool"@, JsonView::Str(tool)),
        ],
    )
}

/// The event of a tool call that was not carried out.
pub fn tool_rejected_event(run_id: &str, iteration: u32, tool: &str, args: &Json, reason: RejectReason) -> (r: Json)
    ensures
        r@ == tool_rejected(run_id@, iteration as int, tool@, args@, reason),
{
    object6(
        "args",
        args.copy(),
        "event",
        text_value("tool_rejected"),
        "iteration",
        number_value(iteration as u64),
        "reason",
        text_value(reason.as_str()),
        "run_id",
        text_value(run_id),
        "tool",
        text_value(tool),
    )
}

/// The event that ends a run.
pub open spec fn run_end(run_id: Seq<char>, iterations: int, stop_reason: Seq<char>, usage: TokenUsage) -> JsonView {
    JsonView::Object(
        seq![
            ("event"@, JsonView::Str("run_end"@)),
            ("iteration"@, whole(iterations)),
            ("run_id"@, JsonView::Str(run_id)),
            ("stop_reason"@, JsonView::Str(stop_reason)),
            ("total_cache_creation_tokens"@, whole(usage.cache_write as int)),
            ("total_cache_read_tokens"@, whole(usage.cache_read as int)),
            ("total_input_tokens"@, whole(usage.input as int)),
            ("total_output_tokens"@, whole(usage.output as int)),
            ("total_reasoning_tokens"@, whole(usage.reasoning as int)),
        ],
    )
}

/// The event that ends a run.
pub fn run_end_event(run_id: &str, iterations: u32, stop_reason: &str, usage: &TokenUsage) -> (r: Json)
    ensures
        r@ == run_end(run_id@, iterations as int, stop_reason@, *usage),
{
    object9(
        "event",
        text_value("run_end"),
        "iteration",
        number_value(iterations as u64),
        "run_id",
        text_value(run_id),
        "stop_reason",
        text_value(stop_reason),
        "total_cache_creation_tokens",
        number_value(usage.cache_write),
        "total_cache_read_tokens",
        number_value(usage.cache_read),
        "total_input_tokens",
        number_value(usage.input),
        "total_output_tokens",
        number_value(usage.output),
        "total_reasoning_tokens",
        number_value(usage.reasoning),
    )
}

// ---------------------------------------------------------------------------
// Laws
// ---------------------------------------------------------------------------

/// The object gives `value` under `key`.
pub open spec fn says(v: JsonView, key: Seq<char>, value: JsonView) -> bool {
    v is Object && v->Object_0.contains((key, value))
}

/// Every event says what it is and to which run it belongs; all but the first say the
/// iteration.
pub proof fn law_events_name_their_run(
    run_id: Seq<char>,
    n: int,
    r: ResponseView,
    duration: NumberView,
    tool: Seq<char>,
    args: JsonView,
    text: Seq<char>,
    error: Option<Seq<char>>,
    reason: RejectReason,
    usage: TokenUsage,
)
    ensures
        ({
            let id = JsonView::Str(run_id);
            &&& says(run_start(run_id, n), "run_id"@, id)
            &&& says(iteration_start(run_id, n), "run_id"@, id)
            &&& says(iteration_end(run_id, n), "run_id"@, id)
            &&& says(model_response(run_id, n, r, duration), "run_id"@, id)
            &&& says(tool_start(run_id, n, tool, args, text), "run_id"@, id)
            &&& says(tool_end(run_id, n, tool, error, duration, text), "run_id"@, id)
            &&& says(tool_rejected(run_id, n, tool, args, reason), "run_id"@, id)
            &&& says(run_end(run_id, n, text, usage), "run_id"@, id)
        }),
        ({
            let event = "event"@;
            &&& says(run_start(run_id, n), event, JsonView::Str("run_start"@))
            &&& says(iteration_start(run_id, n), event, JsonView::Str("iteration_start"@))
            &&& says(iteration_end(run_id, n), event, JsonView::Str("iteration_end"@))
            &&& says(model_response(run_id, n, r, duration), event, JsonView::Str("model_response"@))
            &&& says(tool_start(run_id, n, tool, args, text), event, JsonView::Str("tool_start"@))
            &&& says(tool_end(run_id, n, tool, error, duration, text), event, JsonView::Str("tool_end"@))
            &&& says(tool_rejected(run_id, n, tool, args, reason), event, JsonView::Str("tool_rejected"@))
            &&& says(run_end(run_id, n, text, usage), event, JsonView::Str("run_end"@))
        }),
        ({
            let key = "iteration"@;
            &&& says(run_start(run_id, n), "max_iterations"@, whole(n))
            &&& says(iteration_start(run_id, n), key, whole(n))
            &&& says(iteration_end(run_id, n), key, whole(n))
            &&& says(model_response(run_id, n, r, duration), key, whole(n))
            &&& says(tool_start(run_id, n, tool, args, text), key, whole(n))
            &&& says(tool_end(run_id, n, tool, error, duration, text), key, whole(n))
            &&& says(tool_rejected(run_id, n, tool, args, reason), key, whole(n))
            &&& says(run_end(run_id, n, text, usage), key, whole(n))
        }),
{
    let id = ("run_id"@, JsonView::Str(run_id));
    let at = ("iteration"@, whole(n));
    let e = run_start(run_id, n)->Object_0;
    assert(e[3] == id && e[0].0 == "event"@ && e[1] == ("max_iterations"@, whole(n)));
    let e = iteration_start(run_id, n)->Object_0;
    assert(e[2] == id && e[0].0 == "event"@ && e[1] == at);
    let e = iteration_end(run_id, n)->Object_0;
    assert(e[2] == id && e[0].0 == "event"@ && e[1] == at);
    let e = model_response(run_id, n, r, duration)->Object_0;
    assert(e[5] == id && e[1].0 == "event"@ && e[2] == at);
    let e = tool_start(run_id, n, tool, args, text)->Object_0;
    assert(e[4] == id && e[1].0 == "event"@ && e[2] == at);
    let e = tool_end(run_id, n, tool, error, duration, text)->Object_0;
    assert(e[7] == id && e[2].0 == "event"@ && e[3] == at);
    let e = tool_rejected(run_id, n, tool, args, reason)->Object_0;
    assert(e[4] == id && e[1].0 == "event"@ && e[2] == at);
    let e = run_end(run_id, n, text, usage)->Object_0;
    assert(e[2] == id && e[0].0 == "event"@ && e[1] == at);
}

/// The event of a reply says what the model replied: the beginning of its text and of its
/// thoughts, how long the text is, how many calls it asks for and what it used.
pub proof fn law_reply_is_logged(run_id: Seq<char>, n: int, r: ResponseView, duration: NumberView)
    ensures
        ({
            let v = model_response(run_id, n, r, duration);
            let text = trim_of(r.text);
            let thought = trim_of(r.reasoning);
            &&& says(v, "duration_ms"@, JsonView::Num(duration))
            &&& says(v, "text_chars"@, whole(text.len() as int))
            &&& says(v, "tool_calls"@, whole(r.tool_calls.len() as int))
            &&& text.len() == 0 ==> says(v, "model_text"@, JsonView::Null)
            &&& 0 < text.len() <= 500 ==> says(v, "model_text"@, JsonView::Str(text))
            &&& text.len() > 500 ==> says(v, "model_text"@, JsonView::Str(text.take(500)))
            &&& thought.len() == 0 ==> says(v, "model_reasoning"@, JsonView::Null)
            &&& 0 < thought.len() <= 500 ==> says(v, "model_reasoning"@, JsonView::Str(thought))
            &&& thought.len() > 500 ==> says(v, "model_reasoning"@, JsonView::Str(thought.take(500)))
            &&& r.usage matches Some(u) ==> says(v, "usage"@, u)
            &&& r.usage is None ==> says(v, "usage"@, JsonView::Null)
        }),
{
    let text = trim_of(r.text);
    let thought = trim_of(r.reasoning);
    let e = model_response(run_id, n, r, duration)->Object_0;
    assert(e[0].0 == "duration_ms"@ && e[3].0 == "model_reasoning"@ && e[4].0 == "model_text"@);
    assert(e[6].0 == "text_chars"@ && e[7].0 == "tool_calls"@ && e[8].0 == "usage"@);
}

/// The events of a call say the tool, what it is called with, why it was not carried out,
/// and how it went: a call is well where there is no error.
pub proof fn law_call_is_logged(
    run_id: Seq<char>,
    n: int,
    tool: Seq<char>,
    args: JsonView,
    text: Seq<char>,
    error: Option<Seq<char>>,
    duration: NumberView,
    reason: RejectReason,
)
    ensures
        ({
            let v = tool_start(run_id, n, tool, args, text);
            &&& says(v, "tool"@, JsonView::Str(tool))
            &&& says(v, "args"@, args)
            &&& says(v, "model_reasoning"@, JsonView::Str(text))
        }),
        ({
            let v = tool_rejected(run_id, n, tool, args, reason);
            &&& says(v, "tool"@, JsonView::Str(tool))
            &&& says(v, "args"@, args)
            &&& says(v, "reason"@, JsonView::Str(reject_word(reason)))
        }),
        ({
            let v = tool_end(run_id, n, tool, error, duration, text);
            &&& says(v, "tool"@, JsonView::Str(tool))
            &&& says(v, "ok"@, JsonView::Bool(error is None))
            &&& error is None ==> says(v, "error"@, JsonView::Null)
            &&& error matches Some(m) ==> says(v, "error"@, JsonView::Str(m))
            &&& says(v, "duration_ms"@, JsonView::Num(duration))
            &&& says(v, "output_chars"@, whole(text.len() as int))
            &&& text.len() == 0 ==> says(v, "output_preview"@, JsonView::Null)
            &&& 0 < text.len() <= 500 ==> says(v, "output_preview"@, JsonView::Str(text))
            &&& text.len() > 500 ==> says(v, "output_preview"@, JsonView::Str(text.take(500)))
        }),
{
    let e = tool_start(run_id, n, tool, args, text)->Object_0;
    assert(e[5].0 == "tool"@ && e[0].0 == "args"@ && e[3].0 == "model_reasoning"@);
    let e = tool_rejected(run_id, n, tool, args, reason)->Object_0;
    assert(e[5].0 == "tool"@ && e[0].0 == "args"@ && e[3].0 == "reason"@);
    let e = tool_end(run_id, n, tool, error, duration, text)->Object_0;
    assert(e[0].0 == "duration_ms"@ && e[1].0 == "error"@ && e[4].0 == "ok"@ && e[5].0 == "output_chars"@);
    assert(e[6].0 == "output_preview"@ && e[8].0 == "tool"@);
}

/// The event that ends a run says why it ended and what it used, kind by kind; that of an
/// iteration says that it ended in calls.
pub proof fn law_end_is_logged(run_id: Seq<char>, n: int, stop_reason: Seq<char>, usage: TokenUsage)
    ensures
        ({
            let v = run_end(run_id, n, stop_reason, usage);
            &&& says(v, "stop_reason"@, JsonView::Str(stop_reason))
            &&& says(v, "total_input_tokens"@, whole(usage.input as int))
            &&& says(v, "total_output_tokens"@, whole(usage.output as int))
            &&& says(v, "total_reasoning_tokens"@, whole(usage.reasoning as int))
            &&& says(v, "total_cache_creation_tokens"@, whole(usage.cache_write as int))
            &&& says(v, "total_cache_read_tokens"@, whole(usage.cache_read as int))
        }),
        says(iteration_end(run_id, n), "stop_reason"@, JsonView::Str("tool_calls"@)),
        says(run_start(run_id, n), "mode"@, JsonView::Str("native_tools"@)),
{
    let e = run_end(run_id, n, stop_reason, usage)->Object_0;
    assert(e[3].0 == "stop_reason"@ && e[4].0 == "total_cache_creation_tokens"@);
    assert(e[5].0 == "total_cache_read_tokens"@ && e[6].0 == "total_input_tokens"@);
    assert(e[7].0 == "total_output_tokens"@ && e[8].0 == "total_reasoning_tokens"@);
    let e = iteration_end(run_id, n)->Object_0;
    assert(e[3].0 == "stop_reason"@);
    let e = run_start(run_id, n)->Object_0;
    assert(e[2].0 == "mode"@);
}

} // verus!
