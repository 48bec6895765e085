use csloop::agent::context::{append_hint, upsert_workspace_context, workspace_context_block, RecentEntry, MARKER};
use csloop::agent::events::{iteration_end_event, iteration_start_event, model_response_event, run_end_event, run_start_event, tool_end_event, tool_rejected_event, tool_start_event};
use csloop::agent::session::{check_tool, Agent, AgentSession, CallPlan, Step, REACT_NUDGE};
use csloop::agent::state::{tool_call_key, CallCounts, RunState};
use csloop::agent::{AgentPolicy, RejectReason, RunResult, StopReason};
use csloop::json::{text_value, Json};
use csloop::json_codec::{compact_text, parse_json};
use csloop::model::anthropic::message_value;
use csloop::model::{ChatResponse, ToolCall};
use csloop::ordered::NameSet;
use csloop::tools::sets::{listings, make_tools};
use csloop::usage::TokenUsage;

fn json(text: &str) -> Json {
    parse_json(text).unwrap()
}

fn number(n: f64) -> serde_json::Number {
    serde_json::Number::from_f64(n).unwrap()
}

fn agent() -> Agent {
    Agent::new(listings(&make_tools("/w", &NameSet::new(), &Vec::new())), 3)
}

fn call(id: &str, name: &str, args: &str) -> ToolCall {
    ToolCall { id: id.to_string(), name: name.to_string(), arguments: json(args), raw_arguments: None, raw_arguments_error: None }
}

fn reply(text: &str, calls: Vec<ToolCall>) -> ChatResponse {
    ChatResponse { text: text.to_string(), tool_calls: calls, usage: Some(json("{\"input_tokens\":2,\"output_tokens\":1}")), reasoning: String::new(), reasoning_blocks: Vec::new() }
}

fn started() -> AgentSession {
    let mut s = agent().start("do it", " sys ", &vec![message_value("user", text_value("before"))], "run");
    assert!(s.begin_iteration());
    s
}

#[test]
fn policy_and_words() {
    let p = AgentPolicy::default();
    assert_eq!((p.max_tool_calls_total, p.max_calls_per_iteration, p.max_repeated_calls, p.read_repeat_multiplier, p.max_consecutive_error_iters, p.max_history_chars), (120, 10, 2, 3, 3, 8000));
    assert_eq!(RejectReason::RepeatBlocked.as_str(), "repeat_blocked");
    assert_eq!(RejectReason::BadJson.as_str(), "bad_json");
    assert_eq!(RejectReason::IterationSkip.as_str(), "iteration_skip");
    assert_eq!(StopReason::FinalText.as_str(), "final_text");
    assert_eq!(StopReason::MaxIterations.as_str(), "max_iterations");
    assert_eq!(StopReason::ToolBudget.as_str(), "tool_budget");
}

fn result(final_text: Option<&str>, stop: &str) -> RunResult {
    RunResult { final_text: final_text.map(|s| s.to_string()), stop_reason: stop.to_string(), usage: TokenUsage::default(), iterations: 0, tool_results: Vec::new(), rejected_calls: Vec::new(), iteration_telemetry: Vec::new() }
}

#[test]
fn runs_are_told_in_words() {
    assert_eq!(result(Some("done"), "final_text").to_text(), "done");
    assert_eq!(result(None, "tool_budget").to_text(), "[Agent stopped: tool-call budget reached without a final answer]");
    assert_eq!(result(None, "max_iterations").to_text(), "[Agent stopped: max_iterations reached without a final answer]");
}

#[test]
fn the_context_is_a_block_of_lines() {
    let recent = vec![RecentEntry { tool: "read".to_string(), args_preview: "p".to_string(), summary: "a\nb".to_string(), ok: true }];
    let errors: Vec<String> = (0..4).map(|i| format!("e{i}")).collect();
    assert_eq!(
        workspace_context_block(5, &errors, &recent, 2, 30, &AgentPolicy::default()),
        "WORKSPACE CONTEXT\n- iteration: 2/30\n- tool_calls_total: 5/120\n- recent_errors:\n  - e1\n  - e2\n  - e3\n- recent_tool_results:\n  - read(p): a | b"
    );
    assert_eq!(workspace_context_block(0, &Vec::new(), &Vec::new(), 1, 1, &AgentPolicy::default()), "WORKSPACE CONTEXT\n- iteration: 1/1\n- tool_calls_total: 0/120");
    assert!(MARKER == "WORKSPACE CONTEXT");
}

#[test]
fn the_context_is_put_on_the_last_user_message_and_replaced() {
    let mut m = vec![message_value("system", text_value("S")), message_value("user", text_value("task")), message_value("assistant", text_value("x"))];
    upsert_workspace_context(&mut m, "WORKSPACE CONTEXT\n- 1");
    assert_eq!(compact_text(&m[1]), "{\"content\":\"task\\n\\nWORKSPACE CONTEXT\\n- 1\",\"role\":\"user\"}");
    upsert_workspace_context(&mut m, "WORKSPACE CONTEXT\n- 2");
    assert_eq!(compact_text(&m[1]), "{\"content\":\"task\\n\\nWORKSPACE CONTEXT\\n- 2\",\"role\":\"user\"}");
    assert_eq!(compact_text(&m[0]), "{\"content\":\"S\",\"role\":\"system\"}");
    assert_eq!(m.len(), 3);

    let mut blocks = vec![json("{\"content\":[{\"type\":\"text\",\"text\":\"WORKSPACE CONTEXT old\"},{\"type\":\"tool_result\"}],\"role\":\"user\"}")];
    upsert_workspace_context(&mut blocks, "WORKSPACE CONTEXT new");
    assert_eq!(compact_text(&blocks[0]), "{\"content\":[{\"type\":\"tool_result\"},{\"text\":\"WORKSPACE CONTEXT new\",\"type\":\"text\"}],\"role\":\"user\"}");

    let mut none = vec![message_value("user", Json::Null)];
    upsert_workspace_context(&mut none, "B");
    assert_eq!(none.len(), 2);
    assert_eq!(compact_text(&none[1]), "{\"content\":\"B\",\"role\":\"user\"}");
}

#[test]
fn hints_go_on_a_text_or_stand_alone() {
    let mut m = vec![message_value("user", text_value("a"))];
    append_hint(&mut m, "h");
    assert_eq!(compact_text(&m[0]), "{\"content\":\"a\\n\\nh\",\"role\":\"user\"}");
    let mut m = vec![message_value("user", json("[]"))];
    append_hint(&mut m, "h");
    assert_eq!(m.len(), 2);
    let mut m: Vec<Json> = Vec::new();
    append_hint(&mut m, "h");
    assert_eq!(m.len(), 1);
}

#[test]
fn calls_are_counted_by_what_they_ask() {
    assert_eq!(tool_call_key("read", &json("{\"b\":1,\"a\":2}")), "read:{\"a\":2,\"b\":1}");
    assert_eq!(tool_call_key("read", &json("{\"a\":2,\"b\":1}")), tool_call_key("read", &json("{\"b\":1,\"a\":2}")));
    let mut c = CallCounts::new();
    c.bump("x");
    c.bump("x");
    c.bump("y");
    assert_eq!((c.get("x"), c.get("y"), c.get("z")), (2, 1, 0));
    let mut s = RunState::new();
    s.count_call("k");
    assert_eq!(s.call_counts.get("k"), 1);
    s.forget_calls();
    assert_eq!(s.call_counts.get("k"), 0);
}

#[test]
fn what_is_remembered_is_bounded() {
    let mut s = RunState::new();
    for i in 0..15 {
        s.record_tool_result("read", &json("{\"path\":\"p\"}"), format!("Error: {i}").as_str());
    }
    assert_eq!(s.recent.len(), 12);
    assert_eq!(s.recent_errors.len(), 5);
    assert_eq!(s.recent_errors[4], "read: Error: 14");
    assert_eq!(s.recent[0].summary, "Error: 3");
    assert!(!s.recent[0].ok);
    s.record_execution("read", &json("{}"), "y".repeat(600).as_str());
    assert_eq!(s.tool_results[0].output_preview.len(), 500);
    assert!(s.tool_results[0].ok);
    s.record_rejected_call("x", &json("{}"), RejectReason::BadJson);
    assert!(s.rejected_calls[0].reason == RejectReason::BadJson);
}

#[test]
fn tools_are_switched() {
    let mut a = agent();
    assert_eq!(a.disable_tool("bash"), Ok(()));
    assert_eq!(check_tool(&a.tools, "bash", &json("{\"command\":\"ls\"}")), Some("tool \"bash\" is disabled".to_string()));
    assert_eq!(a.enable_tool("bash"), Ok(()));
    assert_eq!(check_tool(&a.tools, "bash", &json("{\"command\":\"ls\"}")), None);
    assert_eq!(a.enable_tool("nope"), Err("Unknown tool: \"nope\"".to_string()));
    assert_eq!(a.disable_tool("nope"), Err("Unknown tool: \"nope\"".to_string()));
}

#[test]
fn calls_are_checked_before_they_run() {
    let tools = agent().tools;
    assert_eq!(check_tool(&tools, "nope", &json("{}")), Some("unknown tool \"nope\"".to_string()));
    assert_eq!(check_tool(&tools, "read", &json("[]")), Some("tool \"read\" arguments must be an object".to_string()));
    assert_eq!(check_tool(&tools, "read", &json("{}")), Some("missing required argument \"path\"".to_string()));
}

#[test]
fn a_session_opens_with_system_history_and_task() {
    let s = agent().start("do it", " sys ", &vec![message_value("user", text_value("before"))], "run");
    assert_eq!(s.messages.len(), 3);
    assert_eq!(s.messages[0].get_str("content"), Some(format!("sys\n\n{}", REACT_NUDGE.trim()).as_str()));
    assert_eq!(s.messages[2].get_str("content"), Some("do it"));
    assert_eq!(agent().start("t", "  ", &Vec::new(), "r").messages[0].get_str("content"), Some(REACT_NUDGE.trim()));
}

#[test]
fn text_ends_a_run() {
    let mut s = started();
    assert_eq!(s.iteration, 1);
    assert_eq!(s.tool_schemas().len(), 5);
    assert!(s.messages[2].get_str("content").unwrap().contains("WORKSPACE CONTEXT"));
    assert!(s.on_response(&reply("  the answer ", Vec::new())) == Step::Stop);
    let r = s.into_result();
    assert_eq!(r.final_text, Some("the answer".to_string()));
    assert_eq!(r.stop_reason, "final_text");
    assert_eq!((r.iterations, r.usage.input, r.usage.output), (1, 2, 1));
    assert_eq!(r.iteration_telemetry.len(), 1);
    assert!(r.iteration_telemetry[0].had_final_text);
}

#[test]
fn calls_come_before_text() {
    let mut s = started();
    let calls = vec![call("1", "read", "{\"path\":\"f\"}")];
    assert!(s.on_response(&reply("text", vec![call("1", "read", "{\"path\":\"f\"}")])) == Step::Calls);
    assert!(matches!(s.plan_call(&calls[0]), CallPlan::Run));
    assert_eq!(s.next_call(&calls).map(|c| c.id.clone()), Some("1".to_string()));
    s.settle_call(&calls[0], "content");
    assert!(s.next_call(&calls).is_none());
    s.finish_calls(&calls, &Vec::new());
    assert_eq!(s.messages.len(), 5);
    assert_eq!(s.state.tool_calls_total, 1);
    assert!(s.begin_iteration());
    assert!(s.on_response(&reply("", Vec::new())) == Step::Again);
    assert!(s.begin_iteration());
    assert!(s.on_response(&reply("", Vec::new())) == Step::Again);
    assert!(!s.begin_iteration());
    let r = s.into_result();
    assert_eq!(r.iteration_telemetry.iter().map(|t| t.iteration).collect::<Vec<u32>>(), vec![1, 2, 3]);
    assert_eq!((r.iterations, r.usage.input, r.usage.output), (3, 6, 3));
    assert_eq!(r.stop_reason, "max_iterations");
    assert_eq!(r.final_text, None);
    assert_eq!(r.tool_results.len(), 1);
}

#[test]
fn an_empty_reply_is_hinted_once() {
    let mut s = started();
    assert!(s.on_response(&reply(" ", Vec::new())) == Step::Again);
    let content = s.messages[2].get_str("content").unwrap().to_string();
    assert!(content.ends_with("\n\nReply with either tool_calls (to take an action) or a final answer as text."));
    assert!(s.begin_iteration());
    assert!(s.on_response(&reply("", Vec::new())) == Step::Again);
    assert_eq!(s.messages.len(), 3);
    assert!(!s.messages[2].get_str("content").unwrap().contains("Reply with either"));
}

#[test]
fn repeated_calls_are_blocked_until_something_changes() {
    let mut s = started();
    let look = call("1", "glob", "{\"pattern\":\"*\"}");
    assert!(s.on_response(&reply("", vec![call("1", "glob", "{\"pattern\":\"*\"}")])) == Step::Calls);
    s.settle_call(&look, "a");
    s.settle_call(&look, "a");
    assert!(matches!(s.plan_call(&look), CallPlan::Blocked));
    s.settle_call(&look, "");
    assert_eq!(s.state.rejected_calls.len(), 1);
    assert!(s.state.rejected_calls[0].reason == RejectReason::RepeatBlocked);
    assert_eq!(s.outputs[2], "Error: repeated tool call blocked after 2 tries. Change arguments (e.g., different offset/limit/path) or change approach.");
    s.settle_call(&call("2", "write", "{\"path\":\"p\",\"content\":\"c\"}"), "Wrote p (1 bytes)");
    assert!(matches!(s.plan_call(&look), CallPlan::Run));
    assert_eq!(s.state.tool_calls_total, 3);
}

#[test]
fn reads_may_be_repeated_more_often() {
    let mut s = started();
    let look = call("1", "read", "{\"path\":\"f\"}");
    assert!(s.on_response(&reply("", vec![call("1", "read", "{\"path\":\"f\"}")])) == Step::Calls);
    for _ in 0..6 {
        assert!(matches!(s.plan_call(&look), CallPlan::Run));
        s.settle_call(&look, "x");
    }
    assert!(matches!(s.plan_call(&look), CallPlan::Blocked));
}

#[test]
fn malformed_calls_are_not_carried_out() {
    let mut s = started();
    let mut bad = call("1", "read", "{}");
    bad.raw_arguments = Some("{".to_string());
    bad.raw_arguments_error = Some("EOF".to_string());
    assert!(s.on_response(&reply("", vec![call("1", "read", "{}")])) == Step::Calls);
    assert!(matches!(s.plan_call(&bad), CallPlan::Malformed));
    let out = s.call_output(&bad, "");
    assert_eq!(
        out,
        "Error: tool call arguments were not valid JSON and could not be parsed.\ntool=\"read\"\nparse_error=EOF\nraw_arguments=\"{\"\nFix: emit a tool call with a JSON object matching the tool schema."
    );
    s.settle_call(&bad, "");
    assert_eq!(s.state.tool_results.len(), 0);
    assert_eq!(s.state.tool_calls_total, 0);
    s.finish_calls(&vec![bad], &Vec::new());
    assert!(s.begin_iteration());
    assert!(s.on_response(&reply("", Vec::new())) == Step::Again);
    assert!(compact_text(&s.messages[s.messages.len() - 1]).contains("Your last tool call could not be parsed because the arguments were not valid JSON."));
}

#[test]
fn refused_calls_count_as_made() {
    let mut s = started();
    let c = call("1", "nope", "{}");
    assert!(s.on_response(&reply("", vec![call("1", "nope", "{}")])) == Step::Calls);
    assert!(matches!(s.plan_call(&c), CallPlan::Refused(e) if e == "unknown tool \"nope\""));
    s.settle_call(&c, "");
    assert_eq!(s.outputs[0], "Error: unknown tool \"nope\"");
    assert_eq!(s.state.tool_results.len(), 1);
    assert!(!s.state.tool_results[0].ok);
}

#[test]
fn calls_beyond_the_limit_are_skipped() {
    let mut s = started();
    let calls: Vec<ToolCall> = (0..12).map(|i| call(&i.to_string(), "read", &format!("{{\"path\":\"f{i}\"}}"))).collect();
    let asked: Vec<ToolCall> = (0..12).map(|i| call(&i.to_string(), "read", &format!("{{\"path\":\"f{i}\"}}"))).collect();
    assert!(s.on_response(&reply("", asked)) == Step::Calls);
    for i in 0..10 {
        let next = s.next_call(&calls).unwrap();
        assert_eq!(next.id, i.to_string());
        s.settle_call(next, "x");
    }
    assert!(s.next_call(&calls).is_none());
    s.finish_calls(&calls, &Vec::new());
    assert_eq!(s.state.rejected_calls.len(), 2);
    assert!(s.state.rejected_calls[1].reason == RejectReason::IterationSkip);
    let answer = s.messages[s.messages.len() - 1].get_array("content").unwrap();
    assert_eq!(answer.len(), 11);
    assert_eq!(answer[10].get_str("content"), Some("Note: 2 tool call(s) were skipped this iteration due to max_tool_calls_per_iteration=10."));
    assert_eq!(answer[10].get_str("tool_use_id"), Some("skipped_tool_calls_note"));
}

#[test]
fn the_budget_ends_a_run() {
    let mut s = started();
    s.policy.max_tool_calls_total = 1;
    assert!(s.on_response(&reply("", vec![call("1", "read", "{\"path\":\"f\"}")])) == Step::Calls);
    s.settle_call(&call("1", "read", "{\"path\":\"f\"}"), "x");
    s.finish_calls(&vec![call("1", "read", "{\"path\":\"f\"}")], &Vec::new());
    assert!(s.begin_iteration());
    assert!(s.on_response(&reply("", vec![call("2", "read", "{\"path\":\"g\"}")])) == Step::Stop);
    assert_eq!(s.into_result().stop_reason, "tool_budget");
}

#[test]
fn a_stuck_run_is_told() {
    let mut s = started();
    s.max_iterations = 10;
    for i in 0..3 {
        let c = call("1", "read", &format!("{{\"path\":\"f{i}\"}}"));
        assert!(s.on_response(&reply("", vec![call("1", "read", &format!("{{\"path\":\"f{i}\"}}"))])) == Step::Calls);
        s.settle_call(&c, "Error: gone");
        s.finish_calls(&vec![c], &Vec::new());
        assert!(s.begin_iteration());
    }
    assert_eq!(s.state.consecutive_error_iters, 0);
    let last = compact_text(&s.messages[s.messages.len() - 1]);
    assert!(last.contains("Every tool call for several consecutive iterations has failed."), "{last}");
}

#[test]
fn long_outputs_are_cut_in_the_history_but_errors_are_not() {
    let mut s = started();
    let c = call("1", "read", "{\"path\":\"f\"}");
    assert!(s.on_response(&reply("", vec![call("1", "read", "{\"path\":\"f\"}")])) == Step::Calls);
    s.settle_call(&c, "x".repeat(8001).as_str());
    assert_eq!(s.outputs[0], format!("{}\n…[output truncated: 1 chars omitted. Use read(path, offset=N) to page through the rest.]", "x".repeat(8000)));
    let error = format!("Error: {}", "x".repeat(9000));
    s.settle_call(&c, error.as_str());
    assert_eq!(s.outputs[1], error);
}

#[test]
fn events_have_their_shapes() {
    assert_eq!(compact_text(&run_start_event("r", 30)), "{\"event\":\"run_start\",\"max_iterations\":30,\"mode\":\"native_tools\",\"run_id\":\"r\"}");
    assert_eq!(compact_text(&iteration_start_event("r", 1)), "{\"event\":\"iteration_start\",\"iteration\":1,\"run_id\":\"r\"}");
    assert_eq!(compact_text(&iteration_end_event("r", 1)), "{\"event\":\"iteration_end\",\"iteration\":1,\"run_id\":\"r\",\"stop_reason\":\"tool_calls\"}");
    assert_eq!(
        compact_text(&model_response_event("r", 1, &reply(" hä ", vec![call("1", "x", "{}")]), number(1.5))),
        "{\"duration_ms\":1.5,\"event\":\"model_response\",\"iteration\":1,\"model_reasoning\":null,\"model_text\":\"hä\",\"run_id\":\"r\",\"text_chars\":2,\"tool_calls\":1,\"usage\":{\"input_tokens\":2,\"output_tokens\":1}}"
    );
    assert_eq!(
        compact_text(&tool_start_event("r", 1, "read", &json("{\"path\":\"p\"}"), "why")),
        "{\"args\":{\"path\":\"p\"},\"event\":\"tool_start\",\"iteration\":1,\"model_reasoning\":\"why\",\"run_id\":\"r\",\"tool\":\"read\"}"
    );
    assert_eq!(
        compact_text(&tool_end_event("r", 1, "read", &None, number(0.25), "out")),
        "{\"duration_ms\":0.25,\"error\":null,\"event\":\"tool_end\",\"iteration\":1,\"ok\":true,\"output_chars\":3,\"output_preview\":\"out\",\"run_id\":\"r\",\"tool\":\"read\"}"
    );
    assert_eq!(
        compact_text(&tool_end_event("r", 1, "read", &Some("bad".to_string()), number(0.25), "")),
        "{\"duration_ms\":0.25,\"error\":\"bad\",\"event\":\"tool_end\",\"iteration\":1,\"ok\":false,\"output_chars\":0,\"output_preview\":null,\"run_id\":\"r\",\"tool\":\"read\"}"
    );
    assert_eq!(
        compact_text(&tool_rejected_event("r", 1, "read", &json("{}"), RejectReason::BadJson)),
        "{\"args\":{},\"event\":\"tool_rejected\",\"iteration\":1,\"reason\":\"bad_json\",\"run_id\":\"r\",\"tool\":\"read\"}"
    );
    let usage = TokenUsage { input: 1, output: 2, reasoning: 3, cache_write: 4, cache_read: 5 };
    assert_eq!(
        compact_text(&run_end_event("r", 2, "final_text", &usage)),
        "{\"event\":\"run_end\",\"iteration\":2,\"run_id\":\"r\",\"stop_reason\":\"final_text\",\"total_cache_creation_tokens\":4,\"total_cache_read_tokens\":5,\"total_input_tokens\":1,\"total_output_tokens\":2,\"total_reasoning_tokens\":3}"
    );
}
