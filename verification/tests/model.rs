use csloop::json::{object1, text_value, Json};
use csloop::json_codec::{compact_text, parse_json};
use csloop::model::anthropic::{add_cache_control_to_message, env_flag, finalize_non_streaming, format_tool_result_messages, is_role, message_value, retry_delay, should_retry, streaming_body, AnthropicModel, Failure, ModelSettings};
use csloop::model::stream::{merge_stream_usage, tool_call_of, EventLines, StreamAccumulator, MAX_CONTENT_BLOCKS};
use csloop::model::ToolCall;

fn json(text: &str) -> Json {
    parse_json(text).unwrap()
}

fn some(s: &str) -> Option<String> {
    Some(s.to_string())
}

fn settings() -> ModelSettings {
    ModelSettings { api_key: some("k"), base_url: None, max_tokens: None, streaming: None, prompt_cache: None, reasoning: None }
}

fn model(settings: &ModelSettings, reasoning: bool) -> AnthropicModel {
    match AnthropicModel::new("m".to_string(), reasoning, settings) {
        Ok(m) => m,
        Err(e) => panic!("unexpected error: {e}"),
    }
}

#[test]
fn flags_are_read() {
    for yes in ["1", "true", "TRUE", "Yes"] {
        assert!(env_flag(&some(yes), false));
    }
    for no in ["0", "on", "", "false"] {
        assert!(!env_flag(&some(no), true));
    }
    assert!(env_flag(&None, true));
    assert!(!env_flag(&None, false));
}

#[test]
fn a_key_is_needed() {
    let without = ModelSettings { api_key: None, ..settings() };
    assert_eq!(AnthropicModel::new("m".to_string(), false, &without).map(|m| m.model), Err("ANTHROPIC_API_KEY environment variable is not set".to_string()));
}

#[test]
fn settings_have_defaults() {
    let m = model(&settings(), false);
    assert_eq!(m.base_url, "https://api.anthropic.com");
    assert_eq!(m.max_tokens, 32768);
    assert!(m.streaming);
    assert!(m.prompt_caching);
    assert!(m.thinking.is_none());
    assert_eq!(m.messages_url(), "https://api.anthropic.com/v1/messages");
    let m = model(&ModelSettings { api_key: some("k"), base_url: some("http://h//"), max_tokens: some("12"), streaming: some("0"), prompt_cache: some("no"), reasoning: some("1") }, false);
    assert_eq!(m.max_tokens, 12);
    assert!(!m.streaming);
    assert!(!m.prompt_caching);
    assert_eq!(m.thinking.map(|t| compact_text(&t)), some("{\"display\":\"summarized\",\"type\":\"adaptive\"}"));
    assert_eq!(model(&ModelSettings { base_url: some("http://h//"), ..settings() }, false).messages_url(), "http://h/v1/messages");
    assert_eq!(model(&ModelSettings { max_tokens: some("-1"), ..settings() }, false).max_tokens, 32768);
    assert!(model(&settings(), true).thinking.is_some());
}

#[test]
fn requests_mark_what_is_to_be_kept() {
    let messages = vec![
        message_value("system", text_value("S")),
        message_value("user", text_value("one")),
        message_value("assistant", text_value("two")),
        message_value("user", text_value("three")),
    ];
    let tools = vec![
        json("{\"function\":{\"name\":\"a\",\"description\":\"d\",\"parameters\":{\"type\":\"object\"}}}"),
        json("{\"function\":{\"name\":\"b\"}}"),
    ];
    let body = model(&settings(), false).request_body(&messages, Some(&tools));
    assert_eq!(
        compact_text(&body),
        "{\"max_tokens\":32768,\"messages\":[{\"content\":[{\"cache_control\":{\"ttl\":\"1h\",\"type\":\"ephemeral\"},\"text\":\"one\",\"type\":\"text\"}],\"role\":\"user\"},{\"content\":\"two\",\"role\":\"assistant\"},{\"content\":\"three\",\"role\":\"user\"}],\"model\":\"m\",\"system\":[{\"cache_control\":{\"ttl\":\"1h\",\"type\":\"ephemeral\"},\"text\":\"S\",\"type\":\"text\"}],\"tools\":[{\"description\":\"d\",\"input_schema\":{\"type\":\"object\"},\"name\":\"a\"},{\"cache_control\":{\"ttl\":\"1h\",\"type\":\"ephemeral\"},\"description\":\"\",\"input_schema\":{},\"name\":\"b\"}]}"
    );
    let plain = ModelSettings { prompt_cache: some("0"), ..settings() };
    let two = vec![message_value("system", text_value("S")), message_value("system", text_value("T")), message_value("user", text_value("one"))];
    assert_eq!(
        compact_text(&model(&plain, true).request_body(&two, Some(&Vec::new()))),
        "{\"max_tokens\":32768,\"messages\":[{\"content\":\"one\",\"role\":\"user\"}],\"model\":\"m\",\"system\":\"S\\n\\nT\",\"thinking\":{\"display\":\"summarized\",\"type\":\"adaptive\"}}"
    );
    assert_eq!(compact_text(&streaming_body(&object1("a", Json::Null))), "{\"a\":null,\"stream\":true}");
}

#[test]
fn the_last_user_message_is_not_kept() {
    let one = vec![message_value("assistant", text_value("x")), message_value("user", text_value("y"))];
    let body = model(&settings(), false).request_body(&one, None);
    assert!(!compact_text(&body).contains("cache_control"));
    assert!(is_role(&one[1], "user"));
    assert!(!is_role(&one[0], "user"));
}

#[test]
fn blocks_are_marked_once() {
    let marked = json("{\"content\":[{\"a\":1},{\"cache_control\":1}],\"role\":\"user\"}");
    assert_eq!(compact_text(&add_cache_control_to_message(&marked)), compact_text(&marked));
    let open = json("{\"content\":[{\"a\":1}],\"role\":\"user\"}");
    assert_eq!(compact_text(&add_cache_control_to_message(&open)), "{\"content\":[{\"a\":1,\"cache_control\":{\"ttl\":\"1h\",\"type\":\"ephemeral\"}}],\"role\":\"user\"}");
    let odd = json("{\"content\":3,\"role\":\"user\"}");
    assert_eq!(compact_text(&add_cache_control_to_message(&odd)), compact_text(&odd));
}

#[test]
fn whole_replies_are_read() {
    let r = finalize_non_streaming(&json(
        "{\"content\":[{\"type\":\"thinking\",\"thinking\":\" hm \",\"signature\":\"s\"},{\"type\":\"text\",\"text\":\" a\"},{\"type\":\"other\"},{\"type\":\"tool_use\",\"id\":\"1\",\"name\":\"read\",\"input\":{\"path\":\"p\"}},{\"type\":\"text\",\"text\":\"b \"},{\"type\":\"tool_use\"}],\"usage\":{\"input_tokens\":1}}",
    ));
    assert_eq!(r.text, "a\nb");
    assert_eq!(r.reasoning, "hm");
    assert_eq!(compact_text(&r.reasoning_blocks[0]), "{\"signature\":\"s\",\"thinking\":\" hm \",\"type\":\"thinking\"}");
    assert_eq!(r.tool_calls.len(), 2);
    assert_eq!(compact_text(&r.tool_calls[0].arguments), "{\"path\":\"p\"}");
    assert_eq!(r.tool_calls[1].name, "");
    assert_eq!(compact_text(&r.tool_calls[1].arguments), "{}");
    assert_eq!(r.usage.map(|u| compact_text(&u)), some("{\"input_tokens\":1}"));
    let none = finalize_non_streaming(&json("{}"));
    assert_eq!(none.text, "");
    assert!(none.usage.is_none());
}

#[test]
fn failures_that_may_pass_are_tried_again() {
    assert!(should_retry(Failure::Status(429)));
    assert!(should_retry(Failure::Status(500)));
    assert!(should_retry(Failure::Status(599)));
    assert!(!should_retry(Failure::Status(600)));
    assert!(!should_retry(Failure::Status(400)));
    assert!(should_retry(Failure::Io));
    assert!(should_retry(Failure::Timeout));
    assert!(should_retry(Failure::ConnectionFailed));
    assert!(should_retry(Failure::HostNotFound));
    assert!(!should_retry(Failure::Other));
    assert_eq!(retry_delay(0, Failure::Io), Some(500));
    assert_eq!(retry_delay(1, Failure::Io), Some(1000));
    assert_eq!(retry_delay(2, Failure::Io), None);
    assert_eq!(retry_delay(0, Failure::Other), None);
}

#[test]
fn each_call_is_answered() {
    let call = |id: &str| ToolCall { id: id.to_string(), name: "n".to_string(), arguments: json("{}"), raw_arguments: None, raw_arguments_error: None };
    let m = format_tool_result_messages(&vec![call("1"), call("2")], &vec!["o1".to_string(), "o2".to_string()], &vec![json("{\"type\":\"thinking\"}")]);
    assert_eq!(m.len(), 2);
    assert_eq!(
        compact_text(&m[0]),
        "{\"content\":[{\"type\":\"thinking\"},{\"id\":\"1\",\"input\":{},\"name\":\"n\",\"type\":\"tool_use\"},{\"id\":\"2\",\"input\":{},\"name\":\"n\",\"type\":\"tool_use\"}],\"role\":\"assistant\"}"
    );
    assert_eq!(
        compact_text(&m[1]),
        "{\"content\":[{\"content\":\"o1\",\"tool_use_id\":\"1\",\"type\":\"tool_result\"},{\"content\":\"o2\",\"tool_use_id\":\"2\",\"type\":\"tool_result\"}],\"role\":\"user\"}"
    );
}

#[test]
fn replies_are_gathered_piece_by_piece() {
    let mut acc = StreamAccumulator::new();
    let events = [
        "{\"type\":\"message_start\",\"message\":{\"usage\":{\"input_tokens\":3,\"cache_read_input_tokens\":4,\"x\":1}}}",
        "{\"type\":\"content_block_start\",\"index\":0,\"content_block\":{\"type\":\"thinking\"}}",
        "{\"type\":\"content_block_delta\",\"index\":0,\"delta\":{\"type\":\"thinking_delta\",\"thinking\":\"hm\"}}",
        "{\"type\":\"content_block_delta\",\"index\":0,\"delta\":{\"type\":\"signature_delta\",\"signature\":\"a\"}}",
        "{\"type\":\"content_block_delta\",\"index\":0,\"delta\":{\"type\":\"signature_delta\",\"signature\":\"b\"}}",
        "{\"type\":\"content_block_start\",\"index\":2,\"content_block\":{\"type\":\"text\"}}",
        "{\"type\":\"content_block_delta\",\"index\":2,\"delta\":{\"type\":\"text_delta\",\"text\":\"Hel\"}}",
        "{\"type\":\"ping\"}",
        "{\"type\":\"content_block_delta\",\"index\":2,\"delta\":{\"type\":\"text_delta\",\"text\":\"lo\"}}",
        "{\"type\":\"content_block_start\",\"index\":3,\"content_block\":{\"type\":\"tool_use\",\"id\":\"i\",\"name\":\"bash\"}}",
        "{\"type\":\"content_block_delta\",\"index\":3,\"delta\":{\"type\":\"input_json_delta\",\"partial_json\":\"{\\\"command\\\":\"}}",
        "{\"type\":\"content_block_delta\",\"index\":3,\"delta\":{\"type\":\"input_json_delta\",\"partial_json\":\"\\\"ls\\\"}\"}}",
        "{\"type\":\"content_block_delta\",\"index\":3,\"delta\":{\"type\":\"text_delta\",\"text\":\"ignored\"}}",
        "{\"type\":\"message_delta\",\"usage\":{\"output_tokens\":7}}",
        "{\"type\":\"message_stop\"}",
    ];
    for e in events {
        assert_eq!(acc.feed(e), Ok(()));
    }
    let r = acc.finish();
    assert_eq!(r.text, "Hello");
    assert_eq!(r.reasoning, "hm");
    assert_eq!(compact_text(&r.reasoning_blocks[0]), "{\"signature\":\"ab\",\"thinking\":\"hm\",\"type\":\"thinking\"}");
    assert_eq!(r.tool_calls.len(), 1);
    assert_eq!(compact_text(&r.tool_calls[0].arguments), "{\"command\":\"ls\"}");
    assert_eq!(r.usage.map(|u| compact_text(&u)), some("{\"cache_read_input_tokens\":4,\"input_tokens\":3,\"output_tokens\":7}"));
}

#[test]
fn errors_in_a_stream_end_it() {
    let mut acc = StreamAccumulator::new();
    assert_eq!(acc.feed("{\"type\":\"error\",\"error\":{\"type\":\"overloaded\"}}"), Err("Anthropic stream error: {\"type\":\"overloaded\"}".to_string()));
    assert_eq!(acc.handle_event(&json("{\"type\":\"error\"}")), Err("Anthropic stream error: null".to_string()));
    assert_eq!(acc.feed("{"), Err("EOF while parsing an object at line 1 column 1".to_string()));
    assert_eq!(
        acc.feed("{\"type\":\"content_block_delta\",\"index\":4096}"),
        Err("Anthropic stream content_block index 4096 exceeds the maximum of 4096".to_string())
    );
    assert_eq!(acc.feed("{\"type\":\"content_block_delta\",\"index\":4095}"), Ok(()));
    assert_eq!(acc.blocks.len(), MAX_CONTENT_BLOCKS);
}

#[test]
fn arguments_that_are_no_json_are_kept() {
    let good = tool_call_of("1".to_string(), "n".to_string(), "[1]".to_string(), parse_json("[1]"));
    assert_eq!(compact_text(&good.arguments), "[1]");
    assert!(good.raw_arguments.is_none());
    let bad = tool_call_of("1".to_string(), "n".to_string(), "{".to_string(), parse_json("{"));
    assert_eq!(compact_text(&bad.arguments), "{}");
    assert_eq!(bad.raw_arguments, some("{"));
    assert_eq!(bad.raw_arguments_error, some("EOF while parsing an object at line 1 column 1"));
}

#[test]
fn usage_of_a_stream_is_merged() {
    assert!(merge_stream_usage(None, None).is_none());
    assert!(merge_stream_usage(Some(&json("{\"x\":1}")), None).is_none());
    assert_eq!(merge_stream_usage(None, Some(2)).map(|u| compact_text(&u)), some("{\"output_tokens\":2}"));
}

#[test]
fn event_lines_are_put_together() {
    let mut lines = EventLines::new();
    assert_eq!(lines.push_line("event: x\n"), None);
    assert_eq!(lines.push_line("data: {\"a\":\n"), None);
    assert_eq!(lines.push_line("data:1}\r\n"), None);
    assert_eq!(lines.complete(), some("{\"a\":\n1}"));
    assert_eq!(lines.push_line("\n"), some("{\"a\":\n1}"));
    assert_eq!(lines.push_line("\n"), None);
    assert_eq!(lines.complete(), None);
}
