use csloop::agent::{RejectReason, RejectedCall, RunResult, ToolResult};
use csloop::cli::{resolve_logging, Cli};
use csloop::json::{array, number_value, object1, object2, object3, text_value, Json};
use csloop::json_codec::{compact_text, parse_json};
use csloop::logging::{event_text, iso_utc_now, new_run_id, read_events, read_toml_events, run_id_text, timestamp_or_epoch, toml_val, with_timestamp, Moment, ToolLogToml};
use csloop::observer::{reasoning_block, ConsoleObserver};
use csloop::telemetry::{cap_strings, manifest_document, phase_document, phase_file, phase_value, PhaseInfo, MAX_FIELD_CHARS};
use csloop::toml_doc::parse_toml;
use csloop::usage::TokenUsage;

fn json(text: &str) -> Json {
    parse_json(text).unwrap()
}

#[test]
fn toml_event_log_round_trip() {
    let ev1 = object3("args", object2("nested", array(vec![number_value(1), number_value(2), number_value(3)]), "path", text_value("a.txt")), "event", text_value("tool_start"), "iteration", number_value(1));
    let ev2 = object2("event", text_value("multiline"), "text", text_value("line one\nline two"));
    let log = event_text(&ev1) + &event_text(&ev2);
    let events = read_toml_events(log.as_str());
    assert_eq!(events.len(), 2);
    assert_eq!(events[0].get_str("event"), Some("tool_start"));
    assert_eq!(events[0].get("args").and_then(|v| v.get_str("path")), Some("a.txt"));
    assert_eq!(events[0].get("args").and_then(|v| v.get_array("nested")).map(|a| a.len()), Some(3));
    assert_eq!(events[1].get_str("text"), Some("line one\nline two"));
}

#[test]
fn values_are_written_for_the_log() {
    let written = |t: &str| toml_val(&json(t));
    assert_eq!(written("null"), None);
    assert_eq!(written("true"), Some("true".to_string()));
    assert_eq!(written("-3"), Some("-3".to_string()));
    assert_eq!(written("18446744073709551615"), Some("18446744073709551615".to_string()));
    assert_eq!(written("1.5"), Some("1.500000".to_string()));
    assert_eq!(written("\"a\\\\b\\\"c\\td\""), Some("\"a\\\\b\\\"c\\td\"".to_string()));
    assert_eq!(written("\"a\\nb\""), Some("'''\na\nb'''".to_string()));
    assert_eq!(written("\"a'''\\nb\\r\""), Some("\"a'''\\nb\\r\"".to_string()));
    assert_eq!(written("[\"x\\\"y\"]"), Some("\"[\\\"x\\\\\\\"y\\\"]\"".to_string()));
}

#[test]
fn events_are_blocks_of_the_log() {
    assert_eq!(event_text(&json("{\"event\":\"x\",\"n\":null,\"i\":1}")), "\n[[event]]\nevent = \"x\"\ni = 1\n");
    let log = ToolLogToml::new(&Some("/l".to_string()));
    assert_eq!(log.path, "/l");
    assert_eq!(log.render(&json("{\"e\":1}"), "T"), "\n[[event]]\ne = 1\nts = \"T\"\n");
    assert_eq!(log.render(&json("{\"ts\":\"own\"}"), "T"), "\n[[event]]\nts = \"own\"\n");
    assert_eq!(ToolLogToml::new(&Some(String::new())).path, ".csloop/logs/toolusage.toml");
    assert_eq!(ToolLogToml::new(&None).path, ".csloop/logs/toolusage.toml");
    assert_eq!(compact_text(&with_timestamp(&json("{\"z\":1}"), "T")), "{\"ts\":\"T\",\"z\":1}");
}

#[test]
fn escaped_texts_read_back() {
    for s in ["a\\b\"c\td", "x'''\ny\r", "plain", "'''\n\\n\"", "ä€", "a\nb''", "a\n'", "tab\tin\nlines", "\n\nlate", "", "\"", "\\"] {
        let events = read_toml_events(event_text(&object1("text", text_value(s))).as_str());
        assert_eq!(events[0].get_str("text"), Some(s));
    }
}

#[test]
fn events_come_back_without_their_nulls() {
    let first = json("{\"args\":{\"a\":[1,\"x\"]},\"n\":null,\"ok\":true,\"size\":-7}");
    let second = json("{\"usage\":[]}");
    let log = event_text(&first) + &event_text(&second);
    let events = read_toml_events(log.as_str());
    assert_eq!(events.len(), 2);
    assert_eq!(compact_text(&events[0]), "{\"args\":{\"a\":[1,\"x\"]},\"ok\":true,\"size\":-7}");
    assert_eq!(compact_text(&events[1]), "{\"usage\":[]}");
    assert_eq!(read_toml_events("").len(), 0);
}

#[test]
fn only_some_fields_hold_json() {
    let doc = parse_toml("[[event]]\nargs = '{\"a\":1}'\nusage = 'no json'\ntext = '{\"a\":1}'\n").unwrap();
    let events = read_events(&doc);
    assert_eq!(compact_text(&events[0]), "{\"args\":{\"a\":1},\"text\":\"{\\\"a\\\":1}\",\"usage\":\"no json\"}");
    assert_eq!(read_toml_events("event = 1").len(), 0);
    assert_eq!(read_toml_events("oops").len(), 0);
    assert_eq!(read_toml_events("event = [1, {a = 2}]").len(), 1);
}

#[test]
fn run_ids_are_made_of_time_and_process() {
    let t = Moment { year: 2026, month: 3, day: 4, hour: 5, minute: 6, second: 7, nanosecond: 255 };
    assert_eq!(run_id_text(t, 0), "20260304-050607-0000ff");
    assert_eq!(run_id_text(t, 1), "20260304-050607-4a7d14");
    let id = new_run_id(7);
    assert_eq!(id.len(), 22);
    assert!(id.starts_with("20"));
}

#[test]
fn timestamps_have_their_shape() {
    let now = iso_utc_now();
    assert!(now.ends_with('Z'));
    assert_eq!(now.chars().nth(10), Some('T'));
    let shape: String = now.chars().map(|c| if c.is_ascii_digit() { '0' } else { c }).collect();
    assert!(shape == "0000-00-00T00:00:00Z" || shape.starts_with("0000-00-00T00:00:00.0"), "{now}");
    assert!(now.len() == 20 || (22 <= now.len() && now.len() <= 30 && !now.ends_with("0Z")), "{now}");
    assert_eq!(timestamp_or_epoch(None), "1970-01-01T00:00:00Z");
    assert_eq!(timestamp_or_epoch(Some("t".to_string())), "t");
}

#[test]
fn cap_strings_truncates_long_string() {
    let long = "x".repeat(10_000);
    let capped = cap_strings(&text_value(long.as_str()), MAX_FIELD_CHARS);
    let s = capped.as_str().unwrap();
    assert!(s.len() < 10_000);
    assert!(s.contains("truncated, 10000 chars total"));
    assert_eq!(s, format!("{}... [truncated, 10000 chars total]", "x".repeat(500)));
}

#[test]
fn cap_strings_leaves_short_string_untouched() {
    let capped = cap_strings(&text_value("short"), MAX_FIELD_CHARS);
    assert_eq!(capped.as_str().unwrap(), "short");
}

#[test]
fn cap_strings_recurses_into_nested_args() {
    let value = object3(
        "content",
        text_value("x".repeat(10_000).as_str()),
        "edits",
        array(vec![object2("newText", text_value("z"), "oldText", text_value("y".repeat(10_000).as_str()))]),
        "path",
        text_value("secret.env"),
    );
    let capped = cap_strings(&value, MAX_FIELD_CHARS);
    assert!(capped.get_str("content").unwrap().len() < 10_000);
    let edits = capped.get_array("edits").unwrap();
    assert!(edits[0].get_str("oldText").unwrap().len() < 10_000);
    assert_eq!(edits[0].get_str("newText").unwrap(), "z");
    assert_eq!(capped.get_str("path").unwrap(), "secret.env");
}

fn info() -> PhaseInfo {
    PhaseInfo { run_id: "r1".to_string(), loop_index: 1, phase: "author".to_string(), model: "m".to_string(), task_file: "t".to_string(), workdir: "w".to_string() }
}

fn result(tools: Vec<ToolResult>, rejected: Vec<RejectedCall>) -> RunResult {
    RunResult { final_text: Some("x".to_string()), stop_reason: "done".to_string(), usage: TokenUsage::default(), iterations: 1, tool_results: tools, rejected_calls: rejected, iteration_telemetry: Vec::new() }
}

#[test]
fn write_loop_phase_metadata_caps_persisted_args() {
    let tools = vec![ToolResult { name: "write".to_string(), args: object2("content", text_value("x".repeat(10_000).as_str()), "path", text_value("secret.env")), ok: true, output_preview: "Wrote secret.env".to_string() }];
    let text = phase_document(&info(), &result(tools, Vec::new()), &serde_json::Number::from_f64(1.0).unwrap(), "now").unwrap();
    let doc: toml::Table = toml::from_str(&text).unwrap();
    let persisted_content = doc["tools"][0]["args"]["content"].as_str().unwrap();
    assert!(persisted_content.len() < 1000, "expected capped content, got {} chars", persisted_content.len());
    assert!(persisted_content.contains("truncated"));
}

#[test]
fn write_loop_phase_metadata_caps_rejected_args_too() {
    let rejected = vec![RejectedCall { name: "write".to_string(), args: object1("content", text_value("y".repeat(10_000).as_str())), reason: RejectReason::RepeatBlocked }];
    let text = phase_document(&info(), &result(Vec::new(), rejected), &serde_json::Number::from_f64(1.0).unwrap(), "now").unwrap();
    let doc: toml::Table = toml::from_str(&text).unwrap();
    let persisted_content = doc["rejected_calls"][0]["args"]["content"].as_str().unwrap();
    assert!(persisted_content.len() < 1000);
}

#[test]
fn phases_are_recorded() {
    let tools = vec![
        ToolResult { name: "read".to_string(), args: object1("path", text_value("p")), ok: false, output_preview: "Error: x".to_string() },
        ToolResult { name: "read".to_string(), args: Json::Null, ok: true, output_preview: "y".to_string() },
    ];
    let mut r = result(tools, Vec::new());
    r.usage = TokenUsage { input: 1, output: 2, reasoning: 3, cache_write: 4, cache_read: u64::MAX };
    let v = phase_value(&info(), &r, &serde_json::Number::from_f64(1.25).unwrap(), "now");
    assert_eq!(
        compact_text(&v),
        "{\"created_at\":\"now\",\"duration_s\":1.25,\"final_text_present\":true,\"iterations\":1,\"loop_index\":1,\"model\":\"m\",\"phase\":\"author\",\"rejected_calls\":[],\"run_id\":\"r1\",\"stop_reason\":\"done\",\"task_file\":\"t\",\"tool_calls\":{\"errors\":1,\"executed\":2,\"ok\":1,\"rejected\":0},\"tools\":[{\"args\":{\"path\":\"p\"},\"name\":\"read\",\"ok\":false,\"output_preview\":\"Error: x\"},{\"args\":null,\"name\":\"read\",\"ok\":true,\"output_preview\":\"y\"}],\"usage\":{\"cache_read\":-1,\"cache_write\":4,\"input\":1,\"output\":2,\"reasoning\":3},\"workdir\":\"w\"}"
    );
    assert_eq!(phase_file(7, "review"), "loop_007_review.toml");
    assert_eq!(phase_file(1234, "author"), "loop_1234_author.toml");
}

#[test]
fn whole_numbers_of_seconds_are_fractions_in_the_record() {
    let text = phase_document(&info(), &result(Vec::new(), Vec::new()), &serde_json::Number::from_f64(2.0).unwrap(), "now").unwrap();
    assert!(text.contains("duration_s = 2.0\n"), "{text}");
}

#[test]
fn manifests_list_files_in_order() {
    let files = vec!["/m/loop_002_author.toml".to_string(), "/m/loop_001_review.toml".to_string(), "/".to_string()];
    assert_eq!(
        manifest_document(&object1("run_id", text_value("r")), &files, "now").unwrap(),
        "phase_files = [\"loop_001_review.toml\", \"loop_002_author.toml\"]\nupdated_at = \"now\"\n\n[run]\nrun_id = \"r\"\n"
    );
}

#[test]
fn logging_is_asked_for() {
    assert_eq!(resolve_logging(false, None), None);
    assert_eq!(resolve_logging(true, None), Some(String::new()));
    assert_eq!(resolve_logging(false, Some("p".to_string())), Some("p".to_string()));
    let cli = Cli { task_file: "t".to_string(), model: "m".to_string(), agent_loops: 5, agent_iterations: 30, workdir: None, verbose: true, log_enabled: true, log_path: None, reason: false };
    let cfg = cli.into_config();
    assert_eq!((cfg.task_file, cfg.model, cfg.agent_loops, cfg.agent_iterations), ("t".to_string(), "m".to_string(), 5, 30));
    assert_eq!(cfg.logging, Some(String::new()));
    assert!(cfg.verbose && !cfg.reason && cfg.workdir.is_none());
}

#[test]
fn progress_is_shown() {
    let usage = TokenUsage { input: 1234, output: 5, reasoning: 0, cache_write: 0, cache_read: 0 };
    assert_eq!(ConsoleObserver.on_model_response(&usage, "", false), vec!["    usage  in 1,234  out 5  total 1,239".to_string()]);
    let full = TokenUsage { input: 1, output: 2, reasoning: 3, cache_write: 4000, cache_read: 5 };
    assert_eq!(
        ConsoleObserver.on_model_response(&full, "a\nb", true),
        vec![
            "    │ \u{1b}[2ma\u{1b}[0m".to_string(),
            "    │ \u{1b}[2mb\u{1b}[0m".to_string(),
            "    usage  in 1  out 2  rsn 3  cache_write 4,000  cache_read 5  total 4,008".to_string(),
        ]
    );
    assert_eq!(reasoning_block("", false), vec!["    │ ".to_string()]);
    assert_eq!(ConsoleObserver.on_tool_start("ls", "x"), format!("    ▸ ls     x{}", " ".repeat(59)));
    assert_eq!(ConsoleObserver.on_tool_start("longname", "x".repeat(61).as_str()), format!("    ▸ longname  {}", "x".repeat(61)));
    assert_eq!(ConsoleObserver.on_tool_end("read", "done"), "  done");
    assert_eq!(ConsoleObserver.on_run_end(&usage), "  tokens  in 1,234  out 5  total 1,239");
}
