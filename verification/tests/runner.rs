use csloop::agent::{RejectReason, RejectedCall, RunResult, ToolResult};
use csloop::chat_template::{ChatMessage, ChatTemplateMeta};
use csloop::cli::RunnerConfig;
use csloop::json::{object1, text_value};
use csloop::json_codec::compact_text;
use csloop::loop_runner::prompts::{build_author_task, build_review_task, build_system_prompt, format_loop_context};
use csloop::loop_runner::records::{tokens_fit, update_cumulative_tokens};
use csloop::loop_runner::reports::Status;
use csloop::loop_runner::summaries::{loop_summary_from_result, LoopSummary};
use csloop::loop_runner::{author_done_note, phase_banner, review_done_note, PromptLoopRunner, Stage};
use csloop::ordered::NameSet;
use csloop::toml_doc::parse_toml;
use csloop::tools::sets::Tool;
use csloop::usage::TokenUsage;

fn owned(list: &[&str]) -> Vec<String> {
    list.iter().map(|s| s.to_string()).collect()
}

fn tool(name: &str, key: &str, value: &str, ok: bool, preview: &str) -> ToolResult {
    ToolResult { name: name.to_string(), args: object1(key, text_value(value)), ok, output_preview: preview.to_string() }
}

fn result(final_text: Option<&str>, tools: Vec<ToolResult>, input: u64) -> RunResult {
    RunResult {
        final_text: final_text.map(|s| s.to_string()),
        stop_reason: "final_text".to_string(),
        usage: TokenUsage { input, output: 2, reasoning: 9, cache_write: 3, cache_read: 4 },
        iterations: 1,
        tool_results: tools,
        rejected_calls: vec![RejectedCall { name: "bash".to_string(), args: object1("command", text_value("ls\n")), reason: RejectReason::IterationSkip }],
        iteration_telemetry: Vec::new(),
    }
}

fn config() -> RunnerConfig {
    RunnerConfig { task_file: "t.toml".to_string(), model: "m".to_string(), agent_loops: 2, agent_iterations: 30, verbose: false, logging: None, workdir: None, reason: false }
}

fn message(content: &str) -> ChatMessage {
    ChatMessage { role: "user".to_string(), content: content.to_string() }
}

fn runner() -> PromptLoopRunner {
    PromptLoopRunner::new(
        config(),
        "/w".to_string(),
        "/w/sub/t.toml".to_string(),
        "id".to_string(),
        "T0".to_string(),
        "T1".to_string(),
        (vec![message("do")], ChatTemplateMeta { bash_allow: NameSet::of_list(&owned(&["cargo"])) }),
    )
}

#[test]
fn a_run_is_set_up() {
    let r = runner();
    assert_eq!(r.task_rel, "sub/t.toml");
    assert_eq!(r.review_output_rel, ".csloop/loop/review_output.toml");
    assert_eq!(r.system, build_system_prompt());
    assert!(r.system.starts_with("You are an autonomous coding agent specializing in test-driven development and repair.\n"));
    assert_eq!(compact_text(&r.chat_history[0]), "{\"content\":\"do\",\"role\":\"user\"}");
    assert_eq!(r.run_toml_data.task_file, "/w/sub/t.toml");
    assert_eq!(r.run_toml_data.created_at, "T0");
    assert_eq!(r.state.phase, "idle");
    assert_eq!(r.state.updated_at, "T1");
    assert_eq!(r.protected_paths(), owned(&["/w/sub/t.toml"]));
    assert_eq!(r.review_iterations(), 15);
    assert_eq!(r.build_review_logging().path, "/w/.csloop/loop/review.toml");
    assert_eq!(r.initial_task_file(1), Some("/w/sub/t.toml".to_string()));
    assert_eq!(r.initial_task_file(2), None);
}

#[test]
fn reviews_stay_within_the_iterations_of_a_session() {
    let mut r = runner();
    for (limit, review) in [(0, 0), (3, 3), (6, 6), (7, 6), (12, 6), (13, 6), (14, 7), (30, 15)] {
        r.agent_iterations = limit;
        assert_eq!(r.review_iterations(), review);
    }
}

#[test]
fn events_are_logged_where_asked() {
    let mut r = runner();
    let paths = |r: &PromptLoopRunner| r.build_author_logging().into_iter().map(|l| l.path).collect::<Vec<String>>();
    assert_eq!(paths(&r), owned(&["/w/.csloop/loop/author.toml"]));
    r.logging = Some(String::new());
    assert_eq!(paths(&r), owned(&["/w/.csloop/loop/author.toml", ".csloop/logs/toolusage.toml"]));
    r.logging = Some("x".to_string());
    assert_eq!(paths(&r), owned(&["/w/.csloop/loop/author.toml", "x"]));
}

#[test]
fn a_changed_task_file_changes_the_conversation_but_not_the_commands() {
    let mut r = runner();
    assert!(!r.needs_reload(None));
    assert!(r.needs_reload(Some(5)));
    r.reload_task_context(Some(5), &vec![message("other")]);
    assert!(!r.needs_reload(Some(5)));
    assert!(r.needs_reload(Some(6)));
    assert!(r.needs_reload(None));
    assert_eq!(compact_text(&r.chat_history[0]), "{\"content\":\"other\",\"role\":\"user\"}");
    assert_eq!(r.bash_allow.to_list(), owned(&["cargo"]));
    match &r.build_author_tools()[2] {
        Tool::Bash(b) => {
            assert!(b.allowed_commands.contains("cargo"));
            assert_eq!(b.protected_paths, owned(&["/w/sub/t.toml"]));
        }
        _ => panic!("expected the command tool"),
    }
    match &r.build_review_tools()[3] {
        Tool::Bash(b) => assert!(!b.allowed_commands.contains("cargo")),
        _ => panic!("expected the command tool"),
    }
}

#[test]
fn states_are_checked() {
    let mut r = runner();
    r.update_state(1, "author");
    match r.state_record("now") {
        Ok(s) => assert_eq!((s.loop_index, s.phase, s.updated_at), (1, "author".to_string(), "now".to_string())),
        Err(e) => panic!("unexpected error: {e}"),
    }
    assert_eq!(r.state.updated_at, "T1");
    r.update_state(1, "sleeping");
    assert_eq!(r.state_record("now").map(|s| s.phase), Err("state.phase must be one of [\"idle\", \"author\", \"review\"], got \"sleeping\"".to_string()));
    r.state.run_id = String::new();
    assert_eq!(r.state_record("now").map(|s| s.phase), Err("state.run_id must be a non-empty string".to_string()));
}

#[test]
fn loops_are_summed_up() {
    let tools = vec![
        tool("write", "path", "a", true, "Wrote a"),
        tool("edit", "path", "b", true, "{}"),
        tool("read", "path", "c", true, "x"),
        tool("bash", "command", " cargo\ntest ", true, "exit_code: 0\nok\n"),
        tool("read", "path", "d", false, "Error: gone"),
        tool("edit", "path", "e", false, "  "),
        tool("glob", "pattern", "*", true, "x"),
    ];
    let s = loop_summary_from_result(3, &result(None, tools, 1));
    assert_eq!(s.loop_index, 3);
    assert_eq!(s.files_written, owned(&["a"]));
    assert_eq!(s.files_edited, owned(&["b"]));
    assert_eq!(s.files_read, owned(&["c"]));
    assert_eq!(s.commands_run, owned(&["cargo test  →  exit_code: 0"]));
    assert_eq!(s.errors, owned(&["read(d): Error: gone", "edit(e): unknown error"]));
    assert_eq!(s.rejected, owned(&["bash(ls): iteration_skip"]));
    assert_eq!((s.total_input_tokens, s.total_output_tokens, s.total_cache_creation_tokens, s.total_cache_read_tokens), (1, 2, 3, 4));
}

#[test]
fn the_context_of_a_loop() {
    assert_eq!(
        format_loop_context(1, 5, &Vec::new(), &Vec::new()),
        "Loop 1 of 5.\nNo pending steps recorded — determine next action from the task file."
    );
    let mut one = LoopSummary::new(1);
    one.files_written = owned(&["a", "b", "a"]);
    let mut two = LoopSummary::new(2);
    two.files_written = owned(&["b", "c"]);
    two.files_edited = owned(&["x"]);
    two.commands_run = owned(&["1", "2", "3", "4"]);
    two.errors = owned(&["bad"]);
    assert_eq!(
        format_loop_context(3, 5, &vec![one, two], &owned(&["p1", "p2", "p3", "p4", "p5", "p6"])),
        "Loop 3 of 5.\nFiles created across all prior loops: a, b, c\nFiles edited across all prior loops: x\nLast loop — ran: 1; 2; 3 | errors: bad.\nPending next steps:\n  - p1\n  - p2\n  - p3\n  - p4\n  - p5"
    );
}

#[test]
fn authors_are_told_what_to_do() {
    let first = build_author_task("/w", "t.toml", "TEXT", 1, 5, &Vec::new(), &Vec::new());
    assert!(first.starts_with("Loop 1 of 5.\nNo pending steps recorded — determine next action from the task file.\n\nWorking directory: /w\nTask file: t.toml (read-only — contains the full specification)\n\nPHASE: AUTHOR\n\nGoal: COMPLETE the task"));
    assert!(first.contains("Protocol:\n1. The full task specification is provided below — do NOT re-read the task file.\n\n<task_specification>\nTEXT\n</task_specification>\n2. Write a short PLAN (3–7 bullets) covering everything you intend to complete now.\n"));
    assert!(first.ends_with("  the following loop, beginning with the exact line: NEXT STEPS:\n"));
    let blind = build_author_task("/w", "t.toml", "", 1, 5, &Vec::new(), &Vec::new());
    assert!(blind.contains("Protocol:\n1. Read the task file to orient yourself on the specification.\n2. Write"));
    let later = build_author_task("/w", "t.toml", "TEXT", 2, 5, &Vec::new(), &Vec::new());
    assert!(later.contains("Protocol:\n1. The specification and all prior work are already summarised above — do NOT re-read the task file or re-glob the workspace to orient yourself.\n2. Write"));
    assert!(!later.contains("TEXT"));
}

#[test]
fn reviews_are_told_what_was_done() {
    let mut s = LoopSummary::new(2);
    let none = build_review_task("/w", "t.toml", "r.toml", 2, &s, "");
    assert!(none.starts_with("Working directory: /w\nTask file: t.toml (read-only)\nReview output: r.toml (write here)\n\nPHASE: REVIEW\n\n## Verified actions from loop 2 (harness-computed)\n  (no verified actions)\n\nYour job:\n1. Cross-reference"));
    assert!(none.contains("   ```toml\n   loop = 2\n   summary = \"One paragraph"));
    assert!(none.ends_with("Finish with <final_answer> confirming you wrote the review output file.\n"));
    s.files_read = owned(&["a", "b"]);
    s.files_written = owned(&["c"]);
    s.files_edited = owned(&["d"]);
    s.commands_run = owned(&["ls"]);
    s.errors = owned(&["bad"]);
    s.rejected = owned(&["x"]);
    let full = build_review_task("/w", "t.toml", "r.toml", 2, &s, "ANSWER");
    assert!(full.contains(
        "## Verified actions from loop 2 (harness-computed)\nFiles read: a, b\nFiles written: c\nFiles edited: d\nCommands run:\n  ls\nErrors:\n  bad\n\n## Attempted but NOT executed (harness-rejected — no workspace effect)\n  x\n\n\n[Author agent report — loop 2]\n\nANSWER\n\nYour job:\n"
    ));
}

#[test]
fn the_stages_of_a_run() {
    let mut r = runner();
    assert_eq!(r.first_stage(), Stage::Author(1));
    assert_eq!(r.after_author(1, None), Stage::Review(1));
    assert_eq!(r.after_author(1, Some(Status::Incomplete)), Stage::Review(1));
    assert_eq!(r.after_review(1, false), Stage::Author(2));
    assert_eq!(r.after_review(1, true), Stage::Done);
    assert_eq!(r.after_review(2, false), Stage::Done);
    r.pending_items = owned(&["x"]);
    assert_eq!(r.after_author(2, Some(Status::Complete)), Stage::Done);
    assert_eq!(r.pending_items, Vec::<String>::new());
    r.agent_loops = 0;
    assert_eq!(r.first_stage(), Stage::Done);
}

#[test]
fn what_the_author_did_is_taken_over() {
    let mut r = runner();
    let done = result(Some("STATUS: INCOMPLETE\nNEXT STEPS:\n- a\n"), vec![tool("write", "path", "f", true, "ok")], 10);
    let (summary, answer, status) = r.record_author(1, &done);
    assert_eq!(summary.files_written, owned(&["f"]));
    assert_eq!(answer, "STATUS: INCOMPLETE\nNEXT STEPS:\n- a\n");
    assert_eq!(status, Some(Status::Incomplete));
    assert_eq!(r.pending_items, owned(&["a"]));
    assert_eq!(r.loop_summaries.len(), 1);
    assert!(r.author_task(2, &None).contains("Files created across all prior loops: f\n"));
    assert!(r.author_task(1, &Some(vec![0x41, 0xff])).contains("<task_specification>\nA\u{fffd}\n</task_specification>"));
    assert!(r.review_task(1, &summary, "").contains("Files written: f\n"));
    let (_, silent, none) = r.record_author(2, &result(None, Vec::new(), 5));
    assert_eq!(silent, "");
    assert_eq!(none, None);
    assert_eq!(r.pending_items, Vec::<String>::new());
    assert!(r.count_progress(2));
    assert_eq!(r.run_toml_data.cumulative_input_tokens, 15);
    assert_eq!(r.run_toml_data.loops_completed, 2);
    assert_eq!(r.loops_completed, 0);
    r.complete_loop(2);
    assert_eq!(r.closing_text(), "completed 2/2 loop(s) — run: id — artifacts: /w/.csloop/loop");
}

#[test]
fn counts_that_do_not_fit_are_not_taken_over() {
    let mut r = runner();
    let _ = r.record_author(1, &result(None, Vec::new(), u64::MAX));
    assert!(r.count_progress(1));
    assert_eq!(r.manifest("now"), Err("u64 value was too large".to_string()));
    let _ = r.record_author(2, &result(None, Vec::new(), 1));
    assert!(!r.count_progress(2));
    assert_eq!(r.run_toml_data.loops_completed, 1);
    assert!(!tokens_fit(&r.loop_summaries));
}

#[test]
fn tokens_add_up() {
    let mut r = runner();
    let mut s = LoopSummary::new(1);
    s.total_output_tokens = 5;
    let list = vec![s.copy(), s];
    update_cumulative_tokens(&mut r.run_toml_data, &list);
    assert_eq!(r.run_toml_data.cumulative_output_tokens, 10);
}

#[test]
fn records_are_listed() {
    let mut r = runner();
    r.note_phase_file("/w/.csloop/loop/metadata/loop_001_author.toml".to_string());
    assert!(r.count_progress(1));
    assert_eq!(
        r.manifest("now").unwrap(),
        "phase_files = [\"loop_001_author.toml\"]\nupdated_at = \"now\"\n\n[run]\nagent_iterations = 30\nagent_loops = 2\ncreated_at = \"T0\"\ncumulative_cache_creation_tokens = 0\ncumulative_cache_read_tokens = 0\ncumulative_input_tokens = 0\ncumulative_output_tokens = 0\nloops_completed = 1\nmodel = \"m\"\nrun_id = \"id\"\ntask_file = \"/w/sub/t.toml\"\nworkdir = \"/w\"\n"
    );
    let info = r.phase_info(4, "review");
    assert_eq!((info.loop_index, info.phase, info.run_id), (4, "review".to_string(), "id".to_string()));
}

#[test]
fn verdicts_are_applied() {
    let mut r = runner();
    r.pending_items = owned(&["old"]);
    assert!(!r.apply_review_data(&parse_toml("loop = 1\nblocker = ''\n").unwrap()));
    assert_eq!(r.pending_items, owned(&["old"]));
    assert!(!r.apply_review_data(&parse_toml("blocker = ''\npending = ['a', '', 3, {item = 'b'}, {x = 1}, {item = ''}]\n").unwrap()));
    assert_eq!(r.pending_items, owned(&["a", "b"]));
    assert!(!r.apply_review_data(&parse_toml("blocker = 'net'\npending = []\n").unwrap()));
    assert!(r.apply_review_data(&parse_toml("pending = []\n").unwrap()));
}

#[test]
fn verdicts_are_read() {
    let mut r = runner();
    assert!(!r.read_review(&None));
    assert!(!r.read_review(&Some(String::new())));
    assert!(!r.read_review(&Some("oops".to_string())));
    assert!(r.read_review(&Some("loop = 1\nblocker = \"\"\n".to_string())));
    assert!(!r.read_review(&Some("[[pending]]\nitem = 'x'\n".to_string())));
    assert_eq!(r.pending_items, owned(&["x"]));
}

#[test]
fn progress_notes() {
    assert_eq!(phase_banner(2, "author"), "\n▶  loop 2 [author]");
    assert_eq!(author_done_note(1), "\n✓ author agent reported STATUS: COMPLETE after loop 1 — task complete, stopping early.");
    assert_eq!(review_done_note(1), "\n✓ No pending items and no blocker after loop 1 — task complete, stopping early.");
}
