use csloop::json::Json;
use csloop::json_codec::{compact_text, parse_json};
use csloop::ordered::NameSet;
use csloop::tools::edit::{snippet, EditTarget, EditTool};
use csloop::tools::glob::{GlobEntry, GlobOutcome, GlobTool};
use csloop::tools::read::{excerpt_text, FileOutcome, ReadTool};
use csloop::tools::sets::{listings, make_readonly_tools, make_review_tools, make_tools, Tool};
use csloop::tools::write::WriteTool;
use csloop::tools::{error_output, AgentTool};

fn json(text: &str) -> Json {
    parse_json(text).unwrap()
}

fn edit_args(old: &str, new: &str) -> Json {
    json(&format!("{{\"path\":\"f.txt\",\"edits\":[{{\"oldText\":\"{old}\",\"newText\":\"{new}\"}}]}}"))
}

#[test]
fn edit_requires_exactly_one_match() {
    let out = match EditTool::apply("/w/f.txt", "aa", &edit_args("a", "b")) {
        Ok(_) => panic!("expected ambiguous match to error"),
        Err(e) => e,
    };
    assert!(out.starts_with("Error:"), "expected ambiguous match to error, got: {out}");
    assert_eq!(out, "Error: oldText must match exactly once; found 2 matches for: \"a\"");
}

#[test]
fn edit_applies_unique_match() {
    let done = match EditTool::apply("/w/f.txt", "hello world", &edit_args("world", "there")) {
        Ok(d) => d,
        Err(e) => panic!("unexpected error: {e}"),
    };
    assert_eq!(done.after, "hello there");
    assert!(!done.report.starts_with("Error:"));
    assert_eq!(
        done.report,
        "{\n  \"applied\": 1,\n  \"ok\": true,\n  \"path\": \"/w/f.txt\",\n  \"replacements\": [\n    {\n      \"after_snippet\": \"hello there\",\n      \"before_snippet\": \"hello world\",\n      \"index\": 0,\n      \"match_count\": 1,\n      \"new_len\": 5,\n      \"old_len\": 5\n    }\n  ]\n}"
    );
}

#[test]
fn edits_are_checked_against_the_text_before() {
    let args = json("{\"path\":\"f\",\"edits\":[{\"oldText\":\"a\",\"newText\":\"b\"},{\"oldText\":\"b\",\"newText\":\"c\"}]}");
    assert!(EditTool::apply("f", "a", &args).is_err());
    let done = match EditTool::apply("f", "ab", &args) {
        Ok(d) => d,
        Err(e) => panic!("unexpected error: {e}"),
    };
    assert_eq!(done.after, "cc");
    assert!(done.report.contains("(newText not found after write)"));
}

#[test]
fn edits_need_both_texts() {
    let args = json("{\"path\":\"f\",\"edits\":[{\"oldText\":\"a\"}]}");
    assert_eq!(EditTool::apply("f", "a", &args).map(|d| d.after), Err("Error: each edit must include oldText and newText".to_string()));
    assert_eq!(EditTool::wanted(&json("{\"path\":\"f\"}")), Err("Error: missing required argument 'edits'".to_string()));
    assert_eq!(EditTool::wanted(&json("{\"path\":\"f\",\"edits\":[]}")), Err("Error: missing required argument 'edits'".to_string()));
    assert_eq!(EditTool::wanted(&json("{\"path\":\"\"}")), Err("Error: missing required argument 'path'".to_string()));
    assert_eq!(EditTool::wanted(&args), Ok("f".to_string()));
}

#[test]
fn snippets_show_the_surroundings() {
    assert_eq!(snippet("abcdefgh", 3, 5, 1), "…cdef…");
    assert_eq!(snippet("abc", 0, 3, 80), "abc");
}

/// How a write is answered where its path leads to `resolved`, and nothing is in the way.
fn write_answer(tool: &WriteTool, args: &Json, resolved: &str) -> String {
    match WriteTool::wanted(args) {
        Ok(request) => match tool.prepare(&Ok(resolved.to_string())) {
            Ok(path) => WriteTool::report(&path, &request.content),
            Err(e) => e,
        },
        Err(e) => e,
    }
}

/// How an edit is answered where its path leads to `resolved`, a file that holds `content`.
fn edit_answer(tool: &EditTool, args: &Json, resolved: &str, content: &str) -> String {
    match EditTool::wanted(args) {
        Ok(_) => match tool.prepare(args, &EditTarget::Found(resolved.to_string(), content.to_string())) {
            Ok(done) => done.after,
            Err(e) => e,
        },
        Err(e) => e,
    }
}

#[test]
fn write_blocks_git_internal_path() {
    let tool = WriteTool::new(Some("/w".to_string()));
    let args = json("{\"path\":\".git/config\",\"content\":\"[core]\\n\\tpager = touch pwned\\n\"}");
    let out = write_answer(&tool, &args, "/w/.git/config");
    assert!(out.starts_with("Error:"), "expected .git write to be rejected, got: {out}");
    assert_eq!(out, "Error: writing files under .git/ is not allowed");
    assert_eq!(tool.refusal("/w/.git/config"), Some(out));
    assert_eq!(write_answer(&tool, &args, "/w/config"), "Wrote /w/config (28 bytes)");
}

#[test]
fn edit_blocks_git_internal_path() {
    let tool = EditTool::new(Some("/w".to_string()));
    let args = json("{\"path\":\".git/config\",\"edits\":[{\"oldText\":\"orig\",\"newText\":\"bad\"}]}");
    let out = edit_answer(&tool, &args, "/w/.git/config", "orig");
    assert!(out.starts_with("Error:"), "expected .git edit to be rejected, got: {out}");
    assert_eq!(out, "Error: editing files under .git/ is not allowed");
    assert_eq!(tool.refusal("/w/.git/config"), Some(out));
    assert_eq!(edit_answer(&tool, &args, "/w/config", "orig"), "bad");
}

#[test]
fn write_blocks_protected_path() {
    let tool = WriteTool::new(Some("/w".to_string())).with_protected_paths(vec!["/w/task.toml".to_string()]);
    let args = json("{\"path\":\"task.toml\",\"content\":\"evil\"}");
    let out = write_answer(&tool, &args, "/w/task.toml");
    assert!(out.starts_with("Error:"), "expected protected-path write to be rejected, got: {out}");
    assert_eq!(out, "Error: writing this file is not allowed");
    assert_eq!(tool.refusal("/w/task.toml"), Some(out));
    assert_eq!(tool.refusal("/w/other.toml"), None);
}

#[test]
fn edit_blocks_protected_path() {
    let tool = EditTool::new(Some("/w".to_string())).with_protected_paths(vec!["/w/task.toml".to_string()]);
    let args = json("{\"path\":\"task.toml\",\"edits\":[{\"oldText\":\"orig\",\"newText\":\"evil\"}]}");
    let out = edit_answer(&tool, &args, "/w/task.toml", "orig");
    assert!(out.starts_with("Error:"), "expected protected-path edit to be rejected, got: {out}");
    assert_eq!(out, "Error: editing this file is not allowed");
    assert_eq!(tool.refusal("/w/x"), None);
}

#[test]
fn files_to_edit_are_looked_at() {
    let tool = EditTool::new(Some("/w".to_string())).with_protected_paths(vec!["/w/task.toml".to_string()]);
    let args = edit_args("world", "there");
    let after = |t: &EditTarget| tool.prepare(&args, t).map(|d| d.after);
    let s = |t: &str| t.to_string();
    assert_eq!(after(&EditTarget::Found(s("/w/f.txt"), s("hello world"))), Ok(s("hello there")));
    assert_eq!(after(&EditTarget::Found(s("/w/task.toml"), s("hello world"))), Err(s("Error: editing this file is not allowed")));
    assert_eq!(after(&EditTarget::Missing(s("/w/.git/x"))), Err(s("Error: editing files under .git/ is not allowed")));
    assert_eq!(after(&EditTarget::Missing(s("/w/x"))), Err(s("Error: file not found: /w/x")));
    assert_eq!(after(&EditTarget::NotFile(s("/w/d"))), Err(s("Error: not a file: /w/d")));
    assert_eq!(after(&EditTarget::Failed(s("/w/x"), s("denied"))), Err(s("Error: denied")));
    assert_eq!(after(&EditTarget::Unresolved(s("Path escapes working directory: ../x"))), Err(s("Error: Path escapes working directory: ../x")));
    assert_eq!(tool.prepare(&json("{}"), &EditTarget::Missing(s("/w/x"))).map(|d| d.after), Err(s("Error: missing required argument 'path'")));
}

#[test]
fn paths_to_write_are_looked_at() {
    let tool = WriteTool::new(Some("/w".to_string())).with_protected_paths(vec!["/w/task.toml".to_string()]);
    assert_eq!(tool.prepare(&Ok("/w/new/f".to_string())), Ok("/w/new/f".to_string()));
    assert_eq!(tool.prepare(&Ok("/w/task.toml".to_string())), Err("Error: writing this file is not allowed".to_string()));
    assert_eq!(tool.prepare(&Err("Path escapes working directory: /x".to_string())), Err("Error: Path escapes working directory: /x".to_string()));
}

#[test]
fn writes_are_reported_in_bytes() {
    assert_eq!(WriteTool::report("/w/f", "äb"), "Wrote /w/f (3 bytes)");
    assert_eq!(WriteTool::wanted(&json("{\"path\":\"f\"}")).map(|r| r.path), Err("Error: missing required argument 'content'".to_string()));
    assert_eq!(WriteTool::wanted(&json("{}")).map(|r| r.path), Err("Error: missing required argument 'path'".to_string()));
    assert_eq!(WriteTool::wanted(&json("{\"path\":\"f\",\"content\":\"\"}")).map(|r| r.content), Ok("".to_string()));
}

#[test]
fn files_are_read_with_line_numbers() {
    assert_eq!(excerpt_text("/w/f", "a\nb\nc", None, None, true), "# path: /w/f\n# lines: 1-3\n0001: a\n0002: b\n0003: c");
    assert_eq!(excerpt_text("/w/f", "a\nb\nc", Some(2), Some(1), true), "# path: /w/f\n# lines: 2-2\n0002: b\n");
    assert_eq!(excerpt_text("/w/f", "a\nb\nc", Some(2), None, false), "b\nc");
    assert_eq!(excerpt_text("/w/f", "a\nb\nc", Some(4), None, true), "");
    assert_eq!(excerpt_text("/w/f", "a\nb", Some(-3), Some(0), false), "a\n");
    assert_eq!(excerpt_text("/w/f", "a\n", Some(1), Some(99999), true), "# path: /w/f\n# lines: 1-1\n00001: a\n");
}

#[test]
fn pages_join_to_the_whole() {
    let text = "a\r\nb\n\nc";
    let first = excerpt_text("p", text, None, Some(2), false);
    let rest = excerpt_text("p", text, Some(3), None, false);
    assert_eq!(first + &rest, text);
    assert_eq!(excerpt_text("p", text, None, None, false), text);
}

#[test]
fn reads_are_answered() {
    let args = json("{\"path\":\"f\",\"with_line_numbers\":0}");
    assert_eq!(ReadTool::wanted(&args), Ok("f".to_string()));
    assert_eq!(ReadTool::wanted(&json("{}")), Err("Error: missing required argument 'path'".to_string()));
    assert_eq!(ReadTool::new(None).answer(&args, &FileOutcome::Unresolved("Path escapes working directory: f".to_string())), "Error: Path escapes working directory: f");
    assert_eq!(ReadTool::new(None).answer(&args, &FileOutcome::Missing("/w/f".to_string())), "Error: file not found: /w/f");
    assert_eq!(ReadTool::new(None).answer(&args, &FileOutcome::NotFile("/w/f".to_string())), "Error: not a file: /w/f");
    assert_eq!(ReadTool::new(None).answer(&args, &FileOutcome::Failed("denied".to_string())), "Error: denied");
    assert_eq!(ReadTool::new(None).answer(&args, &FileOutcome::Found("/w/f".to_string(), vec![0xe4, 0x0a])), "\u{fffd}\n");
}

#[test]
fn protected_files_are_not_read() {
    let args = json("{\"path\":\"task.toml\"}");
    let protected = vec!["/w/task.toml".to_string()];
    for tools in [make_tools("/w", &NameSet::new(), &protected), make_review_tools("/w", &protected)] {
        match &tools[0] {
            Tool::Read(read) => {
                let refusal = "Error: reading this file is not allowed";
                let found = FileOutcome::Found("/w/task.toml".to_string(), b"secret\n".to_vec());
                assert_eq!(read.answer(&args, &found), refusal);
                assert_eq!(read.answer(&args, &FileOutcome::Missing("/w/task.toml".to_string())), refusal);
                assert_eq!(read.refusal("/w/task.toml"), Some(refusal.to_string()));
                assert_eq!(read.refusal("/w/other.toml"), None);
                let other = FileOutcome::Found("/w/other.toml".to_string(), b"open\n".to_vec());
                assert_eq!(read.answer(&args, &other), "# path: /w/other.toml\n# lines: 1-1\n0001: open\n");
            }
            _ => panic!("expected the tool that reads"),
        }
    }
}

fn entry(path: &str, is_dir: bool) -> GlobEntry {
    GlobEntry { path: path.to_string(), is_dir }
}

#[test]
fn matches_are_listed_once_in_order() {
    let found = GlobOutcome::Found("/w".to_string(), vec![entry("/w/b", false), entry("/w/a/c", false), entry("/w/a", true), entry("/w/b", false), entry("/x", false)]);
    assert_eq!(GlobTool::answer(&json("{\"pattern\":\"**\"}"), &found), "/x\na/c\nb");
    assert_eq!(GlobTool::answer(&json("{\"pattern\":\"**\",\"include_dirs\":1}"), &found), "/x\na\na/c\nb");
    assert_eq!(GlobTool::answer(&json("{\"pattern\":\"**\",\"limit\":1}"), &found), "/x");
    assert_eq!(GlobTool::answer(&json("{\"pattern\":\"**\",\"limit\":-1}"), &found), "/x");
    assert_eq!(GlobTool::answer(&json("{\"pattern\":\"\"}"), &found), "Error: missing required argument 'pattern'");
    assert_eq!(GlobTool::answer(&json("{\"pattern\":\"**\"}"), &GlobOutcome::Failed("no".to_string())), "Error: no");
    let request = GlobTool::wanted(&json("{\"pattern\":\"*.rs\",\"root\":\"src\"}"));
    assert_eq!(request.map(|q| (q.pattern, q.root)), Ok(("*.rs".to_string(), Some("src".to_string()))));
}

#[test]
fn tools_are_offered_in_their_shape() {
    let mut tool = WriteTool::new(None);
    assert_eq!(
        compact_text(&tool.to_openai_tool()),
        "{\"function\":{\"description\":\"Write a file (create or overwrite).\",\"name\":\"write\",\"parameters\":{\"additionalProperties\":false,\"properties\":{\"content\":{\"description\":\"Full content to write.\",\"type\":\"string\"},\"path\":{\"description\":\"Path to write.\",\"type\":\"string\"}},\"required\":[\"path\",\"content\"],\"type\":\"object\"}},\"type\":\"function\"}"
    );
    assert!(tool.enabled());
    tool.set_enabled(false);
    assert!(!tool.enabled());
    assert_eq!(WriteTool::new(Some("/w".to_string())).description(), "Write a file (create or overwrite). Access is restricted to the working directory tree.");
    assert_eq!(
        compact_text(ReadTool::new(None).parameters()),
        "{\"additionalProperties\":false,\"properties\":{\"limit\":{\"description\":\"Maximum number of lines to read.\",\"minimum\":1,\"type\":\"integer\"},\"offset\":{\"description\":\"1-indexed starting line number.\",\"minimum\":1,\"type\":\"integer\"},\"path\":{\"description\":\"Path to the file to read.\",\"type\":\"string\"},\"with_line_numbers\":{\"description\":\"Set to 1 (default) to prefix each returned line with its line number; 0 to return raw text.\",\"type\":\"integer\"}},\"required\":[\"path\"],\"type\":\"object\"}"
    );
    assert_eq!(
        compact_text(EditTool::new(None).parameters()),
        "{\"additionalProperties\":false,\"properties\":{\"edits\":{\"description\":\"List of replacements.\",\"items\":{\"additionalProperties\":false,\"properties\":{\"newText\":{\"type\":\"string\"},\"oldText\":{\"type\":\"string\"}},\"required\":[\"oldText\",\"newText\"],\"type\":\"object\"},\"minItems\":1,\"type\":\"array\"},\"path\":{\"description\":\"Path to the file to edit.\",\"type\":\"string\"}},\"required\":[\"path\",\"edits\"],\"type\":\"object\"}"
    );
    assert_eq!(
        compact_text(GlobTool::new(None).parameters()),
        "{\"additionalProperties\":false,\"properties\":{\"include_dirs\":{\"description\":\"Set to 1 to include directories; 0/omitted to include only files.\",\"type\":\"integer\"},\"limit\":{\"description\":\"Maximum number of results to return.\",\"minimum\":1,\"type\":\"integer\"},\"pattern\":{\"description\":\"Glob pattern (supports **).\",\"type\":\"string\"},\"root\":{\"description\":\"Optional root directory for the search (default: current/bounded root).\",\"type\":\"string\"}},\"required\":[\"pattern\"],\"type\":\"object\"}"
    );
}

#[test]
fn tool_sets() {
    let more = NameSet::of_list(&vec!["cargo".to_string()]);
    let protected = vec!["/w/task.toml".to_string()];
    let names = |tools: &Vec<Tool>| listings(tools).iter().map(|t| t.name.clone()).collect::<Vec<String>>();
    let author = make_tools("/w", &more, &protected);
    assert_eq!(names(&author), ["read", "glob", "bash", "edit", "write"].map(|s| s.to_string()).to_vec());
    match &author[2] {
        Tool::Bash(b) => {
            assert!(b.allowed_commands.contains("cargo"));
            assert!(b.allowed_commands.contains("ls"));
            assert_eq!(b.protected_paths, protected);
        }
        _ => panic!("expected the command tool"),
    }
    assert_eq!(names(&make_readonly_tools("/w", &more)), ["read", "glob", "bash"].map(|s| s.to_string()).to_vec());
    let review = make_review_tools("/w", &protected);
    assert_eq!(names(&review), ["read", "glob", "write", "bash"].map(|s| s.to_string()).to_vec());
    match &review[3] {
        Tool::Bash(b) => assert!(!b.allowed_commands.contains("git")),
        _ => panic!("expected the command tool"),
    }
    assert_eq!(error_output("x"), "Error: x");
}
