use csloop::json_codec::parse_json;
use csloop::summary::{diagnostic_result_hint, error_message, first_line, format_args, is_error_output, parse_bash_exit_code, summarize_tool_output, truncate_with_ellipsis};

#[test]
fn errors_are_told_by_their_beginning() {
    assert!(is_error_output("  \nError: x"));
    assert!(!is_error_output("An Error: x"));
    assert_eq!(error_message(" Error:  bad thing \n"), "bad thing");
}

#[test]
fn long_texts_are_cut() {
    assert_eq!(truncate_with_ellipsis("äöü", 2), "äö…");
    assert_eq!(truncate_with_ellipsis("äöü", 3), "äöü");
}

#[test]
fn exit_codes_are_read() {
    assert_eq!(parse_bash_exit_code("exit_code: 3\nSTDOUT:\n"), Some(3));
    assert_eq!(parse_bash_exit_code("exit_code:-1"), Some(-1));
    assert_eq!(parse_bash_exit_code("exit code: 3"), None);
    assert_eq!(parse_bash_exit_code(""), None);
    assert_eq!(first_line("a\nb"), "a");
}

#[test]
fn error_outputs_are_summed_up() {
    assert_eq!(summarize_tool_output("read", " Error:   gone "), "Error: gone");
    let long = format!("Error: {}", "x".repeat(500));
    assert_eq!(summarize_tool_output("read", long.as_str()), format!("Error: {}…", "x".repeat(400)));
}

#[test]
fn command_outputs_are_summed_up() {
    assert_eq!(summarize_tool_output("bash", "exit_code: 0\nSTDOUT:\n\nSTDERR:\n"), "bash exit_code=0\n(no output)");
    assert_eq!(summarize_tool_output("bash", "exit_code: 2\nSTDOUT:\na\n\nb\nSTDERR:\nc\n"), "bash exit_code=2\na\nb\nc");
    assert_eq!(summarize_tool_output("bash", "odd"), "bash exit_code=?\n(no output)");
    let mut text = String::from("exit_code: 0");
    let mut expected: Vec<String> = vec!["bash exit_code=0".to_string()];
    for i in 0..25 {
        text.push_str(&format!("\n{i}"));
        if i < 12 {
            expected.push(i.to_string());
        }
    }
    expected.push("…(snip)…".to_string());
    for i in 13..25 {
        expected.push(i.to_string());
    }
    assert_eq!(summarize_tool_output("bash", text.as_str()), expected.join("\n"));
}

#[test]
fn other_outputs_are_summed_up() {
    assert_eq!(summarize_tool_output("read", "  "), "(empty)");
    assert_eq!(summarize_tool_output("read", " a\nb "), "a\nb");
    let all: Vec<String> = (0..30).map(|i| format!("l{i}")).collect();
    let expected = format!("{}\n…[truncated 6 lines]…\n{}", all[..12].join("\n"), all[18..].join("\n"));
    assert_eq!(summarize_tool_output("glob", all.join("\n").as_str()), expected);
    let wide = "y".repeat(1501);
    assert_eq!(summarize_tool_output("read", wide.as_str()), wide);
}

#[test]
fn calls_are_previewed() {
    let j = |t: &str| parse_json(t).unwrap();
    assert_eq!(format_args("bash", &j("{\"command\":\" ls\\n-l \"}")), "ls -l");
    assert_eq!(format_args("bash", &j(&format!("{{\"command\":\"{}\"}}", "a".repeat(61)))), format!("{}…", "a".repeat(60)));
    assert_eq!(format_args("read", &j("{\"path\":\"p\"}")), "p");
    assert_eq!(format_args("edit", &j("{\"path\":\"p\",\"edits\":[1]}")), "p  (1 edit)");
    assert_eq!(format_args("edit", &j("{\"path\":\"p\",\"edits\":[]}")), "p  (0 edits)");
    assert_eq!(format_args("glob", &j("{\"pattern\":\"*\"}")), "{\"pattern\":\"*\"}");
}

#[test]
fn hints_are_one_line() {
    assert_eq!(diagnostic_result_hint("bash", "exit_code: 0\nSTDOUT:\nhi\n"), "bash exit_code=0");
    assert_eq!(diagnostic_result_hint("read", "z".repeat(71).as_str()), format!("{}…", "z".repeat(70)));
    assert_eq!(diagnostic_result_hint("read", ""), "(empty)");
}
