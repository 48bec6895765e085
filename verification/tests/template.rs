use csloop::chat_template::{declared_roles, has_bad_triple_double_quote_content, is_valid_bash_tool_name, load_chat_template, messages_to_json, read_template, ChatMessage, ChatTemplateMeta, Role};
use csloop::json_codec::compact_text;
use csloop::toml_doc::parse_toml;

fn load(text: &str) -> Result<(Vec<ChatMessage>, ChatTemplateMeta), String> {
    load_chat_template("/w/t.toml", &Ok(text.to_string()))
}

fn fault(text: &str) -> String {
    match load(text) {
        Ok(_) => panic!("expected {text:?} to be refused"),
        Err(e) => e,
    }
}

fn roles(text: &str) -> Vec<(String, String)> {
    match load(text) {
        Ok((messages, _)) => messages.into_iter().map(|m| (m.role, m.content)).collect(),
        Err(e) => panic!("unexpected error: {e}"),
    }
}

fn pair(role: &str, content: &str) -> (String, String) {
    (role.to_string(), content.to_string())
}

#[test]
fn command_names_are_bare() {
    assert!(is_valid_bash_tool_name("python3.8"));
    assert!(is_valid_bash_tool_name("g++_x-1"));
    assert!(!is_valid_bash_tool_name(""));
    assert!(!is_valid_bash_tool_name("a b"));
    assert!(!is_valid_bash_tool_name("/bin/ls"));
    assert!(!is_valid_bash_tool_name("é"));
}

#[test]
fn triple_double_quotes_are_found() {
    assert!(has_bad_triple_double_quote_content("content = \"\"\"x\"\"\""));
    assert!(has_bad_triple_double_quote_content("content \n =\t\"\"\""));
    assert!(!has_bad_triple_double_quote_content("content = '''x'''"));
    assert!(!has_bad_triple_double_quote_content("contents = \"\"\"x"));
    assert!(!has_bad_triple_double_quote_content("content"));
    assert!(has_bad_triple_double_quote_content("content content=\"\"\""));
}

#[test]
fn headers_are_found_in_order() {
    let found = declared_roles("[[chat.user]]\n[[chat.assistant]]\n[[chat.user]]\n[chat.user]");
    assert!(found == vec![Role::User, Role::Assistant, Role::User]);
}

#[test]
fn only_headers_count_as_headers() {
    let user = vec![Role::User];
    assert!(declared_roles("# [[chat.assistant]] goes here\n[[chat.user]]\ncontent = 'x'\n") == user);
    assert!(declared_roles("[[chat.user]]\ncontent = '''\n[[chat.assistant]]\n'''\n") == user);
    assert!(declared_roles("[[chat.user]]\ncontent = \"\"\"\n\\\"\"\"\n[[chat.assistant]]\n\"\"\"\n") == user);
    assert!(declared_roles("[[chat.user]]\ncontent = '[[chat.assistant]]'\nx = \"#\" # '''\n") == user);
    assert!(declared_roles("[[chat.user]] # [[chat.assistant]]\n") == user);
    assert!(declared_roles("a = [''''q''''', '''\n[[chat.assistant]]\n''']\n [[chat.user]]\n") == user);
    assert!(declared_roles("a = \"\\\"[[\"\nb = 'c:\\'\n\t[[chat.user]]") == user);
    let text = "\u{feff}[[chat.user]]\r\ncontent = ''\r\n[[chat.assistant]]\r\n";
    assert!(declared_roles(text) == vec![Role::User, Role::Assistant]);
    assert!(declared_roles("").is_empty());
    let text = "# [[chat.assistant]] comes later\n[[chat.user]]\ncontent = '''\n[[chat.user]]\n'''\n";
    assert_eq!(roles(text), vec![pair("user", "[[chat.user]]\n")]);
}

#[test]
fn conversations_are_read_in_the_order_of_their_headers() {
    let text = "[[chat.user]]\ncontent = 'one'\n[[chat.assistant]]\ncontent = 'two'\n[[chat.user]]\ncontent = 'three'\n";
    assert_eq!(roles(text), vec![pair("user", "one"), pair("assistant", "two"), pair("user", "three")]);
}

#[test]
fn conversations_are_read_from_a_list() {
    let text = "[[chat]]\nrole = 'user'\ncontent = 'one'\n";
    assert_eq!(roles(text), vec![pair("user", "one")]);
    let data = parse_toml(text).unwrap();
    assert!(read_template("/w/t.toml", text, &data).is_ok());
}

#[test]
fn commands_are_added() {
    match load("[tools]\nbash = ['cargo', 'python3.8', 'cargo']\n[[chat.user]]\ncontent = 'x'\n") {
        Ok((_, meta)) => assert_eq!(meta.bash_allow.to_list(), vec!["cargo".to_string(), "python3.8".to_string()]),
        Err(e) => panic!("unexpected error: {e}"),
    }
}

#[test]
fn files_must_be_toml_files() {
    assert_eq!(load_chat_template("/w/t.txt", &Ok(String::new())).map(|_| ()), Err("Unsupported file extension 'txt'. Expected '.toml'.".to_string()));
    assert_eq!(load_chat_template("/w/t", &Ok(String::new())).map(|_| ()), Err("Unsupported file extension ''. Expected '.toml'.".to_string()));
    assert_eq!(load_chat_template("/w/t.toml", &Err("gone".to_string())).map(|_| ()), Err("failed to read task file /w/t.toml: gone".to_string()));
    assert!(fault("a = ").starts_with("failed to parse TOML in /w/t.toml: TOML parse error"));
}

#[test]
fn what_is_wrong_is_named() {
    assert_eq!(fault("tools = 1\n[[chat.user]]\ncontent = 'x'"), "[tools] must be a table in /w/t.toml");
    assert_eq!(fault("[tools]\nbash = 'x'"), "[tools].bash must be a list of strings in /w/t.toml");
    assert_eq!(fault("[tools]\nbash = [1]"), "[tools].bash must be a list of strings in /w/t.toml");
    assert_eq!(fault("[tools]\nbash = ['a b']"), "Invalid bash tool name 'a b' in /w/t.toml. Use a bare command name only (e.g. 'python3.8'), no args or paths.");
    assert_eq!(
        fault("[[chat.user]]\ncontent = \"\"\"x\"\"\""),
        "Invalid TOML quoting in /w/t.toml: Use triple single quotes ('''...''') for multi-line content blocks instead of triple double quotes (\"\"\"...\"\"\")."
    );
    assert_eq!(fault("a = 1"), "'chat' key not found in TOML file: /w/t.toml");
    assert_eq!(fault("chat = 1"), "Unexpected 'chat' structure in /w/t.toml");
    assert_eq!(fault("chat = [1]"), "Invalid [[chat]] entry in /w/t.toml");
    assert_eq!(fault("[[chat]]\nrole = 'user'"), "Invalid [[chat]] entry in /w/t.toml");
    assert_eq!(fault("[[chat]]\nrole = 'system'\ncontent = 'x'"), "Invalid role 'system' in /w/t.toml");
    let data = parse_toml("[[chat.user]]\ncontent = 'x'").unwrap();
    let declared = |raw: &str| read_template("/w/t.toml", raw, &data).err().unwrap_or_default();
    assert_eq!(declared("[[chat.assistant]]\n"), "[[chat.assistant]] section declared but not found in /w/t.toml");
    assert_eq!(declared("[[chat.user]]\n[[chat.user]]\n"), "More [[chat.user]] headers than parsed entries for user in /w/t.toml");
    assert_eq!(fault("[[chat.user]]\nx = 'x'"), "[[chat.user]] entry missing 'content' in /w/t.toml");
    assert_eq!(fault("chat = []"), "Chat template is empty.");
    assert_eq!(fault("[[chat.assistant]]\ncontent = 'x'"), "Conversation must start with a 'user' message.");
    assert_eq!(fault("[[chat.user]]\ncontent = 'x'\n[[chat.assistant]]\ncontent = 'y'"), "Conversation must end with a 'user' message.");
    assert_eq!(fault("[[chat.user]]\ncontent = 'x'\n[[chat.user]]\ncontent = 'y'"), "Invalid role order at positions 1 and 2: two consecutive 'user' entries found.");
}

#[test]
fn messages_are_handed_on() {
    let m = vec![ChatMessage { role: "user".to_string(), content: "x\ny".to_string() }];
    assert_eq!(compact_text(&messages_to_json(&m)[0]), "{\"content\":\"x\\ny\",\"role\":\"user\"}");
}
