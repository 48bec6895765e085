use csloop::json::{object1, object2, signed_value, text_value, Json};
use csloop::ordered::NameSet;
use csloop::summary::parse_bash_exit_code;
use csloop::tools::bash::{harden_command, report, BashOutcome, BashTool};
use csloop::tools::resolve::Resolution;
use csloop::tools::sets::{default_allowed_commands, review_allowed_commands};
use csloop::tools::AgentTool;

const ROOT: &str = "/w";

fn allow(list: &[&str]) -> Option<NameSet> {
    Some(NameSet::of_list(&list.iter().map(|s| s.to_string()).collect()))
}

fn call(command: &str) -> Json {
    object1("command", text_value(command))
}

/// Where a word leads when nothing but the root exists in the root and no path has links.
fn resolve(word: &str) -> Option<String> {
    let mut r = Resolution::start(ROOT, word);
    while r.existing != ROOT && r.existing != "/" {
        if !r.climb() {
            return None;
        }
    }
    let place = r.existing.clone();
    r.finish(ROOT, word, &Some(place)).ok()
}

/// How a call is answered where the command prints `printed`.
fn run(tool: &BashTool, command: &str, printed: &str) -> String {
    let args = call(command);
    let resolved: Vec<Option<String>> = tool.words_to_resolve(&args).iter().map(|w| resolve(w.as_str())).collect();
    match tool.prepare(&args, &resolved) {
        Err(e) => e,
        Ok(_) => BashTool::answer(&BashOutcome::Finished(Some(0), printed.as_bytes().to_vec(), Vec::new())),
    }
}

#[test]
fn bash_blocks_newline_command_injection() {
    let tool = BashTool::new(None, true, allow(&["ls"]));
    let out = run(&tool, "ls\ntouch /tmp/csloop_should_not_run_marker", "");
    assert!(out.starts_with("Error:"), "expected newline-injected command to be rejected, got: {out}");
    assert_eq!(out, "Error: blocked shell syntax detected");
}

#[test]
fn bash_allows_single_allowed_command() {
    let tool = BashTool::new(None, true, allow(&["echo"]));
    let out = run(&tool, "echo hi", "hi\n");
    assert!(!out.starts_with("Error:"), "unexpected error: {out}");
    assert!(out.contains("hi"));
}

#[test]
fn bash_description_surfaces_caveats_only_for_allowed_commands() {
    let tool = BashTool::new(None, true, allow(&["find", "rg", "sed"]));
    assert!(tool.description().contains("-exec/-execdir/-ok/-okdir"));
    assert!(tool.description().contains("--pre/--pre-glob"));
    assert!(tool.description().contains("--sandbox"));

    let tool = BashTool::new(None, true, allow(&["echo"]));
    assert!(!tool.description().contains("-exec"));
    assert!(!tool.description().contains("--pre"));
    assert!(!tool.description().contains("--sandbox"));
}

#[test]
fn bash_description_is_put_together() {
    let tool = BashTool::new(None, false, None);
    assert_eq!(tool.description(), "Execute a bash command in the current working directory.");
    let tool = BashTool::new(Some(ROOT.to_string()), true, allow(&["ls", "git", "echo"]));
    assert_eq!(
        tool.description(),
        "Execute a bash command in the current working directory. Commands execute with the working directory set to the bounded root.Only access files and paths within the working directory;do not navigate to or read from paths outside it. Potentially-dangerous shell syntax is blocked (pipes, redirects, $(), etc). Allowed commands: echo, git, ls. git: the config subcommand and -c/-p/--paginate/--exec-path/--git-dir/--work-tree/--namespace/--upload-pack/--receive-pack/--upload-archive flags are rejected, as are ext:: and fd:: transport URLs."
    );
}

#[test]
fn bash_rejects_disallowed_command() {
    let tool = BashTool::new(None, true, allow(&["ls"]));
    let out = run(&tool, "cat /etc/passwd", "");
    assert!(out.starts_with("Error:"));
    assert_eq!(out, "Error: command not allowed: \"cat\"");
}

#[test]
fn bash_blocks_pipe_and_substitution_syntax() {
    let tool = BashTool::new(None, true, allow(&["echo"]));
    for cmd in ["echo hi | cat", "echo $(whoami)", "echo `whoami`", "echo hi; whoami"] {
        let out = run(&tool, cmd, "");
        assert!(out.starts_with("Error:"), "expected {cmd:?} to be rejected, got: {out}");
    }
    for cmd in ["echo a & b", "echo a > b", "echo a < b", "echo a\rb", "echo $x"] {
        assert_eq!(run(&tool, cmd, ""), "Error: blocked shell syntax detected");
    }
}

#[test]
fn bash_blocks_argument_path_escape() {
    let tool = BashTool::new(Some(ROOT.to_string()), true, allow(&["grep", "find"]));
    let abs_out = run(&tool, "grep TOP-SECRET /tmp/outside/secret.txt", "TOP-SECRET");
    assert!(abs_out.starts_with("Error:"), "expected absolute-path escape to be rejected, got: {abs_out}");
    assert!(!abs_out.contains("TOP-SECRET"));
    assert_eq!(abs_out, "Error: argument escapes working directory: \"/tmp/outside/secret.txt\"");

    let traversal_out = run(&tool, "grep TOP-SECRET ../bash_arg_escape_outside_nonexistent", "");
    assert!(traversal_out.starts_with("Error:"), "expected relative traversal to be rejected, got: {traversal_out}");

    let find_out = run(&tool, "find / -name secret.txt", "");
    assert!(find_out.starts_with("Error:"), "expected absolute find root to be rejected, got: {find_out}");
}

#[test]
fn bash_allows_argument_within_workdir() {
    let tool = BashTool::new(Some(ROOT.to_string()), true, allow(&["grep"]));
    let out = run(&tool, "grep hello file.txt", "hello world");
    assert!(!out.starts_with("Error:"), "unexpected error for in-workdir argument: {out}");
    assert!(out.contains("hello world"));
}

#[test]
fn bash_blocks_find_exec() {
    let tool = BashTool::new(Some(ROOT.to_string()), true, allow(&["find"]));
    for cmd in ["find . -exec touch pwned {} +", "find . -execdir id {} ;", "find . -ok id {} +", "find . -okdir id {} +"] {
        let out = run(&tool, cmd, "");
        assert!(out.starts_with("Error:"), "expected {cmd:?} to be rejected, got: {out}");
    }
    assert_eq!(run(&tool, "find . -ok id {} +", ""), "Error: disallowed find flag \"-ok\": spawns an arbitrary program per match or deletes files");
}

#[test]
fn bash_find_without_exec_still_works() {
    let tool = BashTool::new(Some(ROOT.to_string()), true, allow(&["find"]));
    let out = run(&tool, "find . -name a.txt", "./a.txt");
    assert!(!out.starts_with("Error:"), "unexpected error: {out}");
    assert!(out.contains("a.txt"));
}

#[test]
fn bash_blocks_rg_pre() {
    let tool = BashTool::new(Some(ROOT.to_string()), true, allow(&["rg"]));
    for cmd in ["rg --pre sh -e INJECTED .", "rg --pre=sh -e INJECTED .", "rg --pre-glob '*.txt' --pre sh -e INJECTED ."] {
        let out = run(&tool, cmd, "");
        assert!(out.starts_with("Error:"), "expected {cmd:?} to be rejected, got: {out}");
    }
    assert_eq!(run(&tool, "rg --pre-glob=x y", ""), "Error: disallowed rg flag --pre/--pre-glob: spawns an arbitrary preprocessor program");
}

#[test]
fn bash_sandboxes_sed_e_command() {
    let tool = BashTool::new(Some(ROOT.to_string()), true, allow(&["sed"]));
    let args = call("sed -n '1e echo INJECTED_BY_SED' f.txt");
    let resolved = vec![Some("/w/1e echo INJECTED_BY_SED".to_string()), Some("/w/f.txt".to_string())];
    let job = tool.prepare(&args, &resolved);
    assert_eq!(job.map(|j| j.command), Ok("sed --sandbox -n '1e echo INJECTED_BY_SED' f.txt".to_string()));
}

#[test]
fn bash_sed_normal_substitution_still_works() {
    let tool = BashTool::new(Some(ROOT.to_string()), true, allow(&["sed"]));
    let args = call("sed -i 's/world/there/' f.txt");
    let resolved = vec![Some("/w/s/world/there".to_string()), Some("/w/f.txt".to_string())];
    assert_eq!(tool.prepare(&args, &resolved).map(|j| j.command), Ok("sed --sandbox -i s/world/there/ f.txt".to_string()));
    let out = run(&tool, "sed -i 's/world/there/' f.txt", "");
    assert!(!out.starts_with("Error:"), "unexpected error: {out}");
}

#[test]
fn only_sed_is_hardened_and_only_once() {
    assert_eq!(harden_command("sed --sandbox -n p f"), "sed --sandbox -n p f");
    assert_eq!(harden_command("ls  -l"), "ls  -l");
    assert_eq!(harden_command("sed 'oops"), "sed 'oops");
    assert_eq!(harden_command(""), "");
    assert_eq!(harden_command("sed"), "sed --sandbox");
    assert_eq!(harden_command("sed -n --sandbox 1p f"), "sed -n --sandbox 1p f");
    assert_eq!(harden_command("sed -n 1p f.txt -- --sandbox"), "sed --sandbox -n 1p f.txt -- --sandbox");
    assert_eq!(harden_command("sed -nf --sandbox f"), "sed --sandbox -nf --sandbox f");
    assert_eq!(harden_command("sed --exp --sandbox f"), "sed --sandbox --exp --sandbox f");
    assert_eq!(harden_command("sed -ie --sandbox p f"), "sed -ie --sandbox p f");
    assert_eq!(harden_command("sed --in-place --sandbox p f"), "sed --in-place --sandbox p f");
}

#[test]
fn bash_blocks_git_config_subcommand() {
    let tool = BashTool::new(None, true, allow(&["git"]));
    let out = run(&tool, "git config core.pager touch", "");
    assert!(out.starts_with("Error:"), "expected git config to be rejected, got: {out}");
    assert_eq!(
        out,
        "Error: disallowed git subcommand 'config': can set core.pager/core.fsmonitor/alias.*/etc, turning a later plain git invocation into arbitrary command execution"
    );
}

#[test]
fn bash_blocks_git_dash_c_flag() {
    let tool = BashTool::new(None, true, allow(&["git"]));
    let out = run(&tool, "git -c core.fsmonitor=touch status", "");
    assert!(out.starts_with("Error:"), "expected git -c to be rejected, got: {out}");
    assert_eq!(out, "Error: disallowed git flag \"-c\": can override config/paths or force hook execution");
}

#[test]
fn bash_blocks_git_transport_helper_urls() {
    let tool = BashTool::new(None, true, allow(&["git"]));
    for cmd in ["git clone ext::sh -c id /tmp/x", "git fetch fd::3"] {
        let out = run(&tool, cmd, "");
        assert!(out.starts_with("Error:"), "expected {cmd:?} to be rejected, got: {out}");
    }
    assert_eq!(run(&tool, "git fetch fd::3", ""), "Error: disallowed git argument \"fd::3\": ext:: and fd:: transports spawn an arbitrary helper program");
}

#[test]
fn bash_blocks_git_remote_command_flags() {
    let tool = BashTool::new(None, true, allow(&["git"]));
    for cmd in ["git -p log", "git --upload-pack=evil fetch", "git --git-dir=/etc status"] {
        let out = run(&tool, cmd, "");
        assert!(out.starts_with("Error:"), "expected {cmd:?} to be rejected, got: {out}");
    }
}

#[test]
fn bash_plain_git_status_still_allowed() {
    let tool = BashTool::new(Some(ROOT.to_string()), true, allow(&["git"]));
    for cmd in ["git status", "git log", "git diff"] {
        let out = run(&tool, cmd, "");
        assert!(!out.starts_with("Error:"), "expected {cmd:?} to pass validation, got: {out}");
    }
}

#[test]
fn bash_blocks_find_delete() {
    let tool = BashTool::new(Some(ROOT.to_string()), true, allow(&["find"]));
    let out = run(&tool, "find . -name a.txt -delete", "");
    assert!(out.starts_with("Error:"), "expected -delete to be rejected, got: {out}");
}

#[test]
fn bash_blocks_protected_path_argument() {
    let tool = BashTool::new(Some(ROOT.to_string()), true, allow(&["grep", "find", "sed"]))
        .with_protected_paths(vec!["/w/task.toml".to_string()]);
    let out = run(&tool, "grep secret task.toml", "secret plan");
    assert!(out.starts_with("Error:"), "expected read of protected path to be rejected, got: {out}");
    assert_eq!(out, "Error: argument targets a protected path: \"task.toml\"");
    let out = run(&tool, "find . -name task.toml -delete", "");
    assert!(out.starts_with("Error:"));
}

#[test]
fn bash_allows_non_protected_path_argument() {
    let tool = BashTool::new(Some(ROOT.to_string()), true, allow(&["grep"]))
        .with_protected_paths(vec!["/w/task.toml".to_string()]);
    let out = run(&tool, "grep hello other.txt", "hello world");
    assert!(!out.starts_with("Error:"), "unexpected error for non-protected file: {out}");
}

#[test]
fn flags_name_no_protected_path() {
    let tool = BashTool::new(Some(ROOT.to_string()), true, allow(&["grep", "cat", "ls", "sed"]))
        .with_protected_paths(["/w/task.toml", "/w/-x", "/w/a", "/w/f"].map(|s| s.to_string()).to_vec());
    for command in [
        "grep --file=task.toml other.txt",
        "grep -ftask.toml other.txt",
        "grep -nf./task.toml other.txt",
        "sed -nfa other.txt",
    ] {
        let out = run(&tool, command, "secret plan");
        assert!(out.starts_with("Error: argument targets a protected path: \"-"), "{command}: {out}");
    }
    assert_eq!(run(&tool, "cat -- -x", ""), "Error: argument targets a protected path: \"-x\"");
    for command in ["cat -x", "ls -la", "ls -fa", "grep -na z", "grep -efa z", "grep -nf z", "sed -if z"] {
        let out = run(&tool, command, "");
        assert!(!out.starts_with("Error:"), "{command}: {out}");
    }
    assert!(!run(&tool, "grep --file=other.toml --color=/x -nf/y z", "").starts_with("Error:"));
    assert_eq!(run(&tool, "cat -- -/../../y", ""), "Error: argument escapes working directory: \"-/../../y\"");
}

#[test]
fn commands_that_cannot_be_read_are_refused() {
    let tool = BashTool::new(None, true, None);
    assert_eq!(run(&tool, "echo 'x", ""), "Error: could not parse command");
    assert_eq!(run(&tool, "   ", ""), "Error: empty command");
    assert_eq!(run(&tool, "", ""), "Error: missing required argument 'command'");
    assert_eq!(tool.validate_command("ls -l", &Vec::new()), None);
    let open = BashTool::new(None, false, None);
    assert_eq!(open.validate_command("rm -rf x | y", &Vec::new()), None);
}

#[test]
fn the_words_behind_flags_are_resolved() {
    let tool = BashTool::new(Some(ROOT.to_string()), true, allow(&["grep"]));
    assert_eq!(tool.words_to_resolve(&call("grep -r 'a b' -- src")), vec!["a b".to_string(), "src".to_string()]);
    let mixed = tool.words_to_resolve(&call("grep --file=p=q --no -abc -nfg - -- -d"));
    assert_eq!(mixed, ["p=q", "g", "-d"].map(|s| s.to_string()).to_vec());
    let free = BashTool::new(None, true, allow(&["grep"]));
    assert_eq!(free.words_to_resolve(&call("grep a b")), Vec::<String>::new());
}

#[test]
fn timeouts_are_not_negative() {
    let tool = BashTool::new(None, true, None);
    let timeout = |n: i64| match tool.prepare(&object2("command", text_value("ls"), "timeout", signed_value(n)), &Vec::new()) {
        Ok(job) => job.timeout,
        Err(e) => panic!("unexpected error: {e}"),
    };
    assert_eq!(timeout(5), Some(5));
    assert_eq!(timeout(-5), Some(0));
    assert_eq!(tool.prepare(&call("ls"), &Vec::new()).map(|j| j.timeout), Ok(None));
}

#[test]
fn outcomes_are_reported() {
    assert_eq!(report(0, "out\n", ""), "exit_code: 0\nSTDOUT:\nout\n\nSTDERR:\n");
    assert_eq!(report(1, "", "err \t\r\n"), "exit_code: 1\nSTDOUT:\n\nSTDERR:\nerr\n");
    assert_eq!(BashTool::answer(&BashOutcome::Failed("command timed out".to_string())), "Error: command timed out");
    assert_eq!(BashTool::answer(&BashOutcome::Finished(None, vec![0x68, 0xff], Vec::new())), "exit_code: -1\nSTDOUT:\nh\u{fffd}\nSTDERR:\n");
}

#[test]
fn exit_codes_read_back() {
    for code in [0i64, 1, 127, -1] {
        assert_eq!(parse_bash_exit_code(report(code, "a", "b").as_str()), Some(code));
    }
}

#[test]
fn usual_commands() {
    assert_eq!(
        default_allowed_commands().to_list(),
        ["echo", "find", "git", "grep", "head", "ls", "pwd", "sed", "tail", "test", "wc"].map(|s| s.to_string()).to_vec()
    );
    let review = review_allowed_commands();
    assert!(!review.contains("env"));
    assert!(!review.contains("printenv"));
    assert!(review.contains("rg"));
    assert_eq!(review.to_list().len(), 9);
}
