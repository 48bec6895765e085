use csloop::loop_runner::ensure_within_workdir;
use csloop::path_text::{components, extension, file_name, join_path, lies_within, parent, relative, same_path};
use csloop::paths::get_loop_paths;
use csloop::tools::resolve::{locate, Resolution};
use csloop::tools::{is_git_internal, is_protected_path};

fn owned(list: &[&str]) -> Vec<String> {
    list.iter().map(|s| s.to_string()).collect()
}

#[test]
fn paths_have_components() {
    assert_eq!(components("/a//b/./c/"), owned(&["/", "a", "b", "c"]));
    assert_eq!(components("./a/.."), owned(&[".", "a", ".."]));
    assert_eq!(components("a/./b"), owned(&["a", "b"]));
    assert_eq!(components(""), Vec::<String>::new());
    assert_eq!(components("/"), owned(&["/"]));
}

#[test]
fn containment_goes_by_components() {
    assert!(lies_within("/a/b", "/a"));
    assert!(lies_within("/a", "/a/"));
    assert!(!lies_within("/ab", "/a"));
    assert!(!lies_within("/a", "/a/b"));
    assert!(!lies_within("a/b", "/a"));
}

#[test]
fn paths_are_put_together_and_taken_apart() {
    assert_eq!(join_path("/a", "b"), "/a/b");
    assert_eq!(join_path("/a/", "b"), "/a/b");
    assert_eq!(join_path("/a", "/b"), "/b");
    assert_eq!(join_path("", "b"), "b");
    assert_eq!(relative("/a/b/c", "/a"), Some("b/c".to_string()));
    assert_eq!(relative("/a", "/a"), Some("".to_string()));
    assert_eq!(relative("/b", "/a"), None);
    assert_eq!(file_name("/a/b.txt/"), Some("b.txt".to_string()));
    assert_eq!(file_name("/a/.."), None);
    assert_eq!(file_name("/"), None);
    assert_eq!(parent("/a/b/"), "/a");
    assert_eq!(parent("/a"), "/");
    assert_eq!(parent("a/b"), "a");
    assert_eq!(parent("a"), "");
    assert_eq!(extension("/x/t.toml"), Some("toml".to_string()));
    assert_eq!(extension("/x/.toml"), None);
    assert_eq!(extension("/x/a.tar."), Some("".to_string()));
    assert_eq!(extension("/x/a"), None);
    assert!(same_path("/a//b", "/a/b/."));
}

#[test]
fn loop_paths_lie_in_the_working_directory() {
    let p = get_loop_paths("/w");
    assert_eq!(p.run_dir, "/w/.csloop/loop");
    assert_eq!(p.metadata_dir, "/w/.csloop/loop/metadata");
    assert_eq!(p.run_toml, "/w/.csloop/loop/run.toml");
    assert_eq!(p.state_toml, "/w/.csloop/loop/state.toml");
    assert_eq!(p.author_toml, "/w/.csloop/loop/author.toml");
    assert_eq!(p.review_output_toml, "/w/.csloop/loop/review_output.toml");
}

#[test]
fn git_internal_paths() {
    assert!(is_git_internal("/w/.git/config"));
    assert!(is_git_internal(".git"));
    assert!(is_git_internal("a/.git/hooks/x"));
    assert!(!is_git_internal("/w/.gitignore"));
    assert!(!is_git_internal("/w/x.git/config"));
}

#[test]
fn protected_paths_go_by_components() {
    assert!(is_protected_path("/w/task.toml", &owned(&["/other", "/w//task.toml"])));
    assert!(!is_protected_path("/w/task.tom", &owned(&["/w/task.toml"])));
    assert!(!is_protected_path("/w/task.toml", &Vec::new()));
}

#[test]
fn ensure_within_workdir_blocks_escape() {
    assert_eq!(locate("task.toml", "/w"), "/w/task.toml");
    assert_eq!(locate("../../../../etc/passwd", "/w"), "/w/../../../../etc/passwd");
    assert_eq!(ensure_within_workdir("/w/task.toml", "/w"), Ok("/w/task.toml".to_string()));
    assert_eq!(ensure_within_workdir("/etc/passwd", "/w"), Err("Path /etc/passwd is outside working directory /w".to_string()));
}

#[test]
fn resolve_within_root_blocks_escape() {
    // `/tmp/d/../../etc/passwd` exists, and leads to `/etc/passwd`.
    let r = Resolution::start("/tmp/d", "../../etc/passwd");
    assert_eq!(r.existing, "/tmp/d/../../etc/passwd");
    let out = r.finish("/tmp/d", "../../etc/passwd", &Some("/etc/passwd".to_string()));
    assert_eq!(out, Err("Path escapes working directory: ../../etc/passwd".to_string()));
}

#[test]
fn resolve_within_root_allows_new_file() {
    let mut r = Resolution::start("/tmp/d", "brand_new_file.txt");
    assert_eq!(r.existing, "/tmp/d/brand_new_file.txt");
    assert!(r.climb());
    assert_eq!(r.existing, "/tmp/d");
    assert_eq!(r.finish("/tmp/d", "brand_new_file.txt", &Some("/tmp/d".to_string())), Ok("/tmp/d/brand_new_file.txt".to_string()));
}

#[test]
fn names_that_do_not_exist_are_set_aside_and_put_back() {
    let mut r = Resolution::start("/w", "new/deep/file");
    assert!(r.climb());
    assert!(r.climb());
    assert!(r.climb());
    assert_eq!(r.existing, "/w");
    assert_eq!(r.missing, owned(&["file", "deep", "new"]));
    assert_eq!(r.finish("/w", "new/deep/file", &Some("/w".to_string())), Ok("/w/new/deep/file".to_string()));
}

#[test]
fn resolution_stops_at_what_is_no_name() {
    let mut r = Resolution::start("/w", "new/../../x");
    assert!(r.climb());
    assert!(!r.climb());
    assert_eq!(r.existing, "/w/new/../..");
    assert_eq!(r.finish("/w", "new/../../x", &None), Err("Path escapes working directory: new/../../x".to_string()));
}

#[test]
fn links_to_nothing_are_followed() {
    let mut r = Resolution::start("/w", "sub/link/new.txt");
    assert!(r.climb());
    assert!(r.follow("../gone"));
    assert_eq!(r.existing, "/w/sub/../gone");
    assert_eq!(r.missing, owned(&["new.txt"]));
    assert!(r.climb());
    assert_eq!(r.finish("/w", "sub/link/new.txt", &Some("/w".to_string())), Ok("/w/gone/new.txt".to_string()));
    let mut r = Resolution::start("/w", "link");
    assert!(r.follow("/outside/new"));
    assert!(r.climb());
    assert_eq!(r.finish("/w", "link", &Some("/outside".to_string())), Err("Path escapes working directory: link".to_string()));
    let mut r = Resolution::start("/w", "loop");
    for _ in 0..40 {
        assert!(r.on_missing(&Some("loop".to_string())));
    }
    assert!(!r.on_missing(&Some("loop".to_string())));
    assert_eq!(r.existing, "/w/loop");
    assert!(r.on_missing(&None));
    assert_eq!((r.existing.as_str(), r.links), ("/w", 40));
    let mut r = Resolution::start("/w", "..");
    assert!(!r.follow("x"));
    assert!(!r.on_missing(&None));
    assert_eq!(r.existing, "/w/..");
}

#[test]
fn absolute_targets_replace_the_root() {
    let r = Resolution::start("/w", "/w/sub");
    assert_eq!(r.existing, "/w/sub");
    assert_eq!(r.finish("/w", "/w/sub", &Some("/w/sub".to_string())), Ok("/w/sub".to_string()));
}
