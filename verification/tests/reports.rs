use csloop::loop_runner::reports::{extract_pending_items, extract_status, status_of_line, strip_numbered_bullet, Status};

#[test]
fn extract_status_complete() {
    let text = "Some preamble\nSTATUS: COMPLETE\nmore text";
    assert_eq!(extract_status(text), Some(Status::Complete));
}

#[test]
fn extract_status_incomplete() {
    let text = "STATUS: INCOMPLETE\nNEXT STEPS:\n- do x";
    assert_eq!(extract_status(text), Some(Status::Incomplete));
}

#[test]
fn extract_status_none_when_missing() {
    assert_eq!(extract_status("no status line here"), None);
}

#[test]
fn extract_status_requires_leading_word_match() {
    assert_eq!(extract_status("STATUS: UNKNOWN"), None);
}

#[test]
fn status_is_read_in_any_case() {
    assert_eq!(extract_status("  status:   complete now  "), Some(Status::Complete));
    assert_eq!(extract_status("Status: incomplete"), Some(Status::Incomplete));
}

#[test]
fn first_status_decides() {
    assert_eq!(extract_status("STATUS: ???\nSTATUS: INCOMPLETE\nSTATUS: COMPLETE"), Some(Status::Incomplete));
}

#[test]
fn status_of_a_line_in_upper_case() {
    assert_eq!(status_of_line("STATUS: COMPLETELY"), Some(Status::Complete));
    assert_eq!(status_of_line("STATUS COMPLETE"), None);
    assert_eq!(status_of_line("THE STATUS: COMPLETE"), None);
}

#[test]
fn extract_pending_items_dash_and_star_bullets() {
    let text = "STATUS: INCOMPLETE\nNEXT STEPS:\n- first item\n* second item\n";
    let items = extract_pending_items(text);
    assert_eq!(items, vec!["first item".to_string(), "second item".to_string()]);
}

#[test]
fn extract_pending_items_multi_digit_bullets_fixed() {
    let text = "STATUS: INCOMPLETE\nNEXT STEPS:\n9. ninth item\n10. tenth item\n11) eleventh item\n";
    let items = extract_pending_items(text);
    assert_eq!(
        items,
        vec!["ninth item".to_string(), "tenth item".to_string(), "eleventh item".to_string()]
    );
}

#[test]
fn extract_pending_items_stops_at_heading() {
    let text = "STATUS: INCOMPLETE\nNEXT STEPS:\n- item one\n# Heading\n- should not appear";
    let items = extract_pending_items(text);
    assert_eq!(items, vec!["item one".to_string()]);
}

#[test]
fn extract_pending_items_caps_at_five() {
    let text = "STATUS: INCOMPLETE\nNEXT STEPS:\n- a\n- b\n- c\n- d\n- e\n- f\n- g\n";
    let items = extract_pending_items(text);
    assert_eq!(items.len(), 5);
}

#[test]
fn items_before_the_heading_are_not_steps() {
    assert_eq!(extract_pending_items("- a\n1. b\n"), Vec::<String>::new());
    assert_eq!(extract_pending_items("# x\nnext steps\n--* c  \nplain\n\n2.d\n3. e"), vec!["c".to_string(), "e".to_string()]);
}

#[test]
fn numbered_bullets() {
    assert_eq!(strip_numbered_bullet("12) twelve "), Some("twelve".to_string()));
    assert_eq!(strip_numbered_bullet("1. one"), Some("one".to_string()));
    assert_eq!(strip_numbered_bullet("1.one"), None);
    assert_eq!(strip_numbered_bullet("one. two"), None);
    assert_eq!(strip_numbered_bullet(""), None);
}
