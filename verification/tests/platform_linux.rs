use veloterm::platform::linux::{foreground_child_pid, parse_children_content, parse_comm_content};
// ── parse_children_content tests ──

#[test]
fn parse_children_single_pid() {
    let pids = parse_children_content("1234 ");
    assert_eq!(pids, vec![1234]);
}

#[test]
fn parse_children_multiple_pids() {
    let pids = parse_children_content("100 200 300 ");
    assert_eq!(pids, vec![100, 200, 300]);
}

#[test]
fn parse_children_empty() {
    let pids = parse_children_content("");
    assert!(pids.is_empty());
}

#[test]
fn parse_children_whitespace_only() {
    let pids = parse_children_content("   \n  ");
    assert!(pids.is_empty());
}

#[test]
fn parse_children_with_invalid_entries() {
    let pids = parse_children_content("123 abc 456");
    assert_eq!(pids, vec![123, 456]);
}

#[test]
fn parse_children_newline_separated() {
    let pids = parse_children_content("100\n200\n300\n");
    assert_eq!(pids, vec![100, 200, 300]);
}

// ── parse_comm_content tests ──

#[test]
fn parse_comm_normal() {
    assert_eq!(parse_comm_content("vim\n"), Some("vim".to_string()));
}

#[test]
fn parse_comm_no_newline() {
    assert_eq!(parse_comm_content("bash"), Some("bash".to_string()));
}

#[test]
fn parse_comm_empty() {
    assert_eq!(parse_comm_content(""), None);
}

#[test]
fn parse_comm_whitespace_only() {
    assert_eq!(parse_comm_content("  \n  "), None);
}

#[test]
fn parse_comm_with_spaces_in_name() {
    // Some process names can have spaces (rare but possible)
    assert_eq!(
        parse_comm_content("Web Content\n"),
        Some("Web Content".to_string())
    );
}

// ── foreground_process_name with mock /proc via tempdir ──

#[test]
fn foreground_process_from_mock_proc() {
    // This test validates the parsing logic, not actual /proc access.
    // Real /proc testing happens in Linux CI integration tests.
    let content = "5678 9012 ";
    let pids = parse_children_content(content);
    assert_eq!(pids.last(), Some(&9012));
    assert_eq!(foreground_child_pid(content), Some(9012));

    let comm = parse_comm_content("nvim\n");
    assert_eq!(comm, Some("nvim".to_string()));
}

#[test]
fn foreground_process_no_children() {
    let content = "";
    let pids = parse_children_content(content);
    assert!(pids.is_empty());
    // foreground_process_name would return None
    assert_eq!(foreground_child_pid(content), None);
}
