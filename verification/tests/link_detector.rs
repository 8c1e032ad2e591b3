use veloterm::link::detector::{detect_paths, detect_urls};
use veloterm::link::LinkKind;


// --- URL detection tests ---

#[test]
fn detect_http_url() {
    let lines = vec!["Visit http://example.com for info".to_string()];
    let links = detect_urls(&lines);
    assert_eq!(links.len(), 1);
    assert_eq!(links[0].kind, LinkKind::Url);
    assert_eq!(links[0].text, "http://example.com");
    assert_eq!(links[0].start.0, 0);
}

#[test]
fn detect_https_url_with_path_and_query() {
    let lines = vec!["See https://example.com/path?q=1&b=2#frag here".to_string()];
    let links = detect_urls(&lines);
    assert_eq!(links.len(), 1);
    assert_eq!(links[0].text, "https://example.com/path?q=1&b=2#frag");
    assert_eq!(links[0].kind, LinkKind::Url);
}

#[test]
fn detect_url_stops_at_closing_paren() {
    let lines = vec!["(see https://example.com) for details".to_string()];
    let links = detect_urls(&lines);
    assert_eq!(links.len(), 1);
    // linkify should not include the trailing )
    assert!(!links[0].text.ends_with(')'));
}

#[test]
fn detect_url_stops_at_angle_bracket() {
    let lines = vec!["<https://example.com> is the link".to_string()];
    let links = detect_urls(&lines);
    assert_eq!(links.len(), 1);
    assert!(!links[0].text.ends_with('>'));
}

#[test]
fn no_false_positive_on_plain_text() {
    let lines = vec![
        "Hello world, this is just text.".to_string(),
        "No URLs here at all.".to_string(),
        "foo bar baz 12345".to_string(),
    ];
    let links = detect_urls(&lines);
    assert!(links.is_empty());
}

#[test]
fn detect_multiple_urls_same_line() {
    let lines = vec!["http://a.com and https://b.com here".to_string()];
    let links = detect_urls(&lines);
    assert_eq!(links.len(), 2);
    assert_eq!(links[0].text, "http://a.com");
    assert_eq!(links[1].text, "https://b.com");
}

#[test]
fn detect_urls_across_multiple_lines() {
    let lines = vec![
        "line0 https://first.com".to_string(),
        "no url".to_string(),
        "line2 https://second.com end".to_string(),
    ];
    let links = detect_urls(&lines);
    assert_eq!(links.len(), 2);
    assert_eq!(links[0].start.0, 0); // row 0
    assert_eq!(links[1].start.0, 2); // row 2
}

#[test]
fn url_column_positions_correct() {
    let lines = vec!["abc https://x.com end".to_string()];
    let links = detect_urls(&lines);
    assert_eq!(links.len(), 1);
    assert_eq!(links[0].start, (0, 4)); // 'h' at col 4
    let expected_end = 4 + "https://x.com".len() - 1;
    assert_eq!(links[0].end, (0, expected_end));
}

// --- File path detection tests ---

#[test]
fn detect_absolute_unix_path() {
    let lines = vec!["file at /usr/bin/cargo here".to_string()];
    let links = detect_paths(&lines);
    assert_eq!(links.len(), 1);
    assert_eq!(links[0].kind, LinkKind::FilePath);
    assert_eq!(links[0].text, "/usr/bin/cargo");
}

#[test]
fn detect_home_relative_path() {
    let lines = vec!["config at ~/Documents/file.txt ok".to_string()];
    let links = detect_paths(&lines);
    assert_eq!(links.len(), 1);
    assert_eq!(links[0].kind, LinkKind::FilePath);
    assert_eq!(links[0].text, "~/Documents/file.txt");
}

#[test]
fn path_stops_at_whitespace() {
    let lines = vec!["/foo/bar baz".to_string()];
    let links = detect_paths(&lines);
    assert_eq!(links.len(), 1);
    assert_eq!(links[0].text, "/foo/bar");
}

#[test]
fn path_stops_at_quotes() {
    let lines = vec!["'/foo/bar' here".to_string()];
    let links = detect_paths(&lines);
    assert_eq!(links.len(), 1);
    assert_eq!(links[0].text, "/foo/bar");
}

#[test]
fn path_stops_at_parens() {
    let lines = vec!["(/foo/bar) here".to_string()];
    let links = detect_paths(&lines);
    assert_eq!(links.len(), 1);
    assert_eq!(links[0].text, "/foo/bar");
}

#[test]
fn ignore_dev_null() {
    let lines = vec!["redirect to /dev/null end".to_string()];
    let links = detect_paths(&lines);
    assert!(links.is_empty());
}

#[test]
fn ignore_proc_paths() {
    let lines = vec!["reading /proc/cpuinfo data".to_string()];
    let links = detect_paths(&lines);
    assert!(links.is_empty());
}

#[test]
fn ignore_single_slash() {
    let lines = vec!["just a / slash".to_string()];
    let links = detect_paths(&lines);
    assert!(links.is_empty());
}

#[test]
fn path_with_dots_and_extension() {
    let lines = vec!["/foo/bar.rs and /tmp/file.log here".to_string()];
    let links = detect_paths(&lines);
    assert_eq!(links.len(), 2);
    assert_eq!(links[0].text, "/foo/bar.rs");
    assert_eq!(links[1].text, "/tmp/file.log");
}

#[test]
fn path_at_start_of_line() {
    let lines = vec!["/usr/local/bin/thing".to_string()];
    let links = detect_paths(&lines);
    assert_eq!(links.len(), 1);
    assert_eq!(links[0].text, "/usr/local/bin/thing");
    assert_eq!(links[0].start, (0, 0));
}

#[test]
fn path_column_positions_correct() {
    let lines = vec!["abc /foo/bar end".to_string()];
    let links = detect_paths(&lines);
    assert_eq!(links.len(), 1);
    assert_eq!(links[0].start, (0, 4));
    assert_eq!(links[0].end, (0, 11)); // /foo/bar is 8 chars, col 4..11
}

#[test]
fn no_path_in_plain_text() {
    let lines = vec![
        "Hello world".to_string(),
        "no paths 123".to_string(),
    ];
    let links = detect_paths(&lines);
    assert!(links.is_empty());
}

#[test]
fn path_trailing_period_trimmed() {
    let lines = vec!["See /foo/bar.".to_string()];
    let links = detect_paths(&lines);
    assert_eq!(links.len(), 1);
    assert_eq!(links[0].text, "/foo/bar");
}
