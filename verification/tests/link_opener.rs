use veloterm::input::Platform;
use veloterm::link::opener::{build_open_command, platform_open_command};
use veloterm::link::{DetectedLink, LinkKind};

fn url_link(text: &str) -> DetectedLink {
    DetectedLink {
        kind: LinkKind::Url,
        start: (0, 0),
        end: (0, text.len().saturating_sub(1)),
        text: text.to_string(),
    }
}

fn path_link(text: &str) -> DetectedLink {
    DetectedLink {
        kind: LinkKind::FilePath,
        start: (0, 0),
        end: (0, text.len().saturating_sub(1)),
        text: text.to_string(),
    }
}

#[test]
fn url_opens_with_system_command() {
    let link = url_link("https://example.com");
    let (program, args) = build_open_command(&link, None, Platform::Other);
    assert_eq!(program, "xdg-open");
    assert_eq!(args, vec!["https://example.com"]);
    let (program, _) = build_open_command(&link, None, Platform::MacOs);
    assert_eq!(program, "open");
}

#[test]
fn filepath_uses_editor_env() {
    let link = path_link("/usr/bin/cargo");
    let (program, args) = build_open_command(&link, Some("vim".to_string()), Platform::Other);
    assert_eq!(program, "vim");
    assert_eq!(args, vec!["/usr/bin/cargo"]);
}

#[test]
fn filepath_falls_back_to_system_open() {
    let link = path_link("/usr/bin/cargo");
    let (program, args) = build_open_command(&link, None, Platform::Other);
    assert_eq!(program, "xdg-open");
    assert_eq!(args, vec!["/usr/bin/cargo"]);
    let (program, _) = build_open_command(&link, None, Platform::MacOs);
    assert_eq!(program, "open");
}

#[test]
fn platform_open_command_is_known() {
    let cmd = platform_open_command(Platform::Other);
    assert!(cmd == "open" || cmd == "xdg-open");
    let cmd = platform_open_command(Platform::MacOs);
    assert!(cmd == "open" || cmd == "xdg-open");
}

#[test]
fn url_ignores_editor() {
    let link = url_link("https://example.com");
    let (program, args) = build_open_command(&link, Some("vim".to_string()), Platform::Other);
    assert_eq!(program, "xdg-open");
    assert_eq!(args, vec!["https://example.com"]);
}
