use veloterm::markdown_preview::expand_path;

fn home() -> String {
    "/home/tester".to_string()
}

#[test]
fn expand_path_tilde_prefix() {
    let home = home();
    assert_eq!(expand_path("~/foo.md", None, Some(&home)), format!("{}/foo.md", home));
}

#[test]
fn expand_path_tilde_alone() {
    let home = home();
    assert_eq!(expand_path("~", None, Some(&home)), home);
}

#[test]
fn expand_path_absolute_unchanged() {
    assert_eq!(expand_path("/absolute/path.md", None, Some("/home/u")), "/absolute/path.md");
}

#[test]
fn expand_path_relative_unchanged() {
    assert_eq!(expand_path("relative.md", None, Some("/home/u")), "relative.md");
}

#[test]
fn expand_path_relative_with_cwd() {
    assert_eq!(expand_path("foo.md", Some("/home/user"), None), "/home/user/foo.md");
}

#[test]
fn expand_path_relative_subdir_with_cwd() {
    assert_eq!(expand_path("sub/file.md", Some("/tmp"), None), "/tmp/sub/file.md");
}

#[test]
fn expand_path_tilde_ignores_cwd() {
    let home = home();
    assert_eq!(expand_path("~/foo.md", Some("/tmp"), Some(&home)), format!("{}/foo.md", home));
}

#[test]
fn expand_path_absolute_ignores_cwd() {
    assert_eq!(expand_path("/absolute/path.md", Some("/tmp"), None), "/absolute/path.md");
}

#[test]
fn expand_path_tilde_without_home_resolves_against_cwd() {
    assert_eq!(expand_path("~/notes.md", Some("/tmp"), None), "/tmp/~/notes.md");
    assert_eq!(expand_path("~", None, None), "~");
}

#[test]
fn expand_path_cwd_with_trailing_slash_adds_no_separator() {
    assert_eq!(expand_path("a.md", Some("/srv/"), None), "/srv/a.md");
    assert_eq!(expand_path("a.md", Some(""), None), "a.md");
}

#[test]
fn expand_path_tilde_user_form_is_not_home() {
    assert_eq!(expand_path("~bob/x.md", None, Some("/home/u")), "~bob/x.md");
}
