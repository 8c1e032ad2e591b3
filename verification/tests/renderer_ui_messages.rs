use veloterm::renderer::iced_layer::{pane_badge, TabInfo, UiMessage};

#[test]
fn ui_message_variants_exist() {
    let _tab = UiMessage::TabSelected(0);
    let _close = UiMessage::TabClosed(0);
    let _new = UiMessage::NewTab;
    let _noop = UiMessage::Noop;
}

#[test]
fn tab_info_constructor() {
    let tab = TabInfo { title: "test".to_string(), is_active: true, has_notification: false };
    assert!(tab.is_active);
    assert_eq!(tab.title, "test");
}

#[test]
fn ui_message_tab_hovered_variant() {
    let hover = UiMessage::TabHovered(Some(2));
    match hover {
        UiMessage::TabHovered(Some(idx)) => assert_eq!(idx, 2),
        _ => panic!("Expected TabHovered(Some(2))"),
    }
    let unhover = UiMessage::TabHovered(None);
    match unhover {
        UiMessage::TabHovered(None) => {}
        _ => panic!("Expected TabHovered(None)"),
    }
}

#[test]
fn pane_badge_returns_circled_digits() {
    assert_eq!(pane_badge(0), "\u{2460}");
    assert_eq!(pane_badge(1), "\u{2461}");
    assert_eq!(pane_badge(2), "\u{2462}");
    assert_eq!(pane_badge(8), "\u{2468}");
    assert_eq!(pane_badge(9), "\u{2460}"); // wraps
}

#[test]
fn pane_badge_past_nine_is_first_digit() {
    assert_eq!(pane_badge(10), "\u{2460}");
    assert_eq!(pane_badge(usize::MAX - 1), "\u{2460}");
    assert_eq!(pane_badge(5), "\u{2465}");
}

#[test]
fn ui_message_sidebar_variants() {
    let _select = UiMessage::SidebarTabSelected(0);
    let _toggle = UiMessage::ToggleSidebar;
}

#[test]
fn ui_message_theme_variants() {
    let _toggle = UiMessage::ToggleThemeSelector;
    let _set = UiMessage::SetTheme("warm_dark".to_string());
}
