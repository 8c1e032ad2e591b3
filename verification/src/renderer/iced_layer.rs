//! Messages and descriptors exchanged with the UI chrome layer.

use vstd::prelude::*;

verus! {

/// Messages produced by UI widgets, returned to the application for processing.
#[derive(Debug, Clone)]
pub enum UiMessage {
    TabSelected(usize),
    TabClosed(usize),
    NewTab,
    TabHovered(Option<usize>),
    SidebarTabSelected(usize),
    SidebarTabHovered(Option<usize>),
    ToggleSidebar,
    ToggleThemeSelector,
    SetTheme(String),
    RenameTab(usize),
    RenameTabInput(String),
    RenameTabCommit(usize, String),
    NewTabHovered(bool),
    CloseButtonHovered(Option<usize>),
    ConductorToggled,
    ConductorTrackClicked(usize),
    ConductorFilterCycled,
    ConductorSortCycled,
    /// Markdown preview link clicked.
    MarkdownLinkClicked(String),
    Noop,
}

/// Tab descriptor for the widget tree.
#[derive(Debug, Clone)]
pub struct TabInfo {
    pub title: String,
    pub is_active: bool,
    pub has_notification: bool,
}

/// The circled digit shown for pane `index` (0-based): ① to ⑨ for the
/// first nine panes, ① again after that.
pub open spec fn pane_badge_char(index: nat) -> char {
    let n = index + 1;
    if 1 <= n <= 9 {
        ((0x245F + n) as u32) as char
    } else {
        '\u{2460}'
    }
}

/// Circled digit badge for a pane index (0-based), as a string.
pub fn pane_badge(index: usize) -> (s: String)
    ensures
        s@ == seq![pane_badge_char(index as nat)],
{
    let c: char = if index == 0 {
        '\u{2460}'
    } else if index == 1 {
        '\u{2461}'
    } else if index == 2 {
        '\u{2462}'
    } else if index == 3 {
        '\u{2463}'
    } else if index == 4 {
        '\u{2464}'
    } else if index == 5 {
        '\u{2465}'
    } else if index == 6 {
        '\u{2466}'
    } else if index == 7 {
        '\u{2467}'
    } else if index == 8 {
        '\u{2468}'
    } else {
        '\u{2460}'
    };
    let chars: [char; 1] = [c];
    let s = crate::text::string_from_chars(&chars);
    assert(s@ =~= seq![pane_badge_char(index as nat)]);
    s
}

} // verus!
