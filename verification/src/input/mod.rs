//! Keyboard input: a plain model of key events, keybinding matching, and the
//! encoding of key presses into the bytes sent to the PTY.

pub mod clipboard;
pub mod mouse;
pub mod selection;

use std::collections::HashMap;
use vstd::prelude::*;
use crate::pane::FocusDirection;
use crate::text::{is_control, is_control_spec, str_chars};

verus! {

/// The current input mode for the application.
#[derive(Debug, Clone, Copy, PartialEq, Eq, Default, Structural)]
pub enum InputMode {
    /// Normal terminal input — keys go to PTY.
    #[default]
    Normal,
    /// Search mode — keys go to the search bar.
    Search,
}

/// Keys that have a name rather than a character.
#[derive(Debug, Clone, Copy, PartialEq, Eq, Structural)]
pub enum NamedKey {
    Enter,
    Backspace,
    Tab,
    Escape,
    Space,
    ArrowUp,
    ArrowDown,
    ArrowLeft,
    ArrowRight,
    Home,
    End,
    Insert,
    Delete,
    PageUp,
    PageDown,
    F1,
    F2,
    F3,
    F4,
    F5,
    F6,
    F7,
    F8,
    F9,
    F10,
    F11,
    F12,
    Shift,
    Control,
    Alt,
    Super,
    /// Any other named key.
    Other,
}

/// The logical key of a key event.
#[derive(Debug, Clone, PartialEq, Eq)]
pub enum Key {
    /// A key that produces text, with that text.
    Character(String),
    /// A named key.
    Named(NamedKey),
    /// A key that is neither.
    Unidentified,
}

/// Whether the key went down or up.
#[derive(Debug, Clone, Copy, PartialEq, Eq, Structural)]
pub enum ElementState {
    Pressed,
    Released,
}

/// The operating system family, for platform-dependent shortcuts.
#[derive(Debug, Clone, Copy, PartialEq, Eq, Structural)]
pub enum Platform {
    MacOs,
    Other,
}

/// Which modifier keys are held.
#[derive(Debug, Clone, Copy, PartialEq, Eq, Structural)]
pub struct ModifiersState {
    pub shift: bool,
    pub control: bool,
    pub alt: bool,
    pub super_key: bool,
}

impl ModifiersState {
    /// No modifier held.
    pub fn empty() -> (m: Self)
        ensures
            !m.shift && !m.control && !m.alt && !m.super_key,
    {
        ModifiersState { shift: false, control: false, alt: false, super_key: false }
    }

    /// The given modifiers held.
    pub fn new(shift: bool, control: bool, alt: bool, super_key: bool) -> (m: Self)
        ensures
            m.shift == shift && m.control == control && m.alt == alt && m.super_key == super_key,
    {
        ModifiersState { shift, control, alt, super_key }
    }

    /// Whether Shift is held.
    pub fn shift_key(&self) -> (b: bool)
        ensures
            b == self.shift,
    {
        self.shift
    }

    /// Whether Control is held.
    pub fn control_key(&self) -> (b: bool)
        ensures
            b == self.control,
    {
        self.control
    }

    /// Whether Alt is held.
    pub fn alt_key(&self) -> (b: bool)
        ensures
            b == self.alt,
    {
        self.alt
    }

    /// Whether Super (Cmd) is held.
    pub fn super_key(&self) -> (b: bool)
        ensures
            b == self.super_key,
    {
        self.super_key
    }
}

/// A search-mode command resulting from a key event.
#[derive(Debug, Clone, PartialEq, Eq, Structural)]
pub enum SearchCommand {
    /// Insert a character into the search query.
    InsertChar(char),
    /// Delete the last character from the query.
    DeleteChar,
    /// Navigate to the next match.
    NextMatch,
    /// Navigate to the previous match.
    PrevMatch,
    /// Close the search overlay.
    Close,
    /// Open search (Ctrl+Shift+F from Normal mode).
    Open,
}

/// A pane management command triggered by a keybinding.
#[derive(Debug, Clone, Copy, PartialEq, Eq, Structural)]
pub enum PaneCommand {
    SplitVertical,
    SplitHorizontal,
    ClosePane,
    FocusDirection(FocusDirection),
    ZoomToggle,
}

/// A tab management command triggered by a keybinding.
#[derive(Debug, Clone, Copy, PartialEq, Eq, Structural)]
pub enum TabCommand {
    NewTab,
    NextTab,
    PrevTab,
    SelectTab(usize),
    MoveTabLeft,
    MoveTabRight,
}

/// A shell integration command triggered by a keybinding.
#[derive(Debug, Clone, Copy, PartialEq, Eq, Structural)]
pub enum ShellCommand {
    PreviousPrompt,
    NextPrompt,
}

/// An application-level command triggered by a keybinding.
#[derive(Debug, Clone, Copy, PartialEq, Eq, Structural)]
pub enum AppCommand {
    IncreaseFontSize,
    DecreaseFontSize,
    ResetFontSize,
}

// ── Character helpers ────────────────────────────────────────────────

/// ASCII lower-casing of one character (`char::to_ascii_lowercase`).
pub open spec fn ascii_lower(c: char) -> char {
    if 'A' <= c <= 'Z' {
        ((c as u32) + 32) as char
    } else {
        c
    }
}

/// The string is one character which, lower-cased, is `target`. For the
/// keybinding letters, digits and braces used below this is the same as
/// `s.to_lowercase() == target`.
pub open spec fn lowercases_to(s: Seq<char>, target: char) -> bool {
    s.len() == 1 && ascii_lower(s[0]) == target
}

/// The string is exactly the one character `c`.
pub open spec fn is_char(s: Seq<char>, c: char) -> bool {
    s.len() == 1 && s[0] == c
}

fn to_ascii_lower(c: char) -> (r: char)
    ensures
        r == ascii_lower(c),
{
    if 'A' <= c && c <= 'Z' {
        let v: u32 = (c as u32) + 32;
        let r = char_of_ascii(v);
        r
    } else {
        c
    }
}

fn char_of_ascii(v: u32) -> (c: char)
    requires
        0x61 <= v <= 0x7a,
    ensures
        c as u32 == v,
{
    if v == 0x61 { 'a' } else if v == 0x62 { 'b' } else if v == 0x63 { 'c' }
    else if v == 0x64 { 'd' } else if v == 0x65 { 'e' } else if v == 0x66 { 'f' }
    else if v == 0x67 { 'g' } else if v == 0x68 { 'h' } else if v == 0x69 { 'i' }
    else if v == 0x6a { 'j' } else if v == 0x6b { 'k' } else if v == 0x6c { 'l' }
    else if v == 0x6d { 'm' } else if v == 0x6e { 'n' } else if v == 0x6f { 'o' }
    else if v == 0x70 { 'p' } else if v == 0x71 { 'q' } else if v == 0x72 { 'r' }
    else if v == 0x73 { 's' } else if v == 0x74 { 't' } else if v == 0x75 { 'u' }
    else if v == 0x76 { 'v' } else if v == 0x77 { 'w' } else if v == 0x78 { 'x' }
    else if v == 0x79 { 'y' } else { 'z' }
}

/// The only character of `s`, or `None` if `s` does not have exactly one.
fn single_char(s: &str) -> (r: Option<char>)
    ensures
        r == (if s@.len() == 1 { Some(s@[0]) } else { None::<char> }),
{
    let chars = str_chars(s);
    if chars.len() == 1 {
        Some(chars[0])
    } else {
        None
    }
}

/// The first character of `s`, if any.
fn first_char(s: &str) -> (r: Option<char>)
    ensures
        r == (if s@.len() > 0 { Some(s@[0]) } else { None::<char> }),
{
    let chars = str_chars(s);
    if chars.len() > 0 {
        Some(chars[0])
    } else {
        None
    }
}

/// Ctrl and Shift are both held.
pub open spec fn ctrl_shift_held(m: ModifiersState) -> bool {
    m.control && m.shift
}

// ── Search mode ──────────────────────────────────────────────────────

/// Whether the key event opens the search overlay (Ctrl+Shift+F).
pub open spec fn opens_search(key: Key, m: ModifiersState) -> bool {
    ctrl_shift_held(m) && (key matches Key::Character(s) && lowercases_to(s@, 'f'))
}

/// Check if a key event should open the search overlay (from Normal mode).
/// Returns true if Ctrl+Shift+F is pressed.
pub fn should_open_search(logical_key: &Key, modifiers: ModifiersState) -> (b: bool)
    ensures
        b == opens_search(*logical_key, modifiers),
{
    if !(modifiers.control_key() && modifiers.shift_key()) {
        return false;
    }
    match logical_key {
        Key::Character(s) => match single_char(s.as_str()) {
            Some(c) => to_ascii_lower(c) == 'f',
            None => false,
        },
        _ => false,
    }
}

/// The search command for a key event in Search mode.
pub open spec fn search_command_for(key: Key, text: Option<Seq<char>>, m: ModifiersState) -> Option<
    SearchCommand,
> {
    if ctrl_shift_held(m) && (key matches Key::Character(s) && lowercases_to(s@, 'f')) {
        Some(SearchCommand::Close)
    } else {
        match key {
            Key::Named(named) => match named {
                NamedKey::Escape => Some(SearchCommand::Close),
                NamedKey::Backspace => Some(SearchCommand::DeleteChar),
                NamedKey::Enter => if m.shift {
                    Some(SearchCommand::PrevMatch)
                } else {
                    Some(SearchCommand::NextMatch)
                },
                NamedKey::ArrowDown => Some(SearchCommand::NextMatch),
                NamedKey::ArrowUp => Some(SearchCommand::PrevMatch),
                _ => None,
            },
            Key::Character(s) => {
                let t = match text {
                    Some(t) => t,
                    None => s@,
                };
                if t.len() > 0 && !is_control_spec(t[0]) {
                    Some(SearchCommand::InsertChar(t[0]))
                } else {
                    None
                }
            },
            Key::Unidentified => None,
        }
    }
}

/// Process a key event while in Search mode.
/// Returns a SearchCommand describing what action to take.
pub fn match_search_command(logical_key: &Key, text: Option<&str>, modifiers: ModifiersState) -> (r:
    Option<SearchCommand>)
    ensures
        r == search_command_for(
            *logical_key,
            match text {
                Some(t) => Some(t@),
                None => None::<Seq<char>>,
            },
            modifiers,
        ),
{
    if modifiers.control_key() && modifiers.shift_key() {
        if let Key::Character(s) = logical_key {
            if let Some(c) = single_char(s.as_str()) {
                if to_ascii_lower(c) == 'f' {
                    return Some(SearchCommand::Close);
                }
            }
        }
    }
    match logical_key {
        Key::Named(named) => match named {
            NamedKey::Escape => Some(SearchCommand::Close),
            NamedKey::Backspace => Some(SearchCommand::DeleteChar),
            NamedKey::Enter => {
                if modifiers.shift_key() {
                    Some(SearchCommand::PrevMatch)
                } else {
                    Some(SearchCommand::NextMatch)
                }
            },
            NamedKey::ArrowDown => Some(SearchCommand::NextMatch),
            NamedKey::ArrowUp => Some(SearchCommand::PrevMatch),
            _ => None,
        },
        Key::Character(s) => {
            let first = match text {
                Some(t) => first_char(t),
                None => first_char(s.as_str()),
            };
            if let Some(ch) = first {
                if !is_control(ch) {
                    return Some(SearchCommand::InsertChar(ch));
                }
            }
            None
        },
        Key::Unidentified => None,
    }
}

// ── Pane, tab, shell and app commands ────────────────────────────────

/// The pane command bound to a key event (Ctrl+Shift prefix).
pub open spec fn pane_command_for(key: Key, m: ModifiersState) -> Option<PaneCommand> {
    if !ctrl_shift_held(m) {
        None
    } else {
        match key {
            Key::Character(s) => if lowercases_to(s@, 'd') {
                Some(PaneCommand::SplitVertical)
            } else if lowercases_to(s@, 'e') {
                Some(PaneCommand::SplitHorizontal)
            } else if lowercases_to(s@, 'w') {
                Some(PaneCommand::ClosePane)
            } else if lowercases_to(s@, 'z') {
                Some(PaneCommand::ZoomToggle)
            } else {
                None
            },
            Key::Named(named) => match named {
                NamedKey::ArrowLeft => Some(PaneCommand::FocusDirection(FocusDirection::Left)),
                NamedKey::ArrowRight => Some(PaneCommand::FocusDirection(FocusDirection::Right)),
                NamedKey::ArrowUp => Some(PaneCommand::FocusDirection(FocusDirection::Up)),
                NamedKey::ArrowDown => Some(PaneCommand::FocusDirection(FocusDirection::Down)),
                _ => None,
            },
            Key::Unidentified => None,
        }
    }
}

/// Check if a key event matches a pane command keybinding.
///
/// Hardcoded defaults (Ctrl+Shift prefix):
/// - Ctrl+Shift+D: split vertical
/// - Ctrl+Shift+E: split horizontal
/// - Ctrl+Shift+W: close pane
/// - Ctrl+Shift+Arrow: focus direction
/// - Ctrl+Shift+Z: zoom toggle
pub fn match_pane_command(logical_key: &Key, modifiers: ModifiersState) -> (r: Option<PaneCommand>)
    ensures
        r == pane_command_for(*logical_key, modifiers),
{
    if !(modifiers.control_key() && modifiers.shift_key()) {
        return None;
    }
    match logical_key {
        Key::Character(s) => match single_char(s.as_str()) {
            Some(c) => {
                let lower = to_ascii_lower(c);
                if lower == 'd' {
                    Some(PaneCommand::SplitVertical)
                } else if lower == 'e' {
                    Some(PaneCommand::SplitHorizontal)
                } else if lower == 'w' {
                    Some(PaneCommand::ClosePane)
                } else if lower == 'z' {
                    Some(PaneCommand::ZoomToggle)
                } else {
                    None
                }
            },
            None => None,
        },
        Key::Named(named) => match named {
            NamedKey::ArrowLeft => Some(PaneCommand::FocusDirection(FocusDirection::Left)),
            NamedKey::ArrowRight => Some(PaneCommand::FocusDirection(FocusDirection::Right)),
            NamedKey::ArrowUp => Some(PaneCommand::FocusDirection(FocusDirection::Up)),
            NamedKey::ArrowDown => Some(PaneCommand::FocusDirection(FocusDirection::Down)),
            _ => None,
        },
        Key::Unidentified => None,
    }
}

/// The tab index selected by a digit key '1'..'9' (0-based), if any.
pub open spec fn digit_tab(c: char) -> Option<usize> {
    if '1' <= c <= '9' {
        Some(((c as u32) - 49) as usize)
    } else {
        None
    }
}

/// The tab command bound to a key event (Ctrl+Shift prefix).
pub open spec fn tab_command_for(key: Key, m: ModifiersState) -> Option<TabCommand> {
    if !ctrl_shift_held(m) {
        None
    } else {
        match key {
            Key::Character(s) => if lowercases_to(s@, 't') {
                Some(TabCommand::NewTab)
            } else if is_char(s@, '{') {
                Some(TabCommand::MoveTabLeft)
            } else if is_char(s@, '}') {
                Some(TabCommand::MoveTabRight)
            } else if s@.len() == 1 && digit_tab(s@[0]) is Some {
                Some(TabCommand::SelectTab(digit_tab(s@[0])->0))
            } else {
                None
            },
            Key::Named(named) => match named {
                NamedKey::Tab => Some(TabCommand::NextTab),
                NamedKey::PageUp => Some(TabCommand::PrevTab),
                NamedKey::PageDown => Some(TabCommand::NextTab),
                _ => None,
            },
            Key::Unidentified => None,
        }
    }
}

/// Check if a key event matches a tab command keybinding.
///
/// Hardcoded defaults (Ctrl+Shift prefix):
/// - Ctrl+Shift+T: new tab
/// - Ctrl+Shift+Tab / Ctrl+Shift+PageDown: next tab
/// - Ctrl+Shift+PageUp: previous tab
/// - Ctrl+Shift+1..9: select tab by number
/// - Ctrl+Shift+{ / }: move tab left/right
pub fn match_tab_command(logical_key: &Key, modifiers: ModifiersState) -> (r: Option<TabCommand>)
    ensures
        r == tab_command_for(*logical_key, modifiers),
{
    if !(modifiers.control_key() && modifiers.shift_key()) {
        return None;
    }
    match logical_key {
        Key::Character(s) => match single_char(s.as_str()) {
            Some(c) => {
                if to_ascii_lower(c) == 't' {
                    Some(TabCommand::NewTab)
                } else if c == '{' {
                    Some(TabCommand::MoveTabLeft)
                } else if c == '}' {
                    Some(TabCommand::MoveTabRight)
                } else if '1' <= c && c <= '9' {
                    let n: u32 = (c as u32) - 49;
                    Some(TabCommand::SelectTab(n as usize))
                } else {
                    None
                }
            },
            None => None,
        },
        Key::Named(named) => match named {
            NamedKey::Tab => Some(TabCommand::NextTab),
            NamedKey::PageUp => Some(TabCommand::PrevTab),
            NamedKey::PageDown => Some(TabCommand::NextTab),
            _ => None,
        },
        Key::Unidentified => None,
    }
}

/// The shell integration command bound to a key event.
pub open spec fn shell_command_for(key: Key, m: ModifiersState) -> Option<ShellCommand> {
    if !ctrl_shift_held(m) {
        None
    } else {
        match key {
            Key::Character(s) => if lowercases_to(s@, 'p') {
                Some(ShellCommand::PreviousPrompt)
            } else if lowercases_to(s@, 'n') {
                Some(ShellCommand::NextPrompt)
            } else {
                None
            },
            _ => None,
        }
    }
}

/// Check if a key event matches a shell integration command keybinding.
///
/// Hardcoded defaults:
/// - Ctrl+Shift+P: jump to previous prompt
/// - Ctrl+Shift+N: jump to next prompt
pub fn match_shell_command(logical_key: &Key, modifiers: ModifiersState) -> (r: Option<ShellCommand>)
    ensures
        r == shell_command_for(*logical_key, modifiers),
{
    if !(modifiers.control_key() && modifiers.shift_key()) {
        return None;
    }
    match logical_key {
        Key::Character(s) => match single_char(s.as_str()) {
            Some(c) => {
                let lower = to_ascii_lower(c);
                if lower == 'p' {
                    Some(ShellCommand::PreviousPrompt)
                } else if lower == 'n' {
                    Some(ShellCommand::NextPrompt)
                } else {
                    None
                }
            },
            None => None,
        },
        _ => None,
    }
}

/// Check if a key event should toggle vi-mode (default: Ctrl+Shift+Space).
pub fn should_toggle_vi_mode(logical_key: &Key, modifiers: ModifiersState) -> (b: bool)
    ensures
        b == (ctrl_shift_held(modifiers) && *logical_key == Key::Named(NamedKey::Space)),
{
    if !(modifiers.control_key() && modifiers.shift_key()) {
        return false;
    }
    match logical_key {
        Key::Named(NamedKey::Space) => true,
        _ => false,
    }
}

/// The platform's primary modifier alone: Super (Cmd) on macOS, Ctrl elsewhere,
/// with neither Shift nor the other of the two held.
pub open spec fn primary_modifier_held(m: ModifiersState, platform: Platform) -> bool {
    match platform {
        Platform::MacOs => m.super_key && !m.control && !m.shift,
        Platform::Other => m.control && !m.super_key && !m.shift,
    }
}

/// Return whether the platform-appropriate "primary" modifier is held.
pub fn is_primary_modifier(modifiers: ModifiersState, platform: Platform) -> (b: bool)
    ensures
        b == primary_modifier_held(modifiers, platform),
{
    match platform {
        Platform::MacOs => modifiers.super_key() && !modifiers.control_key()
            && !modifiers.shift_key(),
        Platform::Other => modifiers.control_key() && !modifiers.super_key()
            && !modifiers.shift_key(),
    }
}

/// The application command bound to a key event.
pub open spec fn app_command_for(key: Key, m: ModifiersState, platform: Platform) -> Option<
    AppCommand,
> {
    if !primary_modifier_held(m, platform) {
        None
    } else {
        match key {
            Key::Character(s) => if is_char(s@, '=') || is_char(s@, '+') {
                Some(AppCommand::IncreaseFontSize)
            } else if is_char(s@, '-') {
                Some(AppCommand::DecreaseFontSize)
            } else if is_char(s@, '0') {
                Some(AppCommand::ResetFontSize)
            } else {
                None
            },
            _ => None,
        }
    }
}

/// Check if a key event matches an application command keybinding.
///
/// Platform-aware shortcuts:
/// - Cmd+= / Cmd+Plus (macOS) or Ctrl+= / Ctrl+Plus (others): increase font size
/// - Cmd+Minus (macOS) or Ctrl+Minus (others): decrease font size
/// - Cmd+0 (macOS) or Ctrl+0 (others): reset font size
pub fn match_app_command(logical_key: &Key, modifiers: ModifiersState, platform: Platform) -> (r:
    Option<AppCommand>)
    ensures
        r == app_command_for(*logical_key, modifiers, platform),
{
    if !is_primary_modifier(modifiers, platform) {
        return None;
    }
    match logical_key {
        Key::Character(s) => match single_char(s.as_str()) {
            Some(c) => {
                if c == '=' || c == '+' {
                    Some(AppCommand::IncreaseFontSize)
                } else if c == '-' {
                    Some(AppCommand::DecreaseFontSize)
                } else if c == '0' {
                    Some(AppCommand::ResetFontSize)
                } else {
                    None
                }
            },
            None => None,
        },
        _ => None,
    }
}

// ── Byte encoding ────────────────────────────────────────────────────

/// The control byte for Ctrl+`ch`: 0x01..=0x1A for letters a–z in either case.
pub open spec fn ctrl_byte_spec(ch: char) -> Option<u8> {
    let lower = ascii_lower(ch);
    if 'a' <= lower <= 'z' {
        Some(((lower as u32) - 96) as u8)
    } else {
        None
    }
}

/// Translate a Ctrl+key combination to a control byte (0x01..=0x1A).
/// Returns `None` if the character is not a letter a-z/A-Z.
pub fn ctrl_key_byte(ch: char) -> (r: Option<u8>)
    ensures
        r == ctrl_byte_spec(ch),
{
    let lower = to_ascii_lower(ch);
    if 'a' <= lower && lower <= 'z' {
        let v: u32 = (lower as u32) - 96;
        Some(v as u8)
    } else {
        None
    }
}

/// The bytes a named key sends (normal-mode cursor keys, SS3 for F1–F4,
/// CSI `~` sequences for the others); `None` for modifier-only and unknown keys.
pub open spec fn named_key_seq(key: NamedKey) -> Option<Seq<u8>> {
    match key {
        NamedKey::Enter => Some(seq![0x0du8]),
        NamedKey::Backspace => Some(seq![0x7fu8]),
        NamedKey::Tab => Some(seq![0x09u8]),
        NamedKey::Escape => Some(seq![0x1bu8]),
        NamedKey::Space => Some(seq![0x20u8]),
        NamedKey::ArrowUp => Some(seq![0x1bu8, 0x5bu8, 0x41u8]),
        NamedKey::ArrowDown => Some(seq![0x1bu8, 0x5bu8, 0x42u8]),
        NamedKey::ArrowRight => Some(seq![0x1bu8, 0x5bu8, 0x43u8]),
        NamedKey::ArrowLeft => Some(seq![0x1bu8, 0x5bu8, 0x44u8]),
        NamedKey::Home => Some(seq![0x1bu8, 0x5bu8, 0x48u8]),
        NamedKey::End => Some(seq![0x1bu8, 0x5bu8, 0x46u8]),
        NamedKey::Insert => Some(seq![0x1bu8, 0x5bu8, 0x32u8, 0x7eu8]),
        NamedKey::Delete => Some(seq![0x1bu8, 0x5bu8, 0x33u8, 0x7eu8]),
        NamedKey::PageUp => Some(seq![0x1bu8, 0x5bu8, 0x35u8, 0x7eu8]),
        NamedKey::PageDown => Some(seq![0x1bu8, 0x5bu8, 0x36u8, 0x7eu8]),
        NamedKey::F1 => Some(seq![0x1bu8, 0x4fu8, 0x50u8]),
        NamedKey::F2 => Some(seq![0x1bu8, 0x4fu8, 0x51u8]),
        NamedKey::F3 => Some(seq![0x1bu8, 0x4fu8, 0x52u8]),
        NamedKey::F4 => Some(seq![0x1bu8, 0x4fu8, 0x53u8]),
        NamedKey::F5 => Some(seq![0x1bu8, 0x5bu8, 0x31u8, 0x35u8, 0x7eu8]),
        NamedKey::F6 => Some(seq![0x1bu8, 0x5bu8, 0x31u8, 0x37u8, 0x7eu8]),
        NamedKey::F7 => Some(seq![0x1bu8, 0x5bu8, 0x31u8, 0x38u8, 0x7eu8]),
        NamedKey::F8 => Some(seq![0x1bu8, 0x5bu8, 0x31u8, 0x39u8, 0x7eu8]),
        NamedKey::F9 => Some(seq![0x1bu8, 0x5bu8, 0x32u8, 0x30u8, 0x7eu8]),
        NamedKey::F10 => Some(seq![0x1bu8, 0x5bu8, 0x32u8, 0x31u8, 0x7eu8]),
        NamedKey::F11 => Some(seq![0x1bu8, 0x5bu8, 0x32u8, 0x33u8, 0x7eu8]),
        NamedKey::F12 => Some(seq![0x1bu8, 0x5bu8, 0x32u8, 0x34u8, 0x7eu8]),
        _ => None,
    }
}

fn bytes_of(a: &[u8]) -> (v: Vec<u8>)
    ensures
        v@ == a@,
{
    let mut v: Vec<u8> = Vec::new();
    let mut i: usize = 0;
    while i < a.len()
        invariant
            i <= a@.len(),
            v@ == a@.subrange(0, i as int),
        decreases a.len() - i,
    {
        v.push(a[i]);
        i = i + 1;
        assert(v@ =~= a@.subrange(0, i as int));
    }
    assert(a@.subrange(0, a@.len() as int) =~= a@);
    v
}

/// Translate a named key (Enter, Backspace, etc.) to terminal bytes.
pub fn named_key_bytes(key: NamedKey, _modifiers: ModifiersState) -> (r: Option<Vec<u8>>)
    ensures
        match r {
            Some(v) => named_key_seq(key) == Some(v@),
            None => named_key_seq(key) is None,
        },
{
    let bytes: &[u8] = match key {
        NamedKey::Enter => &[0x0d],
        NamedKey::Backspace => &[0x7f],
        NamedKey::Tab => &[0x09],
        NamedKey::Escape => &[0x1b],
        NamedKey::Space => &[0x20],
        NamedKey::ArrowUp => &[0x1b, 0x5b, 0x41],
        NamedKey::ArrowDown => &[0x1b, 0x5b, 0x42],
        NamedKey::ArrowRight => &[0x1b, 0x5b, 0x43],
        NamedKey::ArrowLeft => &[0x1b, 0x5b, 0x44],
        NamedKey::Home => &[0x1b, 0x5b, 0x48],
        NamedKey::End => &[0x1b, 0x5b, 0x46],
        NamedKey::Insert => &[0x1b, 0x5b, 0x32, 0x7e],
        NamedKey::Delete => &[0x1b, 0x5b, 0x33, 0x7e],
        NamedKey::PageUp => &[0x1b, 0x5b, 0x35, 0x7e],
        NamedKey::PageDown => &[0x1b, 0x5b, 0x36, 0x7e],
        NamedKey::F1 => &[0x1b, 0x4f, 0x50],
        NamedKey::F2 => &[0x1b, 0x4f, 0x51],
        NamedKey::F3 => &[0x1b, 0x4f, 0x52],
        NamedKey::F4 => &[0x1b, 0x4f, 0x53],
        NamedKey::F5 => &[0x1b, 0x5b, 0x31, 0x35, 0x7e],
        NamedKey::F6 => &[0x1b, 0x5b, 0x31, 0x37, 0x7e],
        NamedKey::F7 => &[0x1b, 0x5b, 0x31, 0x38, 0x7e],
        NamedKey::F8 => &[0x1b, 0x5b, 0x31, 0x39, 0x7e],
        NamedKey::F9 => &[0x1b, 0x5b, 0x32, 0x30, 0x7e],
        NamedKey::F10 => &[0x1b, 0x5b, 0x32, 0x31, 0x7e],
        NamedKey::F11 => &[0x1b, 0x5b, 0x32, 0x33, 0x7e],
        NamedKey::F12 => &[0x1b, 0x5b, 0x32, 0x34, 0x7e],
        _ => {
            return None;
        },
    };
    let v = bytes_of(bytes);
    proof {
        assert(named_key_seq(key) is Some);
        assert(v@ =~= named_key_seq(key)->0);
    }
    Some(v)
}

/// The bytes sent to the PTY for a key event; `None` for releases, keys that
/// produce nothing and unidentified keys.
pub open spec fn key_bytes_for(key: Key, text: Option<Seq<char>>, state: ElementState, m: ModifiersState) -> Option<Seq<u8>> {
    if state == ElementState::Released {
        None
    } else {
        match key {
            Key::Character(s) => if m.control && s@.len() > 0 && ctrl_byte_spec(s@[0]) is Some {
                Some(seq![ctrl_byte_spec(s@[0])->0])
            } else {
                Some(vstd::utf8::encode_utf8(
                    match text {
                        Some(t) => t,
                        None => s@,
                    },
                ))
            },
            Key::Named(named) => named_key_seq(named),
            Key::Unidentified => None,
        }
    }
}

/// Translate a key event into terminal byte sequences to send to the PTY.
///
/// Returns `None` if the key event should not produce any output (e.g. modifier-only
/// keys, key releases, or unhandled keys).
pub fn translate_key(logical_key: &Key, text: Option<&str>, state: ElementState, modifiers: ModifiersState) -> (r: Option<Vec<u8>>)
    ensures
        match r {
            Some(v) => key_bytes_for(
                *logical_key,
                match text {
                    Some(t) => Some(t@),
                    None => None::<Seq<char>>,
                },
                state,
                modifiers,
            ) == Some(v@),
            None => key_bytes_for(
                *logical_key,
                match text {
                    Some(t) => Some(t@),
                    None => None::<Seq<char>>,
                },
                state,
                modifiers,
            ) is None,
        },
{
    if state == ElementState::Released {
        return None;
    }
    match logical_key {
        Key::Character(s) => {
            if modifiers.control_key() {
                if let Some(ch) = first_char(s.as_str()) {
                    if let Some(byte) = ctrl_key_byte(ch) {
                        let mut v: Vec<u8> = Vec::new();
                        v.push(byte);
                        assert(v@ =~= seq![byte]);
                        return Some(v);
                    }
                }
            }
            let t: &str = match text {
                Some(t) => t,
                None => s.as_str(),
            };
            Some(bytes_of(t.as_bytes()))
        },
        Key::Named(named) => named_key_bytes(*named, modifiers),
        Key::Unidentified => None,
    }
}

// ── Keybinding lookup ────────────────────────────────────────────────

/// The map holds a binding for a key whose text is `combo`, to `action`.
pub open spec fn binds(bindings: Map<String, String>, combo: Seq<char>, action: Seq<char>) -> bool {
    exists|k: String| #[trigger] bindings.contains_key(k) && k@ == combo && bindings[k]@ == action
}

/// The map holds no binding for a key whose text is `combo`.
pub open spec fn unbound(bindings: Map<String, String>, combo: Seq<char>) -> bool {
    forall|k: String| #[trigger] bindings.contains_key(k) ==> k@ != combo
}

/// Calls `HashMap::get` with a `&str` key. As std documents, it returns the
/// value stored under the key equal to `key`, or `None` when there is no
/// such key.
#[verifier::external_body]
fn hash_map_get<'a>(bindings: &'a HashMap<String, String>, key: &str) -> (r: Option<&'a String>)
    ensures
        match r {
            Some(v) => binds(bindings@, key@, v@),
            None => unbound(bindings@, key@),
        },
{
    bindings.get(key)
}

/// Look up a keybinding action from config bindings.
///
/// Given a key combo string (e.g., "ctrl+shift+c") and the config keybinding map,
/// returns the action name if a binding is defined, or None.
pub fn lookup_binding(key_combo: &str, bindings: &HashMap<String, String>) -> (r: Option<String>)
    ensures
        match r {
            Some(v) => binds(bindings@, key_combo@, v@),
            None => unbound(bindings@, key_combo@),
        },
{
    match hash_map_get(bindings, key_combo) {
        Some(action) => Some(action.clone()),
        None => None,
    }
}


// ── Laws ─────────────────────────────────────────────────────────────

/// Ctrl with a letter gives the same control byte in either case: the
/// letter's position in the alphabet, 1 for 'a' to 26 for 'z'.
pub proof fn lemma_ctrl_byte_case_insensitive(c: char)
    requires
        'a' <= c <= 'z',
    ensures
        ctrl_byte_spec(c) == Some(((c as u32) - 96) as u8),
        ctrl_byte_spec(((c as u32) - 32) as char) == ctrl_byte_spec(c),
        1 <= (c as u32) - 96 <= 26,
{
}

/// The shortcut that opens search closes it again: in search mode,
/// Ctrl+Shift+F gives `Close` whatever text the key carries.
pub proof fn lemma_search_shortcut_toggles(key: Key, text: Option<Seq<char>>, m: ModifiersState)
    requires
        opens_search(key, m),
    ensures
        search_command_for(key, text, m) == Some(SearchCommand::Close),
{
}

/// No key event is bound to two commands: a Ctrl+Shift shortcut that
/// opens search, toggles vi mode, or runs a pane, tab or shell command
/// does exactly one of these.
pub proof fn lemma_shortcuts_disjoint(key: Key, m: ModifiersState)
    ensures
        pane_command_for(key, m) is Some ==> tab_command_for(key, m) is None && shell_command_for(key, m) is None
            && !opens_search(key, m) && key != Key::Named(NamedKey::Space),
        tab_command_for(key, m) is Some ==> shell_command_for(key, m) is None && !opens_search(key, m)
            && key != Key::Named(NamedKey::Space),
        shell_command_for(key, m) is Some ==> !opens_search(key, m) && key != Key::Named(NamedKey::Space),
        opens_search(key, m) ==> key != Key::Named(NamedKey::Space),
{
}

/// Which named key a byte sequence is the encoding of (`NamedKey::Other`
/// for a sequence that encodes none): the reading a terminal program does.
pub open spec fn key_of_bytes(b: Seq<u8>) -> NamedKey {
    if b.len() == 1 {
        if b[0] == 0x0d { NamedKey::Enter }
        else if b[0] == 0x7f { NamedKey::Backspace }
        else if b[0] == 0x09 { NamedKey::Tab }
        else if b[0] == 0x1b { NamedKey::Escape }
        else if b[0] == 0x20 { NamedKey::Space }
        else { NamedKey::Other }
    } else if b.len() == 3 && b[0] == 0x1b && b[1] == 0x5b {
        if b[2] == 0x41 { NamedKey::ArrowUp }
        else if b[2] == 0x42 { NamedKey::ArrowDown }
        else if b[2] == 0x43 { NamedKey::ArrowRight }
        else if b[2] == 0x44 { NamedKey::ArrowLeft }
        else if b[2] == 0x48 { NamedKey::Home }
        else if b[2] == 0x46 { NamedKey::End }
        else { NamedKey::Other }
    } else if b.len() == 3 && b[0] == 0x1b && b[1] == 0x4f {
        if b[2] == 0x50 { NamedKey::F1 }
        else if b[2] == 0x51 { NamedKey::F2 }
        else if b[2] == 0x52 { NamedKey::F3 }
        else if b[2] == 0x53 { NamedKey::F4 }
        else { NamedKey::Other }
    } else if b.len() == 4 && b[0] == 0x1b && b[1] == 0x5b && b[3] == 0x7e {
        if b[2] == 0x32 { NamedKey::Insert }
        else if b[2] == 0x33 { NamedKey::Delete }
        else if b[2] == 0x35 { NamedKey::PageUp }
        else if b[2] == 0x36 { NamedKey::PageDown }
        else { NamedKey::Other }
    } else if b.len() == 5 && b[0] == 0x1b && b[1] == 0x5b && b[4] == 0x7e {
        let code = (b[2] - 0x30) * 10 + (b[3] - 0x30);
        if code == 15 { NamedKey::F5 }
        else if code == 17 { NamedKey::F6 }
        else if code == 18 { NamedKey::F7 }
        else if code == 19 { NamedKey::F8 }
        else if code == 20 { NamedKey::F9 }
        else if code == 21 { NamedKey::F10 }
        else if code == 23 { NamedKey::F11 }
        else if code == 24 { NamedKey::F12 }
        else { NamedKey::Other }
    } else {
        NamedKey::Other
    }
}

/// A pressed named key sends the xterm sequence a terminal reads back as
/// that same key, so no two keys send the same bytes; the function keys
/// F5 to F12 send ESC [ 15/17/18/19/20/21/23/24 ~, and the modifier keys send
/// nothing.
pub proof fn lemma_named_keys_decode(k: NamedKey, k2: NamedKey, text: Option<Seq<char>>, m: ModifiersState)
    ensures
        key_bytes_for(Key::Named(k), text, ElementState::Pressed, m) == named_key_seq(k),
        named_key_seq(k) matches Some(b) ==> key_of_bytes(b) == k,
        named_key_seq(k) is Some && named_key_seq(k) == named_key_seq(k2) ==> k == k2,
        named_key_seq(NamedKey::F5) == Some(seq![0x1bu8, 0x5bu8, 0x31u8, 0x35u8, 0x7eu8]),
        named_key_seq(NamedKey::F6) == Some(seq![0x1bu8, 0x5bu8, 0x31u8, 0x37u8, 0x7eu8]),
        named_key_seq(NamedKey::F7) == Some(seq![0x1bu8, 0x5bu8, 0x31u8, 0x38u8, 0x7eu8]),
        named_key_seq(NamedKey::F8) == Some(seq![0x1bu8, 0x5bu8, 0x31u8, 0x39u8, 0x7eu8]),
        named_key_seq(NamedKey::F9) == Some(seq![0x1bu8, 0x5bu8, 0x32u8, 0x30u8, 0x7eu8]),
        named_key_seq(NamedKey::F10) == Some(seq![0x1bu8, 0x5bu8, 0x32u8, 0x31u8, 0x7eu8]),
        named_key_seq(NamedKey::F11) == Some(seq![0x1bu8, 0x5bu8, 0x32u8, 0x33u8, 0x7eu8]),
        named_key_seq(NamedKey::F12) == Some(seq![0x1bu8, 0x5bu8, 0x32u8, 0x34u8, 0x7eu8]),
        (k == NamedKey::Shift || k == NamedKey::Control || k == NamedKey::Alt || k == NamedKey::Super)
            ==> named_key_seq(k) is None,
{
    lemma_named_key_decodes(k);
    lemma_named_key_decodes(k2);
}

proof fn lemma_named_key_decodes(k: NamedKey)
    ensures
        named_key_seq(k) matches Some(b) ==> key_of_bytes(b) == k,
{
    match named_key_seq(k) {
        Some(b) => {
            match k {
                NamedKey::F5 | NamedKey::F6 | NamedKey::F7 | NamedKey::F8 | NamedKey::F9
                | NamedKey::F10 | NamedKey::F11 | NamedKey::F12 => {
                    assert(b.len() == 5 && b[0] == 0x1b && b[1] == 0x5b && b[4] == 0x7e);
                },
                _ => {},
            }
        },
        None => {},
    }
}

/// Search mode never types a control character (Unicode `Cc`, U+0000 to
/// U+001F and U+007F to U+009F) into the query: `InsertChar(c)` only comes
/// for a printable `c`, which is the first character of the key's text (or
/// of the key itself when there is no text).
pub proof fn lemma_search_inserts_no_control(key: Key, text: Option<Seq<char>>, m: ModifiersState, c: char)
    requires
        search_command_for(key, text, m) == Some(SearchCommand::InsertChar(c)),
    ensures
        (c as u32) >= 0x20,
        !(0x7F <= (c as u32) <= 0x9F),
        key matches Key::Character(s) && c == (match text {
            Some(t) => t,
            None => s@,
        })[0],
{
}

} // verus!
