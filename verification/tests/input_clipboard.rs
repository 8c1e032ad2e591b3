use veloterm::input::clipboard::{is_copy_keybinding, is_paste_keybinding, paste_bytes, wrap_bracketed_paste};
use veloterm::input::{Key, ModifiersState};


// ── Copy keybinding detection ────────────────────────────────────

#[test]
fn copy_cmd_c_is_copy() {
    // macOS: Cmd+C
    assert!(is_copy_keybinding(
        &Key::Character("c".into()),
        ModifiersState::new(false, false, false, true)
    ));
}

#[test]
fn copy_ctrl_shift_c_is_copy() {
    // Linux: Ctrl+Shift+C
    assert!(is_copy_keybinding(
        &Key::Character("c".into()),
        ModifiersState::new(true, true, false, false)
    ));
}

#[test]
fn copy_ctrl_c_alone_is_not_copy() {
    // Ctrl+C is terminal interrupt, not copy
    assert!(!is_copy_keybinding(
        &Key::Character("c".into()),
        ModifiersState::new(false, true, false, false)
    ));
}

#[test]
fn copy_wrong_key_is_not_copy() {
    assert!(!is_copy_keybinding(
        &Key::Character("x".into()),
        ModifiersState::new(false, false, false, true)
    ));
}

// ── Paste keybinding detection ───────────────────────────────────

#[test]
fn paste_cmd_v_is_paste() {
    // macOS: Cmd+V
    assert!(is_paste_keybinding(
        &Key::Character("v".into()),
        ModifiersState::new(false, false, false, true)
    ));
}

#[test]
fn paste_ctrl_shift_v_is_paste() {
    // Linux: Ctrl+Shift+V
    assert!(is_paste_keybinding(
        &Key::Character("v".into()),
        ModifiersState::new(true, true, false, false)
    ));
}

#[test]
fn paste_ctrl_v_alone_is_not_paste() {
    assert!(!is_paste_keybinding(
        &Key::Character("v".into()),
        ModifiersState::new(false, true, false, false)
    ));
}

// ── Bracketed paste wrapping ─────────────────────────────────────

#[test]
fn wrap_bracketed_paste_wraps_text() {
    let result = wrap_bracketed_paste("hello");
    assert_eq!(result, b"\x1b[200~hello\x1b[201~");
}

#[test]
fn wrap_bracketed_paste_empty_string() {
    let result = wrap_bracketed_paste("");
    assert_eq!(result, b"\x1b[200~\x1b[201~");
}

// ── Paste byte generation ────────────────────────────────────────

#[test]
fn paste_bytes_without_bracketed_mode() {
    let result = paste_bytes("hello", false);
    assert_eq!(result, b"hello");
}

#[test]
fn paste_bytes_with_bracketed_mode() {
    let result = paste_bytes("hello", true);
    assert_eq!(result, b"\x1b[200~hello\x1b[201~");
}

#[test]
fn paste_bytes_utf8_content() {
    let result = paste_bytes("caf\u{00e9}", false);
    assert_eq!(result, "caf\u{00e9}".as_bytes());
}
