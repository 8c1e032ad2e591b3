use std::time::{Duration, Instant};
use veloterm::renderer::cursor::{
    blink_interval, CursorState, CursorStyle, FLAG_CURSOR, FLAG_CURSOR_BEAM, FLAG_CURSOR_BLOCK,
    FLAG_CURSOR_HOLLOW, FLAG_CURSOR_UNDERLINE,
};
// ── Cursor position extraction ──────────────────────────────────

#[test]
fn cursor_starts_at_origin() {
    let cursor = CursorState::new();
    assert_eq!(cursor.row, 0);
    assert_eq!(cursor.col, 0);
}

#[test]
fn cursor_update_position() {
    let mut cursor = CursorState::new();
    cursor.update_position(5, 10);
    assert_eq!(cursor.row, 5);
    assert_eq!(cursor.col, 10);
}

#[test]
fn cursor_default_style_is_block() {
    let cursor = CursorState::new();
    assert_eq!(cursor.style, CursorStyle::Block);
}

#[test]
fn cursor_default_visible() {
    let cursor = CursorState::new();
    assert!(cursor.visible);
}

#[test]
fn cursor_default_focused() {
    let cursor = CursorState::new();
    assert!(cursor.focused);
}

// ── Block cursor cell instance ──────────────────────────────────

#[test]
fn block_cursor_has_cursor_flag() {
    let cursor = CursorState::new();
    let flags = cursor.cursor_flags();
    assert_ne!(flags & FLAG_CURSOR, 0);
}

#[test]
fn block_cursor_flags_have_block_shape() {
    let cursor = CursorState::new();
    let flags = cursor.cursor_flags();
    let shape_bits = flags & (0x03 << 2);
    assert_eq!(shape_bits, FLAG_CURSOR_BLOCK);
}

#[test]
fn beam_cursor_has_beam_shape_flag() {
    let mut cursor = CursorState::new();
    cursor.set_style(CursorStyle::Beam);
    let flags = cursor.cursor_flags();
    let shape_bits = flags & (0x03 << 2);
    assert_eq!(shape_bits, FLAG_CURSOR_BEAM);
}

#[test]
fn beam_cursor_has_cursor_flag() {
    let mut cursor = CursorState::new();
    cursor.set_style(CursorStyle::Beam);
    let flags = cursor.cursor_flags();
    assert_ne!(flags & FLAG_CURSOR, 0);
}

// ── Underline cursor cell instance ──────────────────────────────

#[test]
fn underline_cursor_has_underline_shape_flag() {
    let mut cursor = CursorState::new();
    cursor.set_style(CursorStyle::Underline);
    let flags = cursor.cursor_flags();
    let shape_bits = flags & (0x03 << 2);
    assert_eq!(shape_bits, FLAG_CURSOR_UNDERLINE);
}

#[test]
fn underline_cursor_has_cursor_flag() {
    let mut cursor = CursorState::new();
    cursor.set_style(CursorStyle::Underline);
    let flags = cursor.cursor_flags();
    assert_ne!(flags & FLAG_CURSOR, 0);
}

// ── Hollow block cursor (unfocused) ─────────────────────────────

#[test]
fn unfocused_cursor_shows_hollow_block() {
    let mut cursor = CursorState::new();
    cursor.set_focused(false);
    let flags = cursor.cursor_flags();
    let shape_bits = flags & (0x03 << 2);
    assert_eq!(shape_bits, FLAG_CURSOR_HOLLOW);
}

#[test]
fn unfocused_cursor_still_has_cursor_flag() {
    let mut cursor = CursorState::new();
    cursor.set_focused(false);
    let flags = cursor.cursor_flags();
    assert_ne!(flags & FLAG_CURSOR, 0);
}

#[test]
fn refocused_cursor_restores_original_style() {
    let mut cursor = CursorState::new();
    cursor.set_style(CursorStyle::Beam);
    cursor.set_focused(false);
    // Unfocused shows hollow
    let flags = cursor.cursor_flags();
    assert_eq!(flags & (0x03 << 2), FLAG_CURSOR_HOLLOW);
    // Refocus restores beam
    cursor.set_focused(true);
    let flags = cursor.cursor_flags();
    assert_eq!(flags & (0x03 << 2), FLAG_CURSOR_BEAM);
}

// ── Cursor blink timing ─────────────────────────────────────────

#[test]
fn cursor_visible_initially() {
    let cursor = CursorState::new();
    assert!(cursor.should_render());
}

#[test]
fn cursor_not_visible_returns_none() {
    let mut cursor = CursorState::new();
    cursor.visible = false;
    assert!(!cursor.should_render());
}

#[test]
fn blink_toggles_visibility() {
    let mut cursor = CursorState::new();
    // Force blink interval to have elapsed
    cursor.last_blink = Instant::now() - blink_interval() - Duration::from_millis(1);
    let changed = cursor.tick_blink();
    assert!(changed);
    assert!(!cursor.blink_visible); // Was true, now false
}

#[test]
fn blink_no_change_before_interval() {
    let mut cursor = CursorState::new();
    // Just created, interval hasn't elapsed
    let changed = cursor.tick_blink();
    assert!(!changed);
    assert!(cursor.blink_visible); // Still true
}

#[test]
fn blink_off_hides_cursor() {
    let mut cursor = CursorState::new();
    cursor.blink_visible = false;
    assert!(!cursor.should_render());
}

#[test]
fn blink_on_shows_cursor() {
    let mut cursor = CursorState::new();
    cursor.blink_visible = true;
    assert!(cursor.should_render());
}

// ── Set style ───────────────────────────────────────────────────

#[test]
fn set_style_beam() {
    let mut cursor = CursorState::new();
    cursor.set_style(CursorStyle::Beam);
    assert_eq!(cursor.style, CursorStyle::Beam);
}

#[test]
fn set_style_underline() {
    let mut cursor = CursorState::new();
    cursor.set_style(CursorStyle::Underline);
    assert_eq!(cursor.style, CursorStyle::Underline);
}

#[test]
fn advance_blink_twice_restores_phase() {
    let mut cursor = CursorState::new();
    let now = Instant::now();
    assert!(cursor.advance_blink(Duration::from_millis(500), now));
    assert!(!cursor.blink_visible);
    assert_eq!(cursor.last_blink, now);
    assert!(cursor.advance_blink(Duration::from_millis(600), now));
    assert!(cursor.blink_visible);
}

#[test]
fn advance_blink_below_interval_changes_nothing() {
    let mut cursor = CursorState::new();
    let before = cursor.last_blink;
    assert!(!cursor.advance_blink(Duration::from_millis(499), Instant::now()));
    assert!(cursor.blink_visible);
    assert_eq!(cursor.last_blink, before);
}

#[test]
fn cursor_flags_exact_values() {
    let mut cursor = CursorState::default();
    assert_eq!(cursor.cursor_flags(), 0x02);
    cursor.set_style(CursorStyle::Beam);
    assert_eq!(cursor.cursor_flags(), 0x06);
    cursor.set_style(CursorStyle::Underline);
    assert_eq!(cursor.cursor_flags(), 0x0A);
    cursor.set_focused(false);
    assert_eq!(cursor.cursor_flags(), 0x0E);
}

#[test]
fn blink_interval_is_half_a_second() {
    assert_eq!(blink_interval(), Duration::from_millis(500));
}
