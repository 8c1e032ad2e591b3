//! Cursor state: position, shape, focus and blinking.

use std::time::{Duration, Instant};
use vstd::prelude::*;
use crate::clock::{duration_from_millis, duration_nanos, elapsed_between, instant_now, instant_gap_nanos, nanos_of};

verus! {

/// Cursor shape styles.
#[derive(Debug, Clone, Copy, PartialEq, Eq, Structural)]
pub enum CursorStyle {
    Block,
    Beam,
    Underline,
}

/// Flags for cursor rendering in a cell instance's flags field.
/// Bit 0: has_glyph (existing)
/// Bit 1: is_cursor
/// Bits 2-3: cursor shape (00=block, 01=beam, 10=underline, 11=hollow_block)
pub const FLAG_CURSOR: u32 = 0x02;
pub const FLAG_CURSOR_BLOCK: u32 = 0x00 << 2;
pub const FLAG_CURSOR_BEAM: u32 = 0x01 << 2;
pub const FLAG_CURSOR_UNDERLINE: u32 = 0x02 << 2;
pub const FLAG_CURSOR_HOLLOW: u32 = 0x03 << 2;

/// Cursor blink interval in milliseconds.
pub const BLINK_INTERVAL_MS: u64 = 500;

/// Default cursor blink interval.
pub fn blink_interval() -> (d: Duration)
    ensures
        duration_nanos(d) == BLINK_INTERVAL_MS * 1_000_000,
{
    duration_from_millis(BLINK_INTERVAL_MS)
}

/// Manages cursor state for rendering.
pub struct CursorState {
    pub row: usize,
    pub col: usize,
    pub style: CursorStyle,
    pub visible: bool,
    pub focused: bool,
    pub blink_visible: bool,
    pub last_blink: Instant,
}

/// The shape and cursor bits for a cursor: the hollow block when the window
/// is unfocused, else the style's shape; always with the cursor bit.
pub open spec fn cursor_flags_spec(style: CursorStyle, focused: bool) -> u32 {
    let shape = if !focused {
        FLAG_CURSOR_HOLLOW
    } else {
        match style {
            CursorStyle::Block => FLAG_CURSOR_BLOCK,
            CursorStyle::Beam => FLAG_CURSOR_BEAM,
            CursorStyle::Underline => FLAG_CURSOR_UNDERLINE,
        }
    };
    FLAG_CURSOR | shape
}

impl Default for CursorState {
    fn default() -> (c: Self)
        ensures
            c.row == 0,
            c.col == 0,
            c.style == CursorStyle::Block,
            c.visible,
            c.focused,
            c.blink_visible,
    {
        Self::new()
    }
}

impl CursorState {
    /// Create a new cursor at the origin: block style, visible, focused,
    /// blink phase on, blink timer starting now.
    pub fn new() -> (c: Self)
        ensures
            c.row == 0,
            c.col == 0,
            c.style == CursorStyle::Block,
            c.visible,
            c.focused,
            c.blink_visible,
    {
        CursorState {
            row: 0,
            col: 0,
            style: CursorStyle::Block,
            visible: true,
            focused: true,
            blink_visible: true,
            last_blink: instant_now(),
        }
    }

    /// Update cursor position from terminal state.
    pub fn update_position(&mut self, row: usize, col: usize)
        ensures
            final(self).row == row,
            final(self).col == col,
            final(self).style == old(self).style,
            final(self).visible == old(self).visible,
            final(self).focused == old(self).focused,
            final(self).blink_visible == old(self).blink_visible,
            final(self).last_blink == old(self).last_blink,
    {
        self.row = row;
        self.col = col;
    }

    /// Set the cursor style.
    pub fn set_style(&mut self, style: CursorStyle)
        ensures
            *final(self) == (CursorState { style, ..*old(self) }),
    {
        self.style = style;
    }

    /// Set window focus state. Unfocused window shows hollow block cursor.
    pub fn set_focused(&mut self, focused: bool)
        ensures
            *final(self) == (CursorState { focused, ..*old(self) }),
    {
        self.focused = focused;
    }

    /// Advance the blink timer given the time elapsed since the last toggle
    /// and the current instant: once the blink interval has passed, the blink
    /// phase flips and the timer restarts at `now`. Returns true if it flipped.
    pub fn advance_blink(&mut self, elapsed: Duration, now: Instant) -> (changed: bool)
        ensures
            changed == (duration_nanos(elapsed) >= BLINK_INTERVAL_MS * 1_000_000),
            changed ==> *final(self) == (CursorState { blink_visible: !old(self).blink_visible, last_blink: now, ..*old(self) }),
            !changed ==> *final(self) == *old(self),
    {
        let nanos = nanos_of(elapsed);
        if nanos >= (BLINK_INTERVAL_MS as u128) * 1_000_000 {
            self.blink_visible = !self.blink_visible;
            self.last_blink = now;
            true
        } else {
            false
        }
    }

    /// Advance the blink timer against the clock. Returns true if blink state
    /// changed, which happens exactly when the interval has passed since the
    /// last toggle.
    pub fn tick_blink(&mut self) -> (changed: bool)
        ensures
            exists|now: Instant| {
                &&& changed == (instant_gap_nanos(now, old(self).last_blink) >= BLINK_INTERVAL_MS * 1_000_000)
                &&& changed ==> *final(self) == (CursorState { blink_visible: !old(self).blink_visible, last_blink: now, ..*old(self) })
            },
            !changed ==> *final(self) == *old(self),
    {
        let now = instant_now();
        let elapsed = elapsed_between(now, self.last_blink);
        self.advance_blink(elapsed, now)
    }

    /// Whether the cursor should be rendered this frame.
    pub fn should_render(&self) -> (b: bool)
        ensures
            b == (self.visible && self.blink_visible),
    {
        self.visible && self.blink_visible
    }

    /// Compute the flags value for this cursor's style and focus state.
    pub fn cursor_flags(&self) -> (f: u32)
        ensures
            f == cursor_flags_spec(self.style, self.focused),
    {
        let shape_flags = if !self.focused {
            FLAG_CURSOR_HOLLOW
        } else {
            match self.style {
                CursorStyle::Block => FLAG_CURSOR_BLOCK,
                CursorStyle::Beam => FLAG_CURSOR_BEAM,
                CursorStyle::Underline => FLAG_CURSOR_UNDERLINE,
            }
        };
        FLAG_CURSOR | shape_flags
    }
}


/// The cursor flags carry the cursor bit and, in bits 2-3, the shape code:
/// 3 (hollow block) for an unfocused window, else 0 for block, 1 for beam,
/// 2 for underline; no other bit is set.
pub proof fn lemma_cursor_flags_encoding(style: CursorStyle, focused: bool)
    ensures
        cursor_flags_spec(style, focused) & FLAG_CURSOR == FLAG_CURSOR,
        (cursor_flags_spec(style, focused) >> 2) & 3 == (if !focused {
            3u32
        } else {
            match style {
                CursorStyle::Block => 0u32,
                CursorStyle::Beam => 1u32,
                CursorStyle::Underline => 2u32,
            }
        }),
        cursor_flags_spec(style, focused) & !0x0Eu32 == 0,
{
    assert(FLAG_CURSOR_BLOCK == 0 && FLAG_CURSOR_BEAM == 4 && FLAG_CURSOR_UNDERLINE == 8 && FLAG_CURSOR_HOLLOW == 12) by (bit_vector);
    let f = cursor_flags_spec(style, focused);
    if !focused {
        assert(f == 0x02u32 | 0x0Cu32);
        assert((0x02u32 | 0x0Cu32) & 0x02 == 0x02 && ((0x02u32 | 0x0Cu32) >> 2) & 3 == 3 && (0x02u32 | 0x0Cu32) & !0x0Eu32 == 0) by (bit_vector);
    } else {
        match style {
            CursorStyle::Block => {
                assert(f == 0x02u32 | 0x00u32);
                assert((0x02u32 | 0x00u32) & 0x02 == 0x02 && ((0x02u32 | 0x00u32) >> 2) & 3 == 0 && (0x02u32 | 0x00u32) & !0x0Eu32 == 0) by (bit_vector);
            },
            CursorStyle::Beam => {
                assert(f == 0x02u32 | 0x04u32);
                assert((0x02u32 | 0x04u32) & 0x02 == 0x02 && ((0x02u32 | 0x04u32) >> 2) & 3 == 1 && (0x02u32 | 0x04u32) & !0x0Eu32 == 0) by (bit_vector);
            },
            CursorStyle::Underline => {
                assert(f == 0x02u32 | 0x08u32);
                assert((0x02u32 | 0x08u32) & 0x02 == 0x02 && ((0x02u32 | 0x08u32) >> 2) & 3 == 2 && (0x02u32 | 0x08u32) & !0x0Eu32 == 0) by (bit_vector);
            },
        }
    }
}

} // verus!
