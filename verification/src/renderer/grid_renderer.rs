//! Terminal grid cells and instance-buffer layout.

use vstd::prelude::*;

verus! {

/// Cell attribute flags (bits 4+ to avoid conflict with renderer-internal flags 0-3).
pub const CELL_FLAG_UNDERLINE: u32 = 0x10;

/// Strikethrough attribute (bit 5).
pub const CELL_FLAG_STRIKETHROUGH: u32 = 0x20;

/// Selected attribute (bit 6).
pub const CELL_FLAG_SELECTED: u32 = 0x40;

/// Size in bytes of one cell instance in the GPU instance buffer: position
/// (2 × f32), atlas UV (4 × f32), foreground and background (4 × f32 each),
/// flags (u32) and three u32 of padding.
pub const CELL_INSTANCE_BYTES: usize = 72;

/// An RGBA colour. Each channel holds the IEEE-754 bit pattern of its `f32`
/// value (`f32::to_bits`), so colours compare equal exactly when their bit
/// patterns do.
#[derive(Debug, Clone, Copy, PartialEq, Eq, Structural)]
pub struct Color {
    pub r: u32,
    pub g: u32,
    pub b: u32,
    pub a: u32,
}

/// Bit pattern of `1.0f32`.
pub const F32_ONE_BITS: u32 = 0x3F80_0000;

impl Color {
    /// A colour from the bit patterns of its four channels.
    pub fn new(r: u32, g: u32, b: u32, a: u32) -> (c: Self)
        ensures
            c.r == r && c.g == g && c.b == b && c.a == a,
    {
        Color { r, g, b, a }
    }

    /// Opaque white (all channels `1.0`).
    pub open spec fn white() -> Self {
        Color { r: F32_ONE_BITS, g: F32_ONE_BITS, b: F32_ONE_BITS, a: F32_ONE_BITS }
    }
}

/// A single cell in the terminal grid.
#[derive(Debug, Clone, Copy, PartialEq, Eq, Structural)]
pub struct GridCell {
    /// Character to display (space for empty cells).
    pub ch: char,
    /// Foreground color.
    pub fg: Color,
    /// Background color.
    pub bg: Color,
    /// Cell attribute flags (underline, strikethrough, etc.).
    pub flags: u32,
}

impl GridCell {
    /// Create a new grid cell.
    pub fn new(ch: char, fg: Color, bg: Color) -> (cell: Self)
        ensures
            cell == (GridCell { ch, fg, bg, flags: 0 }),
    {
        GridCell { ch, fg, bg, flags: 0 }
    }

    /// Create an empty cell (a space in white) with the given background color.
    pub fn empty(bg: Color) -> (cell: Self)
        ensures
            cell == (GridCell { ch: ' ', fg: Color::white(), bg, flags: 0 }),
    {
        GridCell {
            ch: ' ',
            fg: Color { r: F32_ONE_BITS, g: F32_ONE_BITS, b: F32_ONE_BITS, a: F32_ONE_BITS },
            bg,
            flags: 0,
        }
    }
}

/// Byte offset into the instance buffer for a given row.
/// Each cell is one cell instance (72 bytes), and each row has `cols` cells.
pub fn row_byte_offset(row: usize, cols: usize) -> (offset: u64)
    requires
        row * cols * CELL_INSTANCE_BYTES <= usize::MAX,
    ensures
        offset == row * cols * CELL_INSTANCE_BYTES,
{
    assert(row * cols <= row * cols * CELL_INSTANCE_BYTES) by (nonlinear_arith)
        requires
            row * cols * CELL_INSTANCE_BYTES <= usize::MAX,
    ;
    let cells = row * cols;
    (cells * CELL_INSTANCE_BYTES) as u64
}

} // verus!
