//! The bitmap a glyph rasterizer produces.

use vstd::prelude::*;

verus! {

/// A rasterized glyph bitmap with per-channel subpixel coverage.
pub struct RasterizedGlyph {
    /// RGBA pixel data (4 bytes per pixel, premultiplied alpha).
    pub data: Vec<u8>,
    pub width: u32,
    pub height: u32,
}

} // verus!
