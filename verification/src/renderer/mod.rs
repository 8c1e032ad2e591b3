//! Renderer-side state that does not touch the GPU: grid cells, damage
//! tracking, cursor state and image placement ordering.

pub mod grid_renderer;
pub mod damage;
pub mod cursor;
pub mod coretext_rasterizer;
pub mod image_renderer;
pub mod iced_layer;
