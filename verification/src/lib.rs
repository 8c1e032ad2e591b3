//! Verified core of a GPU terminal emulator: key encoding, selection,
//! link detection, damage tracking, cursor state and process-name helpers.

pub mod text;
pub mod clock;
pub mod input;
pub mod pane;
pub mod link;
pub mod markdown_preview;
pub mod renderer;
pub mod platform;
pub mod pty;
