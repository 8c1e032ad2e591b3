//! Mouse cursor shapes used while interacting with pane dividers.

use vstd::prelude::*;
use crate::pane::SplitDirection;

verus! {

/// Cursor types needed for pane interaction.
#[derive(Debug, Clone, Copy, PartialEq, Eq, Structural)]
pub enum CursorType {
    Default,
    EwResize,
    NsResize,
}

/// The resize cursor shown over a divider of a split in `direction`:
/// left-right arrows for side-by-side panes, up-down arrows for stacked
/// ones.
pub fn resize_cursor(direction: SplitDirection) -> (c: CursorType)
    ensures
        c == (match direction {
            SplitDirection::Vertical => CursorType::EwResize,
            SplitDirection::Horizontal => CursorType::NsResize,
        }),
{
    match direction {
        SplitDirection::Vertical => CursorType::EwResize,
        SplitDirection::Horizontal => CursorType::NsResize,
    }
}

} // verus!
