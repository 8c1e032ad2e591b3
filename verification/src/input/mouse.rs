//! Phases of a mouse-drag selection.

use vstd::prelude::*;

verus! {

/// Selection drag state machine.
#[derive(Debug, Clone, Copy, PartialEq, Eq, Structural)]
pub enum DragPhase {
    /// No mouse button held.
    Idle,
    /// Mouse pressed but not yet moved beyond threshold — not a selection yet.
    Pending,
    /// Mouse moved beyond threshold — active drag selection in progress.
    Active,
}

} // verus!
