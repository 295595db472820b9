//! What the floating popovers of the library report when they close.

use vstd::prelude::*;

verus! {

/// Why an open popover closed.
#[derive(Debug, Clone, Copy, PartialEq, Eq, Structural)]
pub enum DismissReason {
    /// Escape was pressed.
    Escape,
    /// A press landed outside the popover.
    Outside,
    /// The trigger was used, or a completed choice closed it.
    Trigger,
}

} // verus!
