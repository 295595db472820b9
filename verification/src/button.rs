//! Looks and sizes of the library's buttons.

use vstd::prelude::*;

verus! {

/// Visual weight of a button.
#[derive(Debug, Clone, Copy, Default, PartialEq, Eq, Structural)]
pub enum ButtonVariant {
    #[default]
    Default,
    Destructive,
    Outline,
    Secondary,
    /// No fill until hovered.
    Ghosted,
}

/// Size of a button.
#[derive(Debug, Clone, Copy, Default, PartialEq, Eq, Structural)]
pub enum ButtonSize {
    #[default]
    Default,
    Small,
    Icon,
}

} // verus!
