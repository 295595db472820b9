//! Button group layout.

use vstd::prelude::*;

verus! {

#[derive(Debug, Clone, Copy, Default, PartialEq, Eq, Structural)]
pub enum ButtonGroupOrientation {
    #[default]
    Horizontal,
    Vertical,
}

} // verus!
