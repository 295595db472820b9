//! Badge looks.

use vstd::prelude::*;

verus! {

#[derive(Debug, Clone, Copy, Default, PartialEq, Eq, Structural)]
pub enum BadgeVariant {
    #[default]
    Default,
    Secondary,
    Destructive,
    Outline,
}

} // verus!
