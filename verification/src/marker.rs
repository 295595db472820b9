//! Conversation marker looks.

use vstd::prelude::*;

verus! {

#[derive(Debug, Clone, Copy, Default, PartialEq, Eq, Structural)]
pub enum MarkerVariant {
    #[default]
    Default,
    Border,
    Separator,
}

} // verus!
