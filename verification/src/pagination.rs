//! Fully controlled pagination items.

use vstd::prelude::*;
use crate::button::ButtonVariant;

verus! {

/// One pagination control. A direction button with no target is disabled.
#[derive(Debug, Clone, Copy, PartialEq, Eq, Structural)]
pub enum PaginationItem {
    Previous(Option<usize>),
    Page { number: usize, current: bool },
    Ellipsis,
    Next(Option<usize>),
}

/// Look of a page button: the current page is outlined, the others ghosted (no fill until hovered).
pub fn page_variant(current: bool) -> (r: ButtonVariant)
    ensures
        r == (if current {
            ButtonVariant::Outline
        } else {
            ButtonVariant::Ghosted
        }),
{
    if current {
        ButtonVariant::Outline
    } else {
        ButtonVariant::Ghosted
    }
}

} // verus!
