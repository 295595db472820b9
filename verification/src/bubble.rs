//! Conversation bubbles: the variant decides the side a bubble sits on.

use vstd::prelude::*;
use crate::direction::Horizontal;

verus! {

#[derive(Debug, Clone, Copy, Default, PartialEq, Eq, Structural)]
pub enum BubbleVariant {
    #[default]
    Incoming,
    Outgoing,
}

/// Incoming bubbles sit on the left, outgoing ones on the right.
pub fn alignment(variant: BubbleVariant) -> (r: Horizontal)
    ensures
        r == (match variant {
            BubbleVariant::Incoming => Horizontal::Left,
            BubbleVariant::Outgoing => Horizontal::Right,
        }),
{
    match variant {
        BubbleVariant::Incoming => Horizontal::Left,
        BubbleVariant::Outgoing => Horizontal::Right,
    }
}

} // verus!
