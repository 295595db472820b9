//! Dialog text and action placement, following the reading direction.

use vstd::prelude::*;
use crate::direction::{Direction, Horizontal};

verus! {

/// Header text alignment; Start follows the reading direction.
#[derive(Debug, Clone, Copy, Default, PartialEq, Eq, Structural)]
pub enum DialogAlignment {
    #[default]
    Start,
    Center,
}

impl DialogAlignment {
    /// Where the header text sits in a layout read in `direction`.
    pub fn horizontal(self, direction: Direction) -> (r: Horizontal)
        ensures
            r == (match self {
                DialogAlignment::Start => direction.start_edge(),
                DialogAlignment::Center => Horizontal::Center,
            }),
    {
        match self {
            DialogAlignment::Start => direction.start(),
            DialogAlignment::Center => Horizontal::Center,
        }
    }
}

/// Placement of the action group; Start and End follow the reading direction.
#[derive(Debug, Clone, Copy, Default, PartialEq, Eq, Structural)]
pub enum DialogActionAlignment {
    Start,
    Center,
    #[default]
    End,
}

impl DialogActionAlignment {
    /// Where the actions sit in a layout read in `direction`.
    pub fn horizontal(self, direction: Direction) -> (r: Horizontal)
        ensures
            r == (match self {
                DialogActionAlignment::Start => direction.start_edge(),
                DialogActionAlignment::Center => Horizontal::Center,
                DialogActionAlignment::End => direction.end_edge(),
            }),
    {
        match self {
            DialogActionAlignment::Start => direction.start(),
            DialogActionAlignment::Center => Horizontal::Center,
            DialogActionAlignment::End => direction.end(),
        }
    }
}

} // verus!
