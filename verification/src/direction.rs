//! Reading direction and the horizontal edges it decides.

use vstd::prelude::*;

verus! {

/// Reading direction of the surrounding layout.
#[derive(Debug, Clone, Copy, PartialEq, Eq, Structural)]
pub enum Direction {
    LeftToRight,
    RightToLeft,
}

/// A horizontal placement on screen.
#[derive(Debug, Clone, Copy, PartialEq, Eq, Structural)]
pub enum Horizontal {
    Left,
    Center,
    Right,
}

impl Direction {
    pub open spec fn start_edge(self) -> Horizontal {
        if self == Direction::LeftToRight {
            Horizontal::Left
        } else {
            Horizontal::Right
        }
    }

    pub open spec fn end_edge(self) -> Horizontal {
        if self == Direction::LeftToRight {
            Horizontal::Right
        } else {
            Horizontal::Left
        }
    }

    /// The edge where reading starts: left in left-to-right layouts, right
    /// in right-to-left ones.
    pub fn start(self) -> (r: Horizontal)
        ensures
            r == self.start_edge(),
    {
        match self {
            Direction::LeftToRight => Horizontal::Left,
            Direction::RightToLeft => Horizontal::Right,
        }
    }

    /// The edge where reading ends: the other side from `start`.
    pub fn end(self) -> (r: Horizontal)
        ensures
            r == self.end_edge(),
    {
        match self {
            Direction::LeftToRight => Horizontal::Right,
            Direction::RightToLeft => Horizontal::Left,
        }
    }
}

} // verus!
