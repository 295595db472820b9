//! Keyboard input as the interaction reducers see it.

use vstd::prelude::*;

verus! {

/// A pressed key. Named keys carry their meaning; `Character` carries the
/// text a printable key produced; `Other` stands for every key the reducers
/// ignore.
#[derive(Debug, Clone, PartialEq, Eq)]
pub enum Key {
    ArrowUp,
    ArrowDown,
    ArrowLeft,
    ArrowRight,
    Home,
    End,
    PageUp,
    PageDown,
    Escape,
    Enter,
    Tab,
    Space,
    Character(String),
    Other,
}

} // verus!
