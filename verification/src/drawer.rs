//! Drawer events: why a drawer closed, how modal events become drawer
//! events, where focus goes after each, and whether the drawer stays open.
//! A drag offset is carried as given, never read.

use vstd::prelude::*;
use crate::modal::{DismissReason, FocusScope, ModalEvent};

verus! {

#[derive(Debug, Clone, Copy, PartialEq, Eq, Structural)]
pub enum DrawerDismissReason {
    Backdrop,
    Escape,
    Drag,
}

/// A focus move, a drag to an offset, a snap-back request, or a dismissal.
#[derive(Debug, Clone, PartialEq, Eq)]
pub enum DrawerEvent<O> {
    Dismiss(DrawerDismissReason),
    Focus(String),
    Dragged(O),
    SnapBack { animate: bool },
}

impl<O> DrawerEvent<O> {
    /// The drawer event of a modal event: the same dismissal reason, or the
    /// same focus move.
    pub fn from_modal(event: ModalEvent) -> (r: DrawerEvent<O>)
        ensures
            r == match event {
                ModalEvent::Dismiss(DismissReason::Backdrop) => DrawerEvent::<O>::Dismiss(DrawerDismissReason::Backdrop),
                ModalEvent::Dismiss(DismissReason::Escape) => DrawerEvent::<O>::Dismiss(DrawerDismissReason::Escape),
                ModalEvent::Focus(key) => DrawerEvent::<O>::Focus(key),
            },
    {
        match event {
            ModalEvent::Dismiss(DismissReason::Backdrop) => DrawerEvent::Dismiss(DrawerDismissReason::Backdrop),
            ModalEvent::Dismiss(DismissReason::Escape) => DrawerEvent::Dismiss(DrawerDismissReason::Escape),
            ModalEvent::Focus(key) => DrawerEvent::Focus(key),
        }
    }

    /// Where focus goes: the target of a focus move, the control that opened
    /// the drawer after every dismissal, nowhere after a drag or snap.
    pub fn focus_target<'a>(&'a self, scope: &'a FocusScope) -> (r: Option<&'a String>)
        ensures
            match *self {
                DrawerEvent::Focus(key) => r == Some(&key),
                DrawerEvent::Dismiss(_) => r matches Some(key) && key@ == scope.restore_key(),
                _ => r is None,
            },
    {
        match self {
            DrawerEvent::Focus(key) => Some(key),
            DrawerEvent::Dismiss(_) => Some(scope.restore()),
            _ => None,
        }
    }

    /// Whether the drawer is open after this event: a dismissal closes it,
    /// anything else keeps it as it was.
    pub fn open_after(&self, open: bool) -> (r: bool)
        ensures
            r == (open && !(*self is Dismiss)),
    {
        match self {
            DrawerEvent::Dismiss(_) => false,
            _ => open,
        }
    }

    /// Whether this event returns the drawer to its resting offset: a
    /// dismissal or a snap back.
    pub fn resets_offset(&self) -> (r: bool)
        ensures
            r == (*self is Dismiss || *self is SnapBack),
    {
        match self {
            DrawerEvent::Dismiss(_) | DrawerEvent::SnapBack { .. } => true,
            _ => false,
        }
    }
}

} // verus!
