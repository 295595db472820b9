//! High-friction confirmation dialog: a safe cancel, a confirming action, and
//! focus trapped between them.

use vstd::prelude::*;
use crate::modal::FocusScope;

verus! {

/// Keys of the least destructive control, the action, and the trigger that
/// regains focus afterwards.
#[derive(Debug, Clone, PartialEq, Eq)]
pub struct AlertDialogFocus {
    cancel: String,
    action: String,
    restore: String,
}

impl AlertDialogFocus {
    pub closed spec fn cancel_key(self) -> Seq<char> {
        self.cancel@
    }

    pub closed spec fn action_key(self) -> Seq<char> {
        self.action@
    }

    pub closed spec fn restore_key(self) -> Seq<char> {
        self.restore@
    }

    pub fn new(cancel: String, action: String, restore: String) -> (r: AlertDialogFocus)
        ensures
            r.cancel_key() == cancel@,
            r.action_key() == action@,
            r.restore_key() == restore@,
    {
        AlertDialogFocus { cancel, action, restore }
    }

    pub fn cancel(&self) -> (r: &String)
        ensures
            r@ == self.cancel_key(),
    {
        &self.cancel
    }

    pub fn action(&self) -> (r: &String)
        ensures
            r@ == self.action_key(),
    {
        &self.action
    }

    pub fn restore(&self) -> (r: &String)
        ensures
            r@ == self.restore_key(),
    {
        &self.restore
    }

    /// The focus scope of the dialog: cancel first, then the action (unless
    /// it shares the cancel key), restoring the trigger.
    pub fn scope(&self) -> (r: FocusScope)
        ensures
            r.keys() == if self.action_key() == self.cancel_key() {
                seq![self.cancel_key()]
            } else {
                seq![self.cancel_key(), self.action_key()]
            },
            r.restore_key() == self.restore_key(),
    {
        let scope = FocusScope::new(self.cancel.clone(), self.restore.clone()).push(self.action.clone());
        assert(seq![self.cancel_key()].contains(self.action_key()) <==> self.action_key() == self.cancel_key()) by {
            assert(seq![self.cancel_key()][0] == self.cancel_key());
            if seq![self.cancel_key()].contains(self.action_key()) {
                assert(seq![self.cancel_key()][0] == self.action_key());
            }
        }
        assert(seq![self.cancel_key()].push(self.action_key()) =~= seq![self.cancel_key(), self.action_key()]);
        scope
    }
}

/// Why an alert dialog took its safe outcome.
#[derive(Debug, Clone, Copy, PartialEq, Eq, Structural)]
pub enum AlertDialogCancel {
    Button,
    Escape,
    Backdrop,
}

/// A safe cancellation, the confirmed action, or a focus move within the
/// dialog (to the control with this key).
#[derive(Debug, Clone, PartialEq, Eq)]
pub enum AlertDialogEvent {
    Cancel(AlertDialogCancel),
    Action,
    Focus(String),
}

impl AlertDialogEvent {
    /// Key of the control a focus event moves to.
    pub fn focus_target(&self) -> (r: Option<&String>)
        ensures
            match *self {
                AlertDialogEvent::Focus(key) => r == Some(&key),
                _ => r is None,
            },
    {
        match self {
            AlertDialogEvent::Focus(key) => Some(key),
            _ => None,
        }
    }
}

/// Look of the confirming action.
#[derive(Debug, Clone, Copy, Default, PartialEq, Eq, Structural)]
pub enum AlertDialogActionVariant {
    #[default]
    Default,
    Destructive,
}

/// Visibility after an event: both outcomes close the dialog; focus moves
/// keep it as it was.
pub fn next_open(open: bool, event: &AlertDialogEvent) -> (r: bool)
    ensures
        r == match *event {
            AlertDialogEvent::Focus(_) => open,
            _ => false,
        },
{
    match event {
        AlertDialogEvent::Cancel(_) | AlertDialogEvent::Action => false,
        AlertDialogEvent::Focus(_) => open,
    }
}

} // verus!
