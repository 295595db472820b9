//! Modal decisions: which casual gestures dismiss it, the wrapping Tab order
//! of its focusable controls, and where focus goes when it opens and closes.

use vstd::prelude::*;

verus! {

/// Why a modal asked to close.
#[derive(Debug, Clone, Copy, PartialEq, Eq, Structural)]
pub enum DismissReason {
    Backdrop,
    Escape,
}

/// Which casual dismissal gestures a modal accepts.
#[derive(Debug, Clone, Copy, PartialEq, Eq, Structural)]
pub struct DismissRules {
    pub backdrop: bool,
    pub escape: bool,
}

impl DismissRules {
    /// The rules of a dialog: it closes on a backdrop press and on Escape.
    pub fn dialog() -> (r: DismissRules)
        ensures
            r == (DismissRules { backdrop: true, escape: true }),
    {
        DismissRules { backdrop: true, escape: true }
    }

    /// The rules of an alert dialog: it ignores the backdrop and closes on
    /// Escape.
    pub fn alert_dialog() -> (r: DismissRules)
        ensures
            r == (DismissRules { backdrop: false, escape: true }),
    {
        DismissRules { backdrop: false, escape: true }
    }

    /// Whether the gesture `reason` may close the modal.
    pub fn allows(self, reason: DismissReason) -> (r: bool)
        ensures
            r == match reason {
                DismissReason::Backdrop => self.backdrop,
                DismissReason::Escape => self.escape,
            },
    {
        match reason {
            DismissReason::Backdrop => self.backdrop,
            DismissReason::Escape => self.escape,
        }
    }
}

/// A dismissal request, or a move of focus to the control with this key.
#[derive(Debug, Clone, PartialEq, Eq)]
pub enum ModalEvent {
    Dismiss(DismissReason),
    Focus(String),
}

impl ModalEvent {
    /// Key of the control a focus event moves to.
    pub fn focus_target(&self) -> (r: Option<&String>)
        ensures
            match *self {
                ModalEvent::Focus(key) => r == Some(&key),
                ModalEvent::Dismiss(_) => r is None,
            },
    {
        match self {
            ModalEvent::Focus(key) => Some(key),
            ModalEvent::Dismiss(_) => None,
        }
    }
}

/// Tab order of a modal's controls, never empty and without repeats, and the
/// control that regains focus after it closes.
#[derive(Debug, PartialEq, Eq)]
pub struct FocusScope {
    order: Vec<String>,
    restore: String,
}

pub open spec fn distinct_keys(keys: Seq<Seq<char>>) -> bool {
    forall|i: int, j: int| 0 <= i < j < keys.len() ==> keys[i] != keys[j]
}

pub open spec fn key_views(keys: Seq<String>) -> Seq<Seq<char>> {
    keys.map_values(|k: String| k@)
}

impl FocusScope {
    #[verifier::type_invariant]
    spec fn inv(self) -> bool {
        self.order@.len() > 0 && distinct_keys(key_views(self.order@))
    }

    /// Keys of the controls, in Tab order.
    pub closed spec fn keys(self) -> Seq<Seq<char>> {
        key_views(self.order@)
    }

    pub closed spec fn restore_key(self) -> Seq<char> {
        self.restore@
    }

    /// A scope holding only `first`.
    pub fn new(first: String, restore: String) -> (r: FocusScope)
        ensures
            r.keys() == seq![first@],
            r.restore_key() == restore@,
    {
        let mut order: Vec<String> = Vec::new();
        order.push(first);
        let r = FocusScope { order, restore };
        assert(r.keys() =~= seq![r.order@[0]@]);
        r
    }

    /// The same scope with `id` appended, unless it is already there.
    pub fn push(self, id: String) -> (r: FocusScope)
        ensures
            r.keys() == if self.keys().contains(id@) {
                self.keys()
            } else {
                self.keys().push(id@)
            },
            r.restore_key() == self.restore_key(),
    {
        proof {
            use_type_invariant(&self);
        }
        let mut index: usize = 0;
        while index < self.order.len()
            invariant
                0 <= index <= self.order.len(),
                forall|i: int| 0 <= i < index ==> self.order@[i]@ != id@,
            decreases self.order.len() - index,
        {
            if self.order[index] == id {
                assert(key_views(self.order@)[index as int] == id@);
                return self;
            }
            index = index + 1;
        }
        assert(!key_views(self.order@).contains(id@)) by {
            if key_views(self.order@).contains(id@) {
                let i = choose|i: int| 0 <= i < key_views(self.order@).len() && key_views(self.order@)[i] == id@;
                assert(self.order@[i]@ == id@);
            }
        }
        let FocusScope { order, restore } = self;
        let mut order = order;
        let ghost before = order@;
        order.push(id);
        assert(key_views(order@) =~= key_views(before).push(id@));
        FocusScope { order, restore }
    }

    /// Key of the first control, focused when the modal opens.
    pub fn first(&self) -> (r: &String)
        ensures
            r@ == self.keys()[0],
            self.keys().len() > 0,
    {
        proof {
            use_type_invariant(self);
        }
        &self.order[0]
    }

    /// Key of the control focused again after the modal closes.
    pub fn restore(&self) -> (r: &String)
        ensures
            r@ == self.restore_key(),
    {
        &self.restore
    }

    /// Keys of the controls, in Tab order.
    pub fn order(&self) -> (r: &[String])
        ensures
            key_views(r@) == self.keys(),
            r@.len() > 0,
            distinct_keys(key_views(r@)),
    {
        proof {
            use_type_invariant(self);
        }
        self.order.as_slice()
    }

    /// The control to focus after the caller changes visibility from
    /// `was_open` to `open`: the first control on opening, the restore
    /// control on closing, nothing otherwise.
    pub fn transition_target(&self, was_open: bool, open: bool) -> (r: Option<&String>)
        ensures
            match r {
                Some(key) => if !was_open && open {
                    key@ == self.keys()[0]
                } else {
                    was_open && !open && key@ == self.restore_key()
                },
                None => was_open == open,
            },
    {
        if !was_open && open {
            Some(self.first())
        } else if was_open && !open {
            Some(self.restore())
        } else {
            None
        }
    }
}

impl Clone for FocusScope {
    fn clone(&self) -> (r: FocusScope)
        ensures
            r.keys() == self.keys(),
            r.restore_key() == self.restore_key(),
    {
        proof {
            use_type_invariant(self);
        }
        let mut order: Vec<String> = Vec::new();
        let mut index: usize = 0;
        while index < self.order.len()
            invariant
                0 <= index <= self.order.len(),
                key_views(order@) == key_views(self.order@).take(index as int),
            decreases self.order.len() - index,
        {
            let ghost before = order@;
            order.push(self.order[index].clone());
            assert(key_views(order@) =~= key_views(before).push(self.order@[index as int]@));
            assert(key_views(self.order@).take(index as int + 1) =~= key_views(self.order@).take(index as int).push(
                self.order@[index as int]@,
            ));
            index = index + 1;
        }
        assert(key_views(self.order@).take(self.order@.len() as int) =~= key_views(self.order@));
        FocusScope { order, restore: self.restore.clone() }
    }
}

/// One Tab (or Shift+Tab when `backwards`) from the known control
/// `current` among `count`, wrapping around.
pub open spec fn tab_step(current: int, count: int, backwards: bool) -> int {
    if backwards {
        if current == 0 {
            count - 1
        } else {
            current - 1
        }
    } else if current + 1 == count {
        0
    } else {
        current + 1
    }
}

/// The control focused after one Tab or Shift+Tab; an unknown current focus
/// starts from the first control (or the last, backwards).
pub open spec fn focus_after(current: Option<usize>, count: int, backwards: bool) -> int {
    match current {
        Some(i) => if i < count {
            tab_step(i as int, count, backwards)
        } else if backwards {
            count - 1
        } else {
            0
        },
        None => if backwards {
            count - 1
        } else {
            0
        },
    }
}

/// Index focused by Tab (or Shift+Tab when `backwards`) among `count`
/// controls, wrapping around; an unknown current focus starts from the first
/// control (or the last, backwards).
pub fn next_focus(current: Option<usize>, count: usize, backwards: bool) -> (r: usize)
    requires
        count > 0,
    ensures
        r < count,
        r == focus_after(current, count as int, backwards),
{
    let known = match current {
        Some(i) => if i < count {
            Some(i)
        } else {
            None
        },
        None => None,
    };
    match known {
        Some(i) => if backwards {
            if i == 0 {
                count - 1
            } else {
                i - 1
            }
        } else if i + 1 == count {
            0
        } else {
            i + 1
        },
        None => if backwards {
            count - 1
        } else {
            0
        },
    }
}


/// Tab then Shift+Tab returns to the same control, and so does Shift+Tab
/// then Tab; either always lands on one of the controls.
pub proof fn lemma_tab_steps_invert(current: usize, count: usize)
    requires
        current < count,
    ensures
        focus_after(Some(focus_after(Some(current), count as int, false) as usize), count as int, true) == current,
        focus_after(Some(focus_after(Some(current), count as int, true) as usize), count as int, false) == current,
        0 <= focus_after(Some(current), count as int, false) < count,
        0 <= focus_after(Some(current), count as int, true) < count,
{
}

} // verus!
