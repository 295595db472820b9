//! Controlled accordion: which sections are open in single and multiple
//! modes, and keyboard movement between headers.
//!
//! Section identifiers are the caller's own type. What the contracts say of
//! them goes through that type's `==`, and holds when the type's `==` obeys
//! its specification (as integers, `bool` and the library's own enums do).

use vstd::prelude::*;
use vstd::std_specs::cmp::PartialEqSpec;
use crate::keys::Key;
use crate::roving::{
    any_enabled, first_enabled, first_enabled_at, last_enabled, last_enabled_at, nearest,
    nearest_enabled,
};

verus! {

/// Open sections: at most one in single mode, any number in multiple mode.
#[derive(Debug, PartialEq, Eq)]
pub enum AccordionState<Id> {
    Single(Option<Id>),
    Multiple(Vec<Id>),
}

/// Whether two identifiers compare equal.
pub open spec fn same_id<Id: PartialEq>(a: Id, b: Id) -> bool {
    a.eq_spec(&b)
}

pub open spec fn other_id<Id: PartialEq>(id: Id) -> spec_fn(Id) -> bool {
    |other: Id| !same_id(other, id)
}

/// Whether `state` has the section `id` open.
pub open spec fn opens<Id: PartialEq>(state: AccordionState<Id>, id: Id) -> bool {
    match state {
        AccordionState::Single(open) => open matches Some(o) && same_id(o, id),
        AccordionState::Multiple(open) => exists|i: int| 0 <= i < open@.len() && same_id(#[trigger] open@[i], id),
    }
}

/// `next` lists the identifiers of `kept` in order, each a clone of it.
pub open spec fn clones_of<Id: Clone>(kept: Seq<Id>, next: Seq<Id>) -> bool {
    next.len() == kept.len() && forall|i: int| 0 <= i < kept.len() ==> cloned(kept[i], #[trigger] next[i])
}

/// The state after activating the header `id`: in single mode the open
/// section closes and any other opens; in multiple mode the section is
/// removed from or added to the open list.
pub open spec fn toggled_as<Id: PartialEq + Clone>(state: AccordionState<Id>, id: Id, r: AccordionState<Id>) -> bool {
    match state {
        AccordionState::Single(open) => if open matches Some(o) && same_id(o, id) {
            r == AccordionState::<Id>::Single(None)
        } else {
            r == AccordionState::Single(Some(id))
        },
        AccordionState::Multiple(open) => r matches AccordionState::Multiple(next) && if opens(state, id) {
            clones_of(open@.filter(other_id(id)), next@)
        } else {
            clones_of(open@, next@.drop_last()) && next@.len() == open@.len() + 1 && next@.last() == id
        },
    }
}

impl<Id: PartialEq> AccordionState<Id> {
    /// Whether the section `id` is open.
    pub fn is_open(&self, id: &Id) -> (r: bool)
        ensures
            Id::obeys_eq_spec() ==> r == opens(*self, *id),
    {
        match self {
            AccordionState::Single(open) => match open {
                Some(o) => *o == *id,
                None => false,
            },
            AccordionState::Multiple(open) => contains_id(open, id),
        }
    }
}

/// Whether `ids` holds an identifier equal to `id`.
fn contains_id<Id: PartialEq>(ids: &Vec<Id>, id: &Id) -> (r: bool)
    ensures
        Id::obeys_eq_spec() ==> r == exists|i: int| 0 <= i < ids@.len() && same_id(#[trigger] ids@[i], *id),
{
    let mut index: usize = 0;
    while index < ids.len()
        invariant
            0 <= index <= ids.len(),
            Id::obeys_eq_spec() ==> forall|i: int| 0 <= i < index ==> !same_id(#[trigger] ids@[i], *id),
        decreases ids.len() - index,
    {
        if ids[index] == *id {
            proof {
                if Id::obeys_eq_spec() {
                    assert(same_id(ids@[index as int], *id));
                }
            }
            return true;
        }
        index = index + 1;
    }
    false
}

impl<Id: PartialEq + Clone> AccordionState<Id> {
    /// The state after activating the header `id`.
    pub fn toggled(&self, id: Id) -> (r: AccordionState<Id>)
        ensures
            Id::obeys_eq_spec() ==> toggled_as(*self, id, r),
    {
        match self {
            AccordionState::Single(open) => {
                let same = match open {
                    Some(o) => *o == id,
                    None => false,
                };
                if same {
                    AccordionState::Single(None)
                } else {
                    AccordionState::Single(Some(id))
                }
            },
            AccordionState::Multiple(open) => {
                if self.is_open(&id) {
                    AccordionState::Multiple(without_id(open, &id))
                } else {
                    let mut next = copy_ids(open);
                    let ghost copied = next@;
                    next.push(id);
                    assert(next@.drop_last() =~= copied);
                    AccordionState::Multiple(next)
                }
            },
        }
    }

    /// Applies a toggle and reports whether the open sections changed; a
    /// navigation event changes nothing.
    pub fn apply(&mut self, event: &AccordionEvent<Id>) -> (changed: bool)
        ensures
            match *event {
                AccordionEvent::Toggle(id) => Id::obeys_eq_spec() ==> exists|c: Id, next: AccordionState<Id>|
                    cloned(id, c) && toggled_as(*old(self), c, next) && if same_state(*old(self), next) {
                    !changed && *final(self) == *old(self)
                } else {
                    changed && *final(self) == next
                },
                AccordionEvent::Navigate { .. } => !changed && *final(self) == *old(self),
            },
    {
        match event {
            AccordionEvent::Toggle(id) => {
                let c = id.clone();
                let ghost c_view = c;
                let next = self.toggled(c);
                if states_equal(self, &next) {
                    false
                } else {
                    *self = next;
                    true
                }
            },
            AccordionEvent::Navigate { .. } => false,
        }
    }
}

/// Whether two states have the same mode and equal open identifiers, in order.
pub open spec fn same_state<Id: PartialEq>(a: AccordionState<Id>, b: AccordionState<Id>) -> bool {
    match (a, b) {
        (AccordionState::Single(x), AccordionState::Single(y)) => match (x, y) {
            (Some(p), Some(q)) => same_id(p, q),
            (None, None) => true,
            _ => false,
        },
        (AccordionState::Multiple(x), AccordionState::Multiple(y)) => x@.len() == y@.len() && forall|i: int|
            0 <= i < x@.len() ==> same_id(#[trigger] x@[i], y@[i]),
        _ => false,
    }
}

/// Whether two states compare equal through the identifiers' `==`.
fn states_equal<Id: PartialEq>(a: &AccordionState<Id>, b: &AccordionState<Id>) -> (r: bool)
    ensures
        Id::obeys_eq_spec() ==> r == same_state(*a, *b),
{
    match (a, b) {
        (AccordionState::Single(x), AccordionState::Single(y)) => match (x, y) {
            (Some(p), Some(q)) => *p == *q,
            (None, None) => true,
            _ => false,
        },
        (AccordionState::Multiple(x), AccordionState::Multiple(y)) => {
            if x.len() != y.len() {
                return false;
            }
            let mut index: usize = 0;
            while index < x.len()
                invariant
                    *a == AccordionState::Multiple(*x),
                    *b == AccordionState::Multiple(*y),
                    x.len() == y.len(),
                    0 <= index <= x.len(),
                    Id::obeys_eq_spec() ==> forall|i: int| 0 <= i < index ==> same_id(#[trigger] x@[i], y@[i]),
                decreases x.len() - index,
            {
                if !(x[index] == y[index]) {
                    proof {
                        if Id::obeys_eq_spec() {
                            assert(!same_id(x@[index as int], y@[index as int]));
                        }
                    }
                    return false;
                }
                index = index + 1;
            }
            true
        },
        _ => false,
    }
}

/// Clones of `ids`, in order.
fn copy_ids<Id: Clone>(ids: &Vec<Id>) -> (r: Vec<Id>)
    ensures
        clones_of(ids@, r@),
{
    let mut copy: Vec<Id> = Vec::new();
    let mut index: usize = 0;
    while index < ids.len()
        invariant
            0 <= index <= ids.len(),
            clones_of(ids@.take(index as int), copy@),
        decreases ids.len() - index,
    {
        let c = ids[index].clone();
        copy.push(c);
        index = index + 1;
    }
    assert(ids@.take(ids@.len() as int) =~= ids@);
    copy
}

/// Clones of the identifiers of `ids` that differ from `id`, in order.
fn without_id<Id: PartialEq + Clone>(ids: &Vec<Id>, id: &Id) -> (r: Vec<Id>)
    ensures
        Id::obeys_eq_spec() ==> clones_of(ids@.filter(other_id(*id)), r@),
{
    let ghost keep = other_id(*id);
    let mut kept: Vec<Id> = Vec::new();
    let mut index: usize = 0;
    while index < ids.len()
        invariant
            0 <= index <= ids.len(),
            keep == other_id(*id),
            Id::obeys_eq_spec() ==> clones_of(ids@.take(index as int).filter(keep), kept@),
        decreases ids.len() - index,
    {
        proof {
            assert(ids@.take(index as int + 1).drop_last() =~= ids@.take(index as int));
            reveal(Seq::filter);
        }
        if !(ids[index] == *id) {
            let c = ids[index].clone();
            kept.push(c);
        }
        index = index + 1;
    }
    assert(ids@.take(ids@.len() as int) =~= ids@);
    kept
}

/// A header activation, or a request to move focus to another header (its
/// focus key included).
#[derive(Debug, Clone, PartialEq, Eq)]
pub enum AccordionEvent<Id> {
    Toggle(Id),
    Navigate { target: Id, focus_id: String },
}

impl<Id> AccordionEvent<Id> {
    /// Focus key of the header a navigation event moves to.
    pub fn focus_id(&self) -> (r: Option<&String>)
        ensures
            match *self {
                AccordionEvent::Toggle(_) => r is None,
                AccordionEvent::Navigate { focus_id, .. } => r == Some(&focus_id),
            },
    {
        match self {
            AccordionEvent::Toggle(_) => None,
            AccordionEvent::Navigate { focus_id, .. } => Some(focus_id),
        }
    }
}

/// Keys of the reducer for callers that do their own disabled handling.
#[derive(Debug, Clone, Copy, PartialEq, Eq, Structural)]
pub enum AccordionKey {
    ArrowUp,
    ArrowDown,
    Home,
    End,
}

/// The header a key moves to among `count` headers, wrapping around and
/// knowing nothing of disabled headers.
pub fn header_target(current: usize, count: usize, key: AccordionKey) -> (r: Option<usize>)
    ensures
        r == if count == 0 || current >= count {
            None::<usize>
        } else {
            Some(
                match key {
                    AccordionKey::ArrowUp => if current == 0 {
                        (count - 1) as usize
                    } else {
                        (current - 1) as usize
                    },
                    AccordionKey::ArrowDown => if current + 1 == count {
                        0usize
                    } else {
                        (current + 1) as usize
                    },
                    AccordionKey::Home => 0usize,
                    AccordionKey::End => (count - 1) as usize,
                },
            )
        },
{
    if count == 0 || current >= count {
        return None;
    }
    Some(
        match key {
            AccordionKey::ArrowUp => if current == 0 {
                count - 1
            } else {
                current - 1
            },
            AccordionKey::ArrowDown => if current + 1 == count {
                0
            } else {
                current + 1
            },
            AccordionKey::Home => 0,
            AccordionKey::End => count - 1,
        },
    )
}

/// The enabled header that ArrowUp, ArrowDown, Home or End moves to, wrapping
/// around; nothing for other keys, an unknown current header, or no enabled
/// header.
pub fn navigation_target(current: usize, enabled: &[bool], key: &Key) -> (r: Option<usize>)
    ensures
        if current >= enabled@.len() || !any_enabled(enabled@) {
            r is None
        } else {
            match *key {
                Key::Home => r matches Some(t) && first_enabled_at(enabled@, t as int),
                Key::End => r matches Some(t) && last_enabled_at(enabled@, t as int),
                Key::ArrowUp => r matches Some(t) && nearest_enabled(enabled@, current as int, false, t as int),
                Key::ArrowDown => r matches Some(t) && nearest_enabled(enabled@, current as int, true, t as int),
                _ => r is None,
            }
        },
{
    if current >= enabled.len() {
        return None;
    }
    if first_enabled(enabled).is_none() {
        return None;
    }
    match key {
        Key::Home => first_enabled(enabled),
        Key::End => last_enabled(enabled),
        Key::ArrowUp => nearest(enabled, current, false),
        Key::ArrowDown => nearest(enabled, current, true),
        _ => None,
    }
}


/// In single mode, activating a closed section opens it and activating it
/// again closes it, for identifiers that compare equal to themselves.
pub proof fn lemma_single_toggle_twice<Id: PartialEq + Clone>(
    id: Id,
    opened: AccordionState<Id>,
    closed: AccordionState<Id>,
)
    requires
        same_id(id, id),
        toggled_as(AccordionState::Single(None), id, opened),
        toggled_as(opened, id, closed),
    ensures
        opened == AccordionState::Single(Some(id)),
        closed == AccordionState::<Id>::Single(None),
{
}

/// In single mode at most one section is open, and after activating a
/// header exactly that section is open unless it was open already.
pub proof fn lemma_single_toggle_opens_target<Id: PartialEq + Clone>(
    open: Option<Id>,
    id: Id,
    r: AccordionState<Id>,
)
    requires
        same_id(id, id),
        toggled_as(AccordionState::Single(open), id, r),
    ensures
        opens(r, id) == !opens(AccordionState::Single(open), id),
{
}


/// `==` on the identifiers behaves as an equivalence, and a clone compares
/// equal to what it was cloned from.
pub open spec fn ids_behave<Id: PartialEq + Clone>() -> bool {
    &&& forall|a: Id| #[trigger] same_id(a, a)
    &&& forall|a: Id, b: Id| #[trigger] same_id(a, b) ==> same_id(b, a)
    &&& forall|a: Id, b: Id, c: Id| #[trigger] same_id(a, b) && #[trigger] same_id(b, c) ==> same_id(a, c)
    &&& forall|a: Id, b: Id| #[trigger] cloned(a, b) ==> same_id(a, b)
}

/// In multiple mode, activating a header flips whether its section is open
/// and leaves every other section as it was; a section that opens is listed
/// last.
pub proof fn lemma_multiple_toggle_flips<Id: PartialEq + Clone>(
    state: AccordionState<Id>,
    id: Id,
    r: AccordionState<Id>,
)
    requires
        ids_behave::<Id>(),
        state is Multiple,
        toggled_as(state, id, r),
    ensures
        r is Multiple,
        opens(r, id) == !opens(state, id),
        forall|x: Id| !same_id(x, id) ==> (opens(r, x) <==> opens(state, x)),
        !opens(state, id) ==> (r matches AccordionState::Multiple(next) && next@.last() == id),
{
    let open = state->Multiple_0@;
    let next = r->Multiple_0@;
    if opens(state, id) {
        let kept = open.filter(other_id(id));
        assert forall|k: int| 0 <= k < kept.len() implies !same_id(#[trigger] kept[k], id) by {
            open.lemma_filter_pred(other_id(id), k);
        }
        assert(!opens(r, id)) by {
            if opens(r, id) {
                let i = choose|i: int| 0 <= i < next.len() && same_id(#[trigger] next[i], id);
                assert(cloned(kept[i], next[i]));
                assert(same_id(kept[i], next[i]));
                assert(!same_id(kept[i], id));
            }
        }
        assert forall|x: Id| !same_id(x, id) implies (opens(r, x) <==> opens(state, x)) by {
            if opens(r, x) {
                let i = choose|i: int| 0 <= i < next.len() && same_id(#[trigger] next[i], x);
                assert(cloned(kept[i], next[i]));
                assert(same_id(kept[i], next[i]));
                assert(same_id(kept[i], x));
                assert(kept.contains(kept[i]));
                open.lemma_filter_contains_rev(other_id(id), kept[i]);
                let j = choose|j: int| 0 <= j < open.len() && open[j] == kept[i];
                assert(same_id(open[j], x));
            }
            if opens(state, x) {
                let j = choose|j: int| 0 <= j < open.len() && same_id(#[trigger] open[j], x);
                assert(!same_id(open[j], id)) by {
                    if same_id(open[j], id) {
                        assert(same_id(x, open[j]));
                        assert(same_id(x, id));
                    }
                }
                assert(other_id(id)(open[j]));
                open.lemma_filter_contains(other_id(id), j);
                let i = choose|i: int| 0 <= i < kept.len() && kept[i] == open[j];
                assert(cloned(kept[i], next[i]));
                assert(same_id(kept[i], next[i]));
                assert(same_id(next[i], kept[i]));
                assert(same_id(next[i], x));
            }
        }
    } else {
        let n = next.len() - 1;
        assert(same_id(id, id));
        assert(next[n] == id);
        assert(same_id(next[n], id));
        assert forall|x: Id| !same_id(x, id) implies (opens(r, x) <==> opens(state, x)) by {
            if opens(r, x) {
                let i = choose|i: int| 0 <= i < next.len() && same_id(#[trigger] next[i], x);
                if i == n {
                    assert(same_id(x, id));
                } else {
                    assert(next.drop_last()[i] == next[i]);
                    assert(cloned(open[i], next[i]));
                    assert(same_id(open[i], next[i]));
                    assert(same_id(open[i], x));
                }
            }
            if opens(state, x) {
                let j = choose|j: int| 0 <= j < open.len() && same_id(#[trigger] open[j], x);
                assert(next.drop_last()[j] == next[j]);
                assert(cloned(open[j], next[j]));
                assert(same_id(open[j], next[j]));
                assert(same_id(next[j], open[j]));
                assert(same_id(next[j], x));
            }
        }
    }
}

} // verus!
