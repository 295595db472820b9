//! Navigation menu decisions: roving focus over top-level routes and
//! disclosures, opening and closing disclosure content, and the active route.

use vstd::prelude::*;
use crate::direction::Direction;
use crate::keys::Key;
use crate::roving::{
    any_enabled, first_enabled, first_enabled_at, last_enabled, last_enabled_at, nearest,
    nearest_enabled,
};
use crate::text::{decimal, push_decimal};

verus! {

#[derive(Debug, Clone, Copy, Default, PartialEq, Eq, Structural)]
pub enum NavigationMenuOrientation {
    #[default]
    Horizontal,
    Vertical,
}

/// Caller-owned navigation, disclosure and active-route state.
#[derive(Debug, Clone, Default, PartialEq, Eq)]
pub struct NavigationMenuState {
    pub focused: Option<usize>,
    pub open: Option<usize>,
    pub active: Option<String>,
}

/// What the reducer reads of one top-level item.
#[derive(Debug, Clone, PartialEq, Eq)]
pub struct NavigationMenuItemInfo {
    pub id: String,
    pub disabled: bool,
    pub disclosure: bool,
}

pub open spec fn items_enabled(items: Seq<NavigationMenuItemInfo>) -> Seq<bool> {
    items.map_values(|item: NavigationMenuItemInfo| !item.disabled)
}

/// Whether each item is enabled.
fn enabled_flags(items: &[NavigationMenuItemInfo]) -> (r: Vec<bool>)
    ensures
        r@ == items_enabled(items@),
{
    let mut flags: Vec<bool> = Vec::new();
    let mut index: usize = 0;
    while index < items.len()
        invariant
            0 <= index <= items.len(),
            flags@ == items_enabled(items@).take(index as int),
        decreases items.len() - index,
    {
        flags.push(!items[index].disabled);
        assert(items_enabled(items@).take(index as int + 1) =~= items_enabled(items@).take(index as int).push(
            !items@[index as int].disabled,
        ));
        index = index + 1;
    }
    assert(flags@ =~= items_enabled(items@));
    flags
}


/// The items as the bar uses them: every item disabled when the whole bar is.
pub fn navigation_items_within(items: &[NavigationMenuItemInfo], bar_disabled: bool) -> (r: Vec<NavigationMenuItemInfo>)
    ensures
        r@.len() == items@.len(),
        forall|i: int|
            0 <= i < items@.len() ==> (#[trigger] r@[i]).id@ == items@[i].id@ && r@[i].disclosure
                == items@[i].disclosure && r@[i].disabled == (items@[i].disabled || bar_disabled),
{
    let mut out: Vec<NavigationMenuItemInfo> = Vec::new();
    let mut i: usize = 0;
    while i < items.len()
        invariant
            0 <= i <= items.len(),
            out@.len() == i,
            forall|k: int|
                0 <= k < i ==> (#[trigger] out@[k]).id@ == items@[k].id@ && out@[k].disclosure == items@[k].disclosure
                    && out@[k].disabled == (items@[k].disabled || bar_disabled),
        decreases items.len() - i,
    {
        let item = &items[i];
        out.push(
            NavigationMenuItemInfo {
                id: item.id.clone(),
                disabled: item.disabled || bar_disabled,
                disclosure: item.disclosure,
            },
        );
        i = i + 1;
    }
    out
}

/// The one trigger in the Tab order: the focused item when it is enabled,
/// otherwise the first enabled item; none exactly when no item is enabled.
pub fn navigation_tab_stop(state: &NavigationMenuState, items: &[NavigationMenuItemInfo]) -> (r: Option<usize>)
    ensures
        (state.focused matches Some(f) && f < items@.len() && !items@[f as int].disabled) ==> r == state.focused,
        !(state.focused matches Some(f) && f < items@.len() && !items@[f as int].disabled) ==> (r matches Some(t)
            ==> first_enabled_at(items_enabled(items@), t as int)),
        r is None <==> !any_enabled(items_enabled(items@)),
{
    let enabled = enabled_flags(items);
    match state.focused {
        Some(f) => if f < items.len() && !items[f].disabled {
            assert(enabled@[f as int]);
            Some(f)
        } else {
            first_enabled(enabled.as_slice())
        },
        None => first_enabled(enabled.as_slice()),
    }
}

/// The disclosure shown open: the open item, only while it is an enabled
/// disclosure.
pub fn navigation_open_index(state: &NavigationMenuState, items: &[NavigationMenuItemInfo]) -> (r: Option<usize>)
    ensures
        r == match state.open {
            Some(i) => if i < items@.len() && !items@[i as int].disabled && items@[i as int].disclosure {
                Some(i)
            } else {
                None
            },
            None => None,
        },
{
    match state.open {
        Some(i) => if i < items.len() && !items[i].disabled && items[i].disclosure {
            Some(i)
        } else {
            None
        },
        None => None,
    }
}

impl NavigationMenuState {
    /// Focus on the first enabled item, nothing open, no active route.
    pub fn initial(items: &[NavigationMenuItemInfo]) -> (r: NavigationMenuState)
        ensures
            r.open is None,
            r.active is None,
            match r.focused {
                Some(i) => first_enabled_at(items_enabled(items@), i as int),
                None => !any_enabled(items_enabled(items@)),
            },
    {
        let flags = enabled_flags(items);
        NavigationMenuState { focused: first_enabled(flags.as_slice()), open: None, active: None }
    }

    /// The same state with `route` active.
    pub fn active(self, route: &str) -> (r: NavigationMenuState)
        ensures
            r.focused == self.focused,
            r.open == self.open,
            r.active matches Some(a) && a@ == route@,
    {
        NavigationMenuState { active: Some(route.to_owned()), ..self }
    }
}

impl NavigationMenuItemInfo {
    /// An enabled route link.
    pub fn link(id: &str) -> (r: NavigationMenuItemInfo)
        ensures
            r.id@ == id@,
            !r.disabled,
            !r.disclosure,
    {
        NavigationMenuItemInfo { id: id.to_owned(), disabled: false, disclosure: false }
    }

    /// An enabled disclosure trigger.
    pub fn disclosure(id: &str) -> (r: NavigationMenuItemInfo)
        ensures
            r.id@ == id@,
            !r.disabled,
            r.disclosure,
    {
        NavigationMenuItemInfo { id: id.to_owned(), disabled: false, disclosure: true }
    }

    /// Whether the item takes part in navigation.
    pub fn enabled(&self) -> (r: bool)
        ensures
            r == !self.disabled,
    {
        !self.disabled
    }

    /// The same item, disabled or not.
    pub fn disabled(self, disabled: bool) -> (r: NavigationMenuItemInfo)
        ensures
            r == (NavigationMenuItemInfo { disabled, ..self }),
    {
        NavigationMenuItemInfo { disabled, ..self }
    }
}

#[derive(Debug, Clone, Copy, PartialEq, Eq, Structural)]
pub enum NavigationMenuCommand {
    Previous,
    Next,
    First,
    Last,
    Activate,
    OpenContent,
    CloseContent,
}

/// Where keyboard focus should go: a trigger or the content of a disclosure.
#[derive(Debug, Clone, Copy, PartialEq, Eq, Structural)]
pub enum NavigationMenuFocus {
    Trigger(usize),
    Content(usize),
}

#[derive(Debug, Clone, PartialEq, Eq)]
pub enum NavigationMenuEvent {
    StateChanged { state: NavigationMenuState, focus: Option<NavigationMenuFocus> },
    LinkActivated { id: String, state: NavigationMenuState },
}

pub open spec fn event_state(event: NavigationMenuEvent) -> NavigationMenuState {
    match event {
        NavigationMenuEvent::StateChanged { state, .. } => state,
        NavigationMenuEvent::LinkActivated { state, .. } => state,
    }
}

pub open spec fn event_focus(event: NavigationMenuEvent) -> Option<NavigationMenuFocus> {
    match event {
        NavigationMenuEvent::StateChanged { focus, .. } => focus,
        NavigationMenuEvent::LinkActivated { .. } => None,
    }
}

pub open spec fn trigger_key(id: Seq<char>, index: nat) -> Seq<char> {
    "ducktape-navigation:"@ + id + ":trigger:"@ + decimal(index)
}

pub open spec fn content_key(id: Seq<char>, index: nat) -> Seq<char> {
    "ducktape-navigation:"@ + id + ":content:"@ + decimal(index)
}

impl NavigationMenuEvent {
    /// The state the event carries.
    pub fn state(&self) -> (r: &NavigationMenuState)
        ensures
            *r == event_state(*self),
    {
        match self {
            NavigationMenuEvent::StateChanged { state, .. } => state,
            NavigationMenuEvent::LinkActivated { state, .. } => state,
        }
    }

    /// Where focus should move, if anywhere.
    pub fn focus(&self) -> (r: Option<NavigationMenuFocus>)
        ensures
            r == event_focus(*self),
    {
        match self {
            NavigationMenuEvent::StateChanged { focus, .. } => *focus,
            NavigationMenuEvent::LinkActivated { .. } => None,
        }
    }

    /// Key of the widget that should take focus after this event, if any.
    pub fn focus_target(&self, id: &str) -> (r: Option<String>)
        ensures
            match event_focus(*self) {
                Some(NavigationMenuFocus::Trigger(i)) => r matches Some(k) && k@ == trigger_key(id@, i as nat),
                Some(NavigationMenuFocus::Content(i)) => r matches Some(k) && k@ == content_key(id@, i as nat),
                None => r is None,
            },
    {
        match self.focus() {
            Some(NavigationMenuFocus::Trigger(index)) => Some(navigation_menu_trigger_id(id, index)),
            Some(NavigationMenuFocus::Content(index)) => Some(navigation_menu_content_id(id, index)),
            None => None,
        }
    }
}

/// The item commands act on: the focused item when it is enabled, else the
/// first enabled item.
pub open spec fn nav_current(state: NavigationMenuState, enabled: Seq<bool>, first: int) -> int {
    match state.focused {
        Some(f) => if f < enabled.len() && enabled[f as int] {
            f as int
        } else {
            first
        },
        None => first,
    }
}

/// The state `state` with `focused` and `open` replaced.
pub open spec fn with_focus(state: NavigationMenuState, focused: Option<usize>, open: Option<usize>) -> NavigationMenuState {
    NavigationMenuState { focused, open, active: state.active }
}

/// `event` reports activating the link `item` at `index`: it becomes the
/// focused item and the active route, and open content closes.
pub open spec fn link_activated(event: NavigationMenuEvent, item: NavigationMenuItemInfo, index: usize) -> bool {
    match event {
        NavigationMenuEvent::LinkActivated { id, state } => {
            &&& id@ == item.id@
            &&& state.focused == Some(index)
            &&& state.open is None
            &&& match state.active {
                Some(a) => a@ == item.id@,
                None => false,
            }
        },
        _ => false,
    }
}

/// What `reduce_navigation_menu` owes for `command`.
pub open spec fn navigation_step(
    state: NavigationMenuState,
    items: Seq<NavigationMenuItemInfo>,
    command: NavigationMenuCommand,
    event: NavigationMenuEvent,
) -> bool {
    let enabled = items_enabled(items);
    if !any_enabled(enabled) {
        event == NavigationMenuEvent::StateChanged { state: with_focus(state, None, None), focus: None }
    } else {
        forall|first: int| #[trigger] first_enabled_at(enabled, first) ==> {
            let current = nav_current(state, enabled, first);
            match command {
                NavigationMenuCommand::Activate => if items[current].disclosure {
                    event == NavigationMenuEvent::StateChanged {
                        state: with_focus(
                            state,
                            Some(current as usize),
                            if state.open == Some(current as usize) {
                                None
                            } else {
                                Some(current as usize)
                            },
                        ),
                        focus: None,
                    }
                } else {
                    link_activated(event, items[current], current as usize)
                },
                NavigationMenuCommand::OpenContent => if items[current].disclosure {
                    event == NavigationMenuEvent::StateChanged {
                        state: with_focus(state, Some(current as usize), Some(current as usize)),
                        focus: Some(NavigationMenuFocus::Content(current as usize)),
                    }
                } else {
                    event == NavigationMenuEvent::StateChanged {
                        state: with_focus(state, Some(current as usize), state.open),
                        focus: None,
                    }
                },
                NavigationMenuCommand::CloseContent => {
                    let restore = match state.open {
                        Some(o) => if o < items.len() && enabled[o as int] && items[o as int].disclosure {
                            o as int
                        } else {
                            current
                        },
                        None => current,
                    };
                    event == NavigationMenuEvent::StateChanged {
                        state: with_focus(state, Some(restore as usize), None),
                        focus: Some(NavigationMenuFocus::Trigger(restore as usize)),
                    }
                },
                _ => event matches NavigationMenuEvent::StateChanged { state: next, focus } && next.focused matches Some(
                    t,
                ) && focus == Some(NavigationMenuFocus::Trigger(t)) && next.active == state.active && next.open == (
                if state.open is Some {
                    if items[t as int].disclosure {
                        Some(t)
                    } else {
                        None
                    }
                } else {
                    None
                }) && match command {
                    NavigationMenuCommand::First => first_enabled_at(enabled, t as int),
                    NavigationMenuCommand::Last => last_enabled_at(enabled, t as int),
                    NavigationMenuCommand::Next => nearest_enabled(enabled, current, true, t as int),
                    _ => nearest_enabled(enabled, current, false, t as int),
                },
            }
        }
    }
}

/// A copy of a navigation menu state.
fn copy_state(state: &NavigationMenuState) -> (r: NavigationMenuState)
    ensures
        r == *state,
{
    NavigationMenuState {
        focused: state.focused,
        open: state.open,
        active: match &state.active {
            Some(a) => Some(a.clone()),
            None => None,
        },
    }
}

proof fn lemma_first_unique(enabled: Seq<bool>, a: int, b: int)
    requires
        first_enabled_at(enabled, a),
        first_enabled_at(enabled, b),
    ensures
        a == b,
{
}

/// Applies one semantic command, skipping disabled items and keeping a
/// disclosure open while roving onto another disclosure.
pub fn reduce_navigation_menu(
    state: &NavigationMenuState,
    items: &[NavigationMenuItemInfo],
    command: NavigationMenuCommand,
) -> (r: NavigationMenuEvent)
    ensures
        navigation_step(*state, items@, command, r),
{
    let flags = enabled_flags(items);
    let mut next = copy_state(state);
    let first = match first_enabled(flags.as_slice()) {
        Some(first) => first,
        None => {
            next.focused = None;
            next.open = None;
            return NavigationMenuEvent::StateChanged { state: next, focus: None };
        },
    };
    let ghost enabled = items_enabled(items@);
    let current = match state.focused {
        Some(f) => if f < flags.len() && flags[f] {
            f
        } else {
            first
        },
        None => first,
    };
    proof {
        assert forall|other: int| #[trigger] first_enabled_at(enabled, other) implies other == first as int by {
            lemma_first_unique(enabled, other, first as int);
        }
    }
    match command {
        NavigationMenuCommand::Activate => activate_item(state, items, current),
        NavigationMenuCommand::OpenContent => {
            next.focused = Some(current);
            let focus = if items[current].disclosure {
                next.open = Some(current);
                Some(NavigationMenuFocus::Content(current))
            } else {
                None
            };
            NavigationMenuEvent::StateChanged { state: next, focus }
        },
        NavigationMenuCommand::CloseContent => {
            let restore = match state.open {
                Some(o) => if o < items.len() && flags[o] && items[o].disclosure {
                    o
                } else {
                    current
                },
                None => current,
            };
            next.focused = Some(restore);
            next.open = None;
            NavigationMenuEvent::StateChanged { state: next, focus: Some(NavigationMenuFocus::Trigger(restore)) }
        },
        _ => {
            let found = match command {
                NavigationMenuCommand::First => Some(first),
                NavigationMenuCommand::Last => last_enabled(flags.as_slice()),
                NavigationMenuCommand::Next => nearest(flags.as_slice(), current, true),
                _ => nearest(flags.as_slice(), current, false),
            };
            let target = match found {
                Some(t) => t,
                None => first,
            };
            next.focused = Some(target);
            if state.open.is_some() {
                next.open = if items[target].disclosure {
                    Some(target)
                } else {
                    None
                };
            }
            NavigationMenuEvent::StateChanged { state: next, focus: Some(NavigationMenuFocus::Trigger(target)) }
        },
    }
}

/// Activates the item at `index`: a disclosure toggles its content; a link
/// becomes the active route and closes any open content.
fn activate_item(state: &NavigationMenuState, items: &[NavigationMenuItemInfo], index: usize) -> (r:
    NavigationMenuEvent)
    requires
        index < items@.len(),
    ensures
        if items@[index as int].disclosure {
            r == NavigationMenuEvent::StateChanged {
                state: with_focus(
                    *state,
                    Some(index),
                    if state.open == Some(index) {
                        None
                    } else {
                        Some(index)
                    },
                ),
                focus: None,
            }
        } else {
            link_activated(r, items@[index as int], index)
        },
{
    let mut next = copy_state(state);
    next.focused = Some(index);
    let item = &items[index];
    if item.disclosure {
        next.open = if state.open == Some(index) {
            None
        } else {
            Some(index)
        };
        NavigationMenuEvent::StateChanged { state: next, focus: None }
    } else {
        next.open = None;
        next.active = Some(item.id.clone());
        NavigationMenuEvent::LinkActivated { id: item.id.clone(), state: next }
    }
}

/// A pointer press on the item at `index`: focus it, then activate.
pub fn activate_at(state: &NavigationMenuState, items: &[NavigationMenuItemInfo], index: usize) -> (r:
    NavigationMenuEvent)
    ensures
        navigation_step(with_focus(*state, Some(index), state.open), items@, NavigationMenuCommand::Activate, r),
{
    let mut focused = copy_state(state);
    focused.focused = Some(index);
    reduce_navigation_menu(&focused, items, NavigationMenuCommand::Activate)
}

/// The command a key press maps to for the given layout. Collapsed layouts
/// use a vertical list whose lateral key follows the reading direction.
pub fn navigation_menu_command(
    key: &Key,
    orientation: NavigationMenuOrientation,
    direction: Direction,
    content_open: bool,
) -> (r: Option<NavigationMenuCommand>)
    ensures
        r == navigation_command_of(*key, orientation, direction, content_open),
{
    let horizontal = orientation == NavigationMenuOrientation::Horizontal;
    let ltr = direction == Direction::LeftToRight;
    match key {
        Key::ArrowLeft => if horizontal {
            Some(
                if ltr {
                    NavigationMenuCommand::Previous
                } else {
                    NavigationMenuCommand::Next
                },
            )
        } else if !ltr {
            Some(NavigationMenuCommand::OpenContent)
        } else {
            None
        },
        Key::ArrowRight => if horizontal {
            Some(
                if ltr {
                    NavigationMenuCommand::Next
                } else {
                    NavigationMenuCommand::Previous
                },
            )
        } else if ltr {
            Some(NavigationMenuCommand::OpenContent)
        } else {
            None
        },
        Key::ArrowDown => if horizontal {
            Some(NavigationMenuCommand::OpenContent)
        } else {
            Some(NavigationMenuCommand::Next)
        },
        Key::ArrowUp => if content_open {
            Some(NavigationMenuCommand::CloseContent)
        } else if horizontal {
            None
        } else {
            Some(NavigationMenuCommand::Previous)
        },
        Key::Home => Some(NavigationMenuCommand::First),
        Key::End => Some(NavigationMenuCommand::Last),
        Key::Escape => if content_open {
            Some(NavigationMenuCommand::CloseContent)
        } else {
            None
        },
        _ => None,
    }
}

/// The key mapping of `navigation_menu_command`.
pub open spec fn navigation_command_of(
    key: Key,
    orientation: NavigationMenuOrientation,
    direction: Direction,
    content_open: bool,
) -> Option<NavigationMenuCommand> {
    let horizontal = orientation == NavigationMenuOrientation::Horizontal;
    let ltr = direction == Direction::LeftToRight;
    match key {
        Key::ArrowLeft => if horizontal {
            Some(
                if ltr {
                    NavigationMenuCommand::Previous
                } else {
                    NavigationMenuCommand::Next
                },
            )
        } else if !ltr {
            Some(NavigationMenuCommand::OpenContent)
        } else {
            None
        },
        Key::ArrowRight => if horizontal {
            Some(
                if ltr {
                    NavigationMenuCommand::Next
                } else {
                    NavigationMenuCommand::Previous
                },
            )
        } else if ltr {
            Some(NavigationMenuCommand::OpenContent)
        } else {
            None
        },
        Key::ArrowDown => Some(
            if horizontal {
                NavigationMenuCommand::OpenContent
            } else {
                NavigationMenuCommand::Next
            },
        ),
        Key::ArrowUp => if content_open {
            Some(NavigationMenuCommand::CloseContent)
        } else if horizontal {
            None
        } else {
            Some(NavigationMenuCommand::Previous)
        },
        Key::Home => Some(NavigationMenuCommand::First),
        Key::End => Some(NavigationMenuCommand::Last),
        Key::Escape => if content_open {
            Some(NavigationMenuCommand::CloseContent)
        } else {
            None
        },
        _ => None,
    }
}

/// Stable focus key of the trigger at `index`.
pub fn navigation_menu_trigger_id(id: &str, index: usize) -> (r: String)
    ensures
        r@ == trigger_key(id@, index as nat),
{
    let mut key = String::from_str("ducktape-navigation:");
    key.append(id);
    key.append(":trigger:");
    push_decimal(&mut key, index as u64);
    key
}

/// Stable focus key of the content of the disclosure at `index`.
pub fn navigation_menu_content_id(id: &str, index: usize) -> (r: String)
    ensures
        r@ == content_key(id@, index as nat),
{
    let mut key = String::from_str("ducktape-navigation:");
    key.append(id);
    key.append(":content:");
    push_decimal(&mut key, index as u64);
    key
}

/// Visual slot of each trigger, by logical index: reversed only for a
/// horizontal row in a right-to-left layout.
pub fn logical_to_visual_map(count: usize, orientation: NavigationMenuOrientation, direction: Direction) -> (r: Vec<
    usize,
>)
    ensures
        r@.len() == count,
        forall|i: int| 0 <= i < count ==> #[trigger] r@[i] == if orientation == NavigationMenuOrientation::Horizontal
            && direction == Direction::RightToLeft {
            count - 1 - i
        } else {
            i
        },
{
    let reversed = orientation == NavigationMenuOrientation::Horizontal && direction == Direction::RightToLeft;
    let mut map: Vec<usize> = Vec::new();
    let mut index: usize = 0;
    while index < count
        invariant
            0 <= index <= count,
            map@.len() == index,
            forall|i: int| 0 <= i < index ==> #[trigger] map@[i] == if reversed {
                count - 1 - i
            } else {
                i
            },
        decreases count - index,
    {
        if reversed {
            map.push(count - 1 - index);
        } else {
            map.push(index);
        }
        index = index + 1;
    }
    map
}


/// Activating the same enabled disclosure twice opens and then closes its
/// content, leaving it focused.
pub proof fn lemma_disclosure_toggles(
    state: NavigationMenuState,
    items: Seq<NavigationMenuItemInfo>,
    index: usize,
    opened: NavigationMenuEvent,
    closed: NavigationMenuEvent,
)
    requires
        index < items.len(),
        !items[index as int].disabled,
        items[index as int].disclosure,
        state.focused == Some(index),
        state.open != Some(index),
        navigation_step(state, items, NavigationMenuCommand::Activate, opened),
        navigation_step(event_state(opened), items, NavigationMenuCommand::Activate, closed),
    ensures
        event_state(opened).open == Some(index),
        event_state(closed).open is None,
        event_state(closed).focused == Some(index),
        event_state(closed).active == state.active,
{
    let enabled = items_enabled(items);
    assert(enabled[index as int]);
    lemma_first_enabled_exists(enabled, index as int);
    let first = choose|f: int| first_enabled_at(enabled, f);
}

proof fn lemma_first_enabled_exists(enabled: Seq<bool>, k: int)
    requires
        0 <= k < enabled.len(),
        enabled[k],
    ensures
        exists|f: int| first_enabled_at(enabled, f),
    decreases k,
{
    if exists|j: int| 0 <= j < k && enabled[j] {
        let j = choose|j: int| 0 <= j < k && enabled[j];
        lemma_first_enabled_exists(enabled, j);
    } else {
        assert(first_enabled_at(enabled, k));
    }
}

/// Arrow, Home and End moves always land on an enabled item, and the focus
/// event names that item's trigger.
pub proof fn lemma_moves_land_on_enabled(
    state: NavigationMenuState,
    items: Seq<NavigationMenuItemInfo>,
    command: NavigationMenuCommand,
    event: NavigationMenuEvent,
    first: int,
)
    requires
        command is Previous || command is Next || command is First || command is Last,
        first_enabled_at(items_enabled(items), first),
        navigation_step(state, items, command, event),
    ensures
        event_state(event).focused matches Some(t) && t < items.len() && !items[t as int].disabled
            && event_focus(event) == Some(NavigationMenuFocus::Trigger(t)),
{
}


/// Delayed opening of a disclosure under the pointer. Times are milliseconds
/// on one monotonic clock chosen by the caller.
#[derive(Debug, Clone, Copy, Default, PartialEq, Eq)]
pub struct HoverIntent {
    /// The item the pointer was last seen over.
    pub observed: Option<usize>,
    /// The item waiting to open, and when it may.
    pub pending: Option<(usize, u64)>,
}

impl HoverIntent {
    /// Records the item under the pointer at `now`. A new item starts one
    /// deadline `delay` later; the same item keeps its deadline; no item
    /// cancels it.
    pub fn observe(&mut self, target: Option<usize>, now: u64, delay: u64)
        requires
            now + delay <= u64::MAX,
        ensures
            if old(self).observed == target {
                *final(self) == *old(self)
            } else {
                final(self).observed == target && final(self).pending == match target {
                    Some(t) => Some((t, (now + delay) as u64)),
                    None => None,
                }
            },
    {
        if self.observed == target {
            return;
        }
        self.observed = target;
        self.pending = match target {
            Some(t) => Some((t, now + delay)),
            None => None,
        };
    }

    /// The item whose deadline has passed at `now`, taken once.
    pub fn take_ready(&mut self, now: u64) -> (r: Option<usize>)
        ensures
            match old(self).pending {
                Some((target, deadline)) => if now < deadline {
                    r is None && *final(self) == *old(self)
                } else {
                    r == Some(target) && final(self).pending is None && final(self).observed == old(self).observed
                },
                None => r is None && *final(self) == *old(self),
            },
    {
        match self.pending {
            Some((target, deadline)) => {
                if now < deadline {
                    None
                } else {
                    self.pending = None;
                    Some(target)
                }
            },
            None => None,
        }
    }

    /// When the waiting item may open.
    pub fn deadline(self) -> (r: Option<u64>)
        ensures
            r == match self.pending {
                Some((_, deadline)) => Some(deadline),
                None => None::<u64>,
            },
    {
        match self.pending {
            Some((_, deadline)) => Some(deadline),
            None => None,
        }
    }

    /// Forgets the pointer.
    pub fn clear(&mut self)
        ensures
            *final(self) == (HoverIntent { observed: None, pending: None }),
    {
        self.observed = None;
        self.pending = None;
    }
}

/// Whether hovering the item at `index` may open it: an enabled disclosure
/// that is not already open.
pub open spec fn hover_opens(items: Seq<NavigationMenuItemInfo>, state: NavigationMenuState, index: usize) -> bool {
    index < items.len() && !items[index as int].disabled && items[index as int].disclosure && state.open != Some(
        index,
    )
}

/// What one pointer update asks of the widget.
#[derive(Debug, Clone, PartialEq, Eq)]
pub enum HoverOutcome {
    /// Open the hovered disclosure with this event.
    Open(NavigationMenuEvent),
    /// Check again at this time.
    WakeAt(u64),
    /// Nothing to do.
    Idle,
}

/// One pointer update over the triggers: `pointer` is the item under the
/// pointer, if any. Only an enabled, closed disclosure counts as hovered;
/// once its delay has passed it opens without moving keyboard focus.
pub fn update_hover(
    hover: &mut HoverIntent,
    pointer: Option<usize>,
    items: &[NavigationMenuItemInfo],
    state: &NavigationMenuState,
    now: u64,
    delay: u64,
) -> (r: HoverOutcome)
    requires
        now + delay <= u64::MAX,
    ensures
        ({
            let target = match pointer {
                Some(i) => if hover_opens(items@, *state, i) {
                    Some(i)
                } else {
                    None
                },
                None => None,
            };
            let observed = if old(hover).observed == target {
                *old(hover)
            } else {
                HoverIntent {
                    observed: target,
                    pending: match target {
                        Some(t) => Some((t, (now + delay) as u64)),
                        None => None,
                    },
                }
            };
            match observed.pending {
                Some((t, deadline)) => if now < deadline {
                    *final(hover) == observed && r == HoverOutcome::WakeAt(deadline)
                } else {
                    &&& final(hover).pending is None
                    &&& final(hover).observed == observed.observed
                    &&& r == HoverOutcome::Open(
                        NavigationMenuEvent::StateChanged { state: with_focus(*state, state.focused, Some(t)), focus: None },
                    )
                },
                None => *final(hover) == observed && r == HoverOutcome::Idle,
            }
        }),
{
    let target = match pointer {
        Some(i) => if i < items.len() && !items[i].disabled && items[i].disclosure && state.open != Some(i) {
            Some(i)
        } else {
            None
        },
        None => None,
    };
    hover.observe(target, now, delay);
    match hover.take_ready(now) {
        Some(t) => {
            let mut next = copy_state(state);
            next.open = Some(t);
            HoverOutcome::Open(NavigationMenuEvent::StateChanged { state: next, focus: None })
        },
        None => match hover.deadline() {
            Some(deadline) => HoverOutcome::WakeAt(deadline),
            None => HoverOutcome::Idle,
        },
    }
}

} // verus!
