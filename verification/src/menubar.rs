//! Controlled menubar: roving focus over the top-level triggers, with one
//! child menu open at a time.

use vstd::prelude::*;
use crate::direction::Direction;
use crate::keys::Key;
use crate::menu::{
    enabled_of, resolved_index, resolved_focus, menu_item_id, MenuEntry, MenuEvent, MenuState, TopLevelMove,
};
use crate::roving::{
    any_enabled, first_enabled, first_enabled_at, last_enabled, last_enabled_at, nearest,
    nearest_enabled,
};
use crate::text::{decimal, push_char, push_decimal};

verus! {

/// One top-level menu of the bar.
#[derive(Debug, Clone, PartialEq, Eq)]
pub struct MenubarMenu {
    pub id: String,
    pub label: String,
    pub entries: Vec<MenuEntry>,
    pub disabled: bool,
}

impl MenubarMenu {
    /// An enabled menu.
    pub fn new(id: &str, label: &str, entries: Vec<MenuEntry>) -> (r: MenubarMenu)
        ensures
            r.id@ == id@,
            r.label@ == label@,
            r.entries@ == entries@,
            !r.disabled,
    {
        MenubarMenu { id: id.to_owned(), label: label.to_owned(), entries, disabled: false }
    }

    /// The same menu, disabled or not.
    pub fn disabled(self, disabled: bool) -> (r: MenubarMenu)
        ensures
            r == (MenubarMenu { disabled, ..self }),
    {
        MenubarMenu { disabled, ..self }
    }
}

/// Focused trigger and open menu, by index.
#[derive(Debug, Clone, Copy, Default, PartialEq, Eq)]
pub struct MenubarState {
    pub focused: Option<usize>,
    pub open: Option<usize>,
}

pub open spec fn menus_enabled(menus: Seq<MenubarMenu>) -> Seq<bool> {
    menus.map_values(|m: MenubarMenu| !m.disabled)
}

impl MenubarState {
    /// Focus on the first enabled menu, nothing open.
    pub fn initial(menus: &[MenubarMenu]) -> (r: MenubarState)
        ensures
            r.open is None,
            match r.focused {
                Some(i) => first_enabled_at(menus_enabled(menus@), i as int),
                None => !any_enabled(menus_enabled(menus@)),
            },
    {
        let mut enabled: Vec<bool> = Vec::new();
        let mut index: usize = 0;
        while index < menus.len()
            invariant
                0 <= index <= menus.len(),
                enabled@ == menus_enabled(menus@).take(index as int),
            decreases menus.len() - index,
        {
            enabled.push(!menus[index].disabled);
            assert(menus_enabled(menus@).take(index as int + 1) =~= menus_enabled(menus@).take(index as int).push(
                !menus@[index as int].disabled,
            ));
            index = index + 1;
        }
        assert(enabled@ =~= menus_enabled(menus@));
        MenubarState { focused: first_enabled(enabled.as_slice()), open: None }
    }
}

#[derive(Debug, Clone, Copy, PartialEq, Eq, Structural)]
pub enum MenubarCommand {
    Left,
    Right,
    First,
    Last,
    Open,
    Close,
}

/// The focused trigger, when it exists and is enabled.
pub open spec fn menubar_current(state: MenubarState, enabled: Seq<bool>) -> Option<int> {
    match state.focused {
        Some(i) => if i < enabled.len() && enabled[i as int] {
            Some(i as int)
        } else {
            None
        },
        None => None,
    }
}

/// Whether a horizontal arrow moves towards the following trigger: Right in
/// left-to-right layouts, Left in right-to-left ones.
pub open spec fn moves_forward(command: MenubarCommand, direction: Direction) -> bool {
    (command == MenubarCommand::Right) == (direction == Direction::LeftToRight)
}

/// Where an arrow starts from: the focused trigger, or just outside the row so
/// that the first step lands on its first (or last) trigger.
pub open spec fn arrow_start(current: Option<int>, len: int, forward: bool) -> int {
    match current {
        Some(c) => c,
        None => if forward {
            len - 1
        } else {
            0
        },
    }
}

/// What `reduce_menubar` owes: with no enabled trigger nothing is focused or
/// open; Close closes the open menu; the others move focus (to the first,
/// last, or nearest enabled trigger in the pressed physical direction, or stay
/// for Open) and keep the open menu following the focus.
pub open spec fn menubar_step(
    state: MenubarState,
    enabled: Seq<bool>,
    command: MenubarCommand,
    direction: Direction,
    r: MenubarState,
) -> bool {
    let current = menubar_current(state, enabled);
    if !any_enabled(enabled) {
        r == MenubarState { focused: None, open: None }
    } else {
        match command {
            MenubarCommand::Close => r == MenubarState { focused: state.focused, open: None },
            MenubarCommand::Open => match current {
                None => r == state,
                Some(c) => r == MenubarState { focused: Some(c as usize), open: Some(c as usize) },
            },
            _ => r.focused matches Some(t) && r.open == (if state.open is Some {
                Some(t)
            } else {
                None
            }) && match command {
                MenubarCommand::First => first_enabled_at(enabled, t as int),
                MenubarCommand::Last => last_enabled_at(enabled, t as int),
                _ => nearest_enabled(
                    enabled,
                    arrow_start(current, enabled.len() as int, moves_forward(command, direction)),
                    moves_forward(command, direction),
                    t as int,
                ),
            },
        }
    }
}

/// Which triggers can take focus: none when the whole bar is disabled,
/// otherwise those of the enabled menus.
pub fn menubar_enabled(menus: &[MenubarMenu], bar_disabled: bool) -> (r: Vec<bool>)
    ensures
        r@.len() == menus@.len(),
        forall|i: int| 0 <= i < menus@.len() ==> #[trigger] r@[i] == (!bar_disabled && !menus@[i].disabled),
{
    let mut enabled: Vec<bool> = Vec::new();
    let mut i: usize = 0;
    while i < menus.len()
        invariant
            0 <= i <= menus.len(),
            enabled@.len() == i,
            forall|k: int| 0 <= k < i ==> #[trigger] enabled@[k] == (!bar_disabled && !menus@[k].disabled),
        decreases menus.len() - i,
    {
        enabled.push(!bar_disabled && !menus[i].disabled);
        i = i + 1;
    }
    enabled
}

/// The one trigger in the Tab order: the focused trigger when it is enabled,
/// otherwise the first enabled trigger; none exactly when no trigger is
/// enabled.
pub fn menubar_tab_stop(state: &MenubarState, enabled: &[bool]) -> (r: Option<usize>)
    ensures
        menubar_current(*state, enabled@) matches Some(c) ==> r == Some(c as usize),
        menubar_current(*state, enabled@) is None ==> (r matches Some(t) ==> first_enabled_at(enabled@, t as int)),
        r is None <==> !any_enabled(enabled@),
{
    match state.focused {
        Some(i) => if i < enabled.len() && enabled[i] {
            Some(i)
        } else {
            first_enabled(enabled)
        },
        None => first_enabled(enabled),
    }
}

/// The menu shown open: the open menu, only while its trigger is enabled.
pub fn menubar_open_index(state: &MenubarState, enabled: &[bool]) -> (r: Option<usize>)
    ensures
        r == match state.open {
            Some(i) => if i < enabled@.len() && enabled@[i as int] {
                Some(i)
            } else {
                None
            },
            None => None,
        },
{
    match state.open {
        Some(i) => if i < enabled.len() && enabled[i] {
            Some(i)
        } else {
            None
        },
        None => None,
    }
}

/// The bar command for a request of the open child menu to move to the
/// neighbouring top-level menu: towards the previous menu is Left in
/// left-to-right layouts and Right in right-to-left ones.
pub open spec fn top_level_command(movement: TopLevelMove, direction: Direction) -> MenubarCommand {
    if (movement == TopLevelMove::Previous) == (direction == Direction::LeftToRight) {
        MenubarCommand::Left
    } else {
        MenubarCommand::Right
    }
}

/// What the bar does with an event of its open child menu: a top-level move
/// becomes a Left or Right step of the bar, a dismissal closes the menu and
/// keeps the focused trigger, and any other event stays with the menu (`None`).
pub fn menubar_child_event(state: &MenubarState, enabled: &[bool], event: &MenuEvent, direction: Direction) -> (r:
    Option<MenubarState>)
    ensures
        match *event {
            MenuEvent::MoveTopLevel(movement) => r matches Some(next) && menubar_step(
                *state,
                enabled@,
                top_level_command(movement, direction),
                direction,
                next,
            ),
            MenuEvent::Dismiss => r == Some(MenubarState { focused: state.focused, open: None }),
            _ => r is None,
        },
{
    match event {
        MenuEvent::MoveTopLevel(movement) => {
            let previous = match movement {
                TopLevelMove::Previous => true,
                TopLevelMove::Next => false,
            };
            let left_to_right = match direction {
                Direction::LeftToRight => true,
                Direction::RightToLeft => false,
            };
            let command = if previous == left_to_right {
                MenubarCommand::Left
            } else {
                MenubarCommand::Right
            };
            Some(reduce_menubar(state, enabled, command, direction))
        },
        MenuEvent::Dismiss => Some(MenubarState { focused: state.focused, open: None }),
        _ => None,
    }
}

/// Applies one top-level command to the bar.
pub fn reduce_menubar(state: &MenubarState, enabled: &[bool], command: MenubarCommand, direction: Direction) -> (r:
    MenubarState)
    ensures
        menubar_step(*state, enabled@, command, direction, r),
{
    let mut next = *state;
    let first = first_enabled(enabled);
    if first.is_none() {
        next.focused = None;
        next.open = None;
        return next;
    }
    let current = match state.focused {
        Some(i) => if i < enabled.len() && enabled[i] {
            Some(i)
        } else {
            None
        },
        None => None,
    };
    let target = match command {
        MenubarCommand::First => first,
        MenubarCommand::Last => last_enabled(enabled),
        MenubarCommand::Left | MenubarCommand::Right => {
            let forward = match (command, direction) {
                (MenubarCommand::Right, Direction::LeftToRight) => true,
                (MenubarCommand::Left, Direction::RightToLeft) => true,
                _ => false,
            };
            let start = match current {
                Some(c) => c,
                None => if forward {
                    enabled.len() - 1
                } else {
                    0
                },
            };
            nearest(enabled, start, forward)
        },
        MenubarCommand::Open => current,
        MenubarCommand::Close => {
            next.open = None;
            return next;
        },
    };
    match target {
        Some(t) => {
            next.focused = Some(t);
            if state.open.is_some() || command == MenubarCommand::Open {
                next.open = Some(t);
            }
        },
        None => {},
    }
    next
}

/// The top-level command a key press maps to.
pub fn menubar_command(key: &Key) -> (r: Option<MenubarCommand>)
    ensures
        r == match *key {
            Key::ArrowLeft => Some(MenubarCommand::Left),
            Key::ArrowRight => Some(MenubarCommand::Right),
            Key::Home => Some(MenubarCommand::First),
            Key::End => Some(MenubarCommand::Last),
            Key::ArrowDown => Some(MenubarCommand::Open),
            Key::Escape => Some(MenubarCommand::Close),
            _ => None::<MenubarCommand>,
        },
{
    match key {
        Key::ArrowLeft => Some(MenubarCommand::Left),
        Key::ArrowRight => Some(MenubarCommand::Right),
        Key::Home => Some(MenubarCommand::First),
        Key::End => Some(MenubarCommand::Last),
        Key::ArrowDown => Some(MenubarCommand::Open),
        Key::Escape => Some(MenubarCommand::Close),
        _ => None,
    }
}

/// What the bar reports: a new top-level state, or an event of one child menu.
#[derive(Debug, Clone, PartialEq, Eq)]
pub enum MenubarEvent {
    StateChanged(MenubarState),
    Menu { menu_id: String, event: MenuEvent },
}

/// The bar state after `event`: a reported state replaces it; an activation
/// or dismissal inside a child menu closes the open menu; other child events
/// leave it alone.
pub open spec fn menubar_state_after(event: MenubarEvent, current: MenubarState) -> MenubarState {
    match event {
        MenubarEvent::StateChanged(state) => state,
        MenubarEvent::Menu { event, .. } => match event {
            MenuEvent::Activated(_) | MenuEvent::Dismiss => MenubarState { open: None, ..current },
            _ => current,
        },
    }
}

/// Index of the first menu whose ID is `menu_id`, if any.
pub open spec fn menu_index(menus: Seq<MenubarMenu>, menu_id: Seq<char>) -> Option<int> {
    if exists|i: int| 0 <= i < menus.len() && menus[i].id@ == menu_id {
        Some(choose|i: int| 0 <= i < menus.len() && menus[i].id@ == menu_id && forall|j: int| 0 <= j < i ==> menus[j].id@ != menu_id)
    } else {
        None
    }
}

/// Key of the child menu of `menu_id` in the bar `id`.
pub open spec fn child_menu_key(id: Seq<char>, menu_id: Seq<char>) -> Seq<char> {
    "menubar:"@ + id + seq![':'] + menu_id
}

/// Key of the item that takes focus in a child menu shown in `menu_state`.
pub open spec fn child_focus_key(id: Seq<char>, menu: MenubarMenu, menu_state: MenuState) -> Option<Seq<char>> {
    match resolved_index(menu_state.model(), menu.entries@) {
        Some(i) => Some(
            "ducktape-menu:"@ + child_menu_key(id, menu.id@) + seq![':'] + enabled_of(menu_state.model(), menu.entries@)[i].1.id@,
        ),
        None => None,
    }
}

pub open spec fn trigger_key(id: Seq<char>, index: nat) -> Seq<char> {
    "ducktape-menubar:"@ + id + ":trigger:"@ + decimal(index)
}

pub open spec fn focused_trigger(id: Seq<char>, state: MenubarState) -> Option<Seq<char>> {
    match state.focused {
        Some(i) => Some(trigger_key(id, i as nat)),
        None => None,
    }
}

/// The widget that takes focus after `event`: the focused item of the open
/// child menu, else the focused trigger; for a child event, its new focused
/// item, or its trigger after an activation or dismissal.
pub open spec fn menubar_focus(
    event: MenubarEvent,
    id: Seq<char>,
    menus: Seq<MenubarMenu>,
    menu_state: MenuState,
) -> Option<Seq<char>> {
    match event {
        MenubarEvent::StateChanged(state) => match state.open {
            Some(i) => if i < menus.len() {
                child_focus_key(id, menus[i as int], menu_state)
            } else {
                focused_trigger(id, state)
            },
            None => focused_trigger(id, state),
        },
        MenubarEvent::Menu { menu_id, event } => match menu_index(menus, menu_id@) {
            None => None,
            Some(index) => match event {
                MenuEvent::StateChanged(state) => child_focus_key(id, menus[index], state),
                MenuEvent::Activated(_) | MenuEvent::Dismiss => Some(trigger_key(id, index as nat)),
                MenuEvent::MoveTopLevel(_) => None,
            },
        },
    }
}

impl MenubarEvent {
    /// The bar state after this event.
    pub fn state(&self, current: &MenubarState) -> (r: MenubarState)
        ensures
            r == menubar_state_after(*self, *current),
    {
        match self {
            MenubarEvent::StateChanged(state) => *state,
            MenubarEvent::Menu { event, .. } => match event {
                MenuEvent::Activated(_) | MenuEvent::Dismiss => MenubarState { open: None, ..*current },
                _ => *current,
            },
        }
    }

    /// Key of the widget that should take focus after this event, if any.
    pub fn focus_target(&self, id: &str, menus: &[MenubarMenu], menu_state: &MenuState) -> (r: Option<String>)
        ensures
            match menubar_focus(*self, id@, menus@, *menu_state) {
                Some(k) => r matches Some(s) && s@ == k,
                None => r is None,
            },
    {
        match self {
            MenubarEvent::StateChanged(state) => {
                let open_menu = match state.open {
                    Some(index) => if index < menus.len() {
                        Some(index)
                    } else {
                        None
                    },
                    None => None,
                };
                match open_menu {
                    Some(index) => child_focus(id, &menus[index], menu_state),
                    None => match state.focused {
                        Some(index) => Some(menubar_trigger_id(id, index)),
                        None => None,
                    },
                }
            },
            MenubarEvent::Menu { menu_id, event } => {
                let found = find_menu(menus, menu_id);
                match found {
                    None => None,
                    Some(index) => match event {
                        MenuEvent::StateChanged(state) => child_focus(id, &menus[index], state),
                        MenuEvent::Activated(_) | MenuEvent::Dismiss => Some(menubar_trigger_id(id, index)),
                        MenuEvent::MoveTopLevel(_) => None,
                    },
                }
            },
        }
    }
}

/// Index of the first menu whose ID is `menu_id`.
fn find_menu(menus: &[MenubarMenu], menu_id: &String) -> (r: Option<usize>)
    ensures
        menu_index(menus@, menu_id@) == match r {
            Some(i) => Some(i as int),
            None => None::<int>,
        },
        r matches Some(i) ==> i < menus@.len(),
{
    let mut index: usize = 0;
    while index < menus.len()
        invariant
            0 <= index <= menus.len(),
            forall|j: int| 0 <= j < index ==> menus@[j].id@ != menu_id@,
        decreases menus.len() - index,
    {
        if menus[index].id == *menu_id {
            proof {
                let i = index as int;
                let c = choose|c: int| 0 <= c < menus@.len() && menus@[c].id@ == menu_id@ && forall|j: int|
                    0 <= j < c ==> menus@[j].id@ != menu_id@;
                if c < i {
                } else if c > i {
                }
            }
            return Some(index);
        }
        index = index + 1;
    }
    None
}

/// Focus key inside the child menu of `menu`.
fn child_focus(id: &str, menu: &MenubarMenu, menu_state: &MenuState) -> (r: Option<String>)
    ensures
        match child_focus_key(id@, *menu, *menu_state) {
            Some(k) => r matches Some(s) && s@ == k,
            None => r is None,
        },
{
    match resolved_focus(menu.entries.as_slice(), menu_state) {
        Some(found) => {
            let mut key = String::from_str("menubar:");
            key.append(id);
            push_char(&mut key, ':');
            key.append(menu.id.as_str());
            Some(menu_item_id(key.as_str(), found.1.id.as_str(), found.0.as_slice()))
        },
        None => None,
    }
}

/// Stable focus key of the trigger at `index` of the bar `id`.
pub fn menubar_trigger_id(id: &str, index: usize) -> (r: String)
    ensures
        r@ == trigger_key(id@, index as nat),
{
    let mut key = String::from_str("ducktape-menubar:");
    key.append(id);
    key.append(":trigger:");
    push_decimal(&mut key, index as u64);
    key
}

/// Visual slot of each trigger, by logical index: reversed right to left.
pub fn logical_to_visual_map(count: usize, direction: Direction) -> (r: Vec<usize>)
    ensures
        r@.len() == count,
        forall|i: int| 0 <= i < count ==> #[trigger] r@[i] == if direction == Direction::LeftToRight {
            i
        } else {
            count - 1 - i
        },
{
    let mut map: Vec<usize> = Vec::new();
    let mut index: usize = 0;
    while index < count
        invariant
            0 <= index <= count,
            map@.len() == index,
            forall|i: int| 0 <= i < index ==> #[trigger] map@[i] == if direction == Direction::LeftToRight {
                i
            } else {
                count - 1 - i
            },
        decreases count - index,
    {
        match direction {
            Direction::LeftToRight => map.push(index),
            Direction::RightToLeft => map.push(count - 1 - index),
        }
        index = index + 1;
    }
    map
}


/// In a left-to-right bar, Left then Right returns focus to an enabled
/// trigger it started on, and the open menu follows the focus.
pub proof fn lemma_left_then_right_returns(
    state: MenubarState,
    enabled: Seq<bool>,
    left: MenubarState,
    right: MenubarState,
)
    requires
        state.focused matches Some(c) && c < enabled.len() && enabled[c as int],
        menubar_step(state, enabled, MenubarCommand::Left, Direction::LeftToRight, left),
        menubar_step(left, enabled, MenubarCommand::Right, Direction::LeftToRight, right),
    ensures
        right.focused == state.focused,
        state.open is Some ==> right.open == state.focused,
        state.open is None ==> right.open is None,
{
    let c = state.focused->0 as int;
    let t = left.focused->0 as int;
    crate::roving::lemma_nearest_back_and_forth(enabled, c, t);
    crate::roving::lemma_nearest_unique(enabled, t, true, right.focused->0 as int, c);
}

/// Arrow, Home and End moves always land on an enabled trigger when there
/// is one.
pub proof fn lemma_moves_land_on_enabled(
    state: MenubarState,
    enabled: Seq<bool>,
    command: MenubarCommand,
    direction: Direction,
    r: MenubarState,
)
    requires
        command != MenubarCommand::Open && command != MenubarCommand::Close,
        any_enabled(enabled),
        menubar_step(state, enabled, command, direction, r),
    ensures
        r.focused matches Some(t) && t < enabled.len() && enabled[t as int],
{
}

} // verus!
