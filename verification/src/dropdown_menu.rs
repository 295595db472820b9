//! Dropdown menu decisions: when the popover stays open and where focus goes
//! after each event.

use vstd::prelude::*;
use crate::menu::{enabled_of, menu_item_id, resolved_focus, resolved_index, MenuEntry, MenuEvent, MenuState};
use crate::popover::DismissReason;

verus! {

/// Keys of a dropdown's popover and of its menu.
#[derive(Debug, Clone, PartialEq, Eq)]
pub struct DropdownMenuIds {
    popover: String,
    pub menu: String,
}

impl DropdownMenuIds {
    pub closed spec fn popover_key(self) -> Seq<char> {
        self.popover@
    }

    pub closed spec fn menu_key(self) -> Seq<char> {
        self.menu@
    }

    /// Keys derived from `key`: `dropdown:<key>` for the popover and
    /// `dropdown:<key>:menu` for the menu.
    pub fn new(key: &str) -> (r: DropdownMenuIds)
        ensures
            r.popover_key() == "dropdown:"@ + key@,
            r.menu_key() == "dropdown:"@ + key@ + ":menu"@,
    {
        let mut popover = String::from_str("dropdown:");
        popover.append(key);
        let mut menu = String::from_str("dropdown:");
        menu.append(key);
        menu.append(":menu");
        DropdownMenuIds { popover, menu }
    }

    /// Key of the popover.
    pub fn popover(&self) -> (r: &str)
        ensures
            r@ == self.popover_key(),
    {
        self.popover.as_str()
    }
}

/// What the dropdown reports: the popover opening or closing, or an event of
/// its menu.
#[derive(Debug, Clone, PartialEq, Eq)]
pub enum DropdownMenuEvent {
    OpenChanged { open: bool, reason: Option<DismissReason> },
    Menu(MenuEvent),
}

/// Where focus goes after a dropdown event.
#[derive(Debug, Clone, PartialEq, Eq)]
pub enum DropdownFocus {
    /// The menu item with this key.
    Item(String),
    /// The trigger, after the popover closed for this reason.
    Trigger(DismissReason),
}

/// Key of the item that holds focus in the menu `menu_key` shown in `state`.
pub open spec fn item_focus(menu_key: Seq<char>, entries: Seq<MenuEntry>, state: MenuState) -> Option<Seq<char>> {
    match resolved_index(state.model(), entries) {
        Some(i) => Some("ducktape-menu:"@ + menu_key + seq![':'] + enabled_of(state.model(), entries)[i].1.id@),
        None => None,
    }
}

impl DropdownMenuEvent {
    /// Whether the dropdown is open after this event: an activation or a
    /// dismissal inside the menu closes it; navigation keeps it as it was.
    pub fn open(&self, current: bool) -> (r: bool)
        ensures
            r == match *self {
                DropdownMenuEvent::OpenChanged { open, .. } => open,
                DropdownMenuEvent::Menu(MenuEvent::Activated(_)) => false,
                DropdownMenuEvent::Menu(MenuEvent::Dismiss) => false,
                DropdownMenuEvent::Menu(_) => current,
            },
    {
        match self {
            DropdownMenuEvent::OpenChanged { open, .. } => *open,
            DropdownMenuEvent::Menu(MenuEvent::Activated(_)) => false,
            DropdownMenuEvent::Menu(MenuEvent::Dismiss) => false,
            DropdownMenuEvent::Menu(_) => current,
        }
    }

    /// Where focus goes: the focused menu item after opening or moving, the
    /// trigger after closing (an unexplained close counts as an outside
    /// press, a choice or dismissal inside the menu as the trigger).
    pub fn focus_target(&self, ids: &DropdownMenuIds, entries: &[MenuEntry], state: &MenuState) -> (r: Option<
        DropdownFocus,
    >)
        ensures
            match *self {
                DropdownMenuEvent::OpenChanged { open, reason } => if open {
                    item_target(r, item_focus(ids.menu_key(), entries@, *state))
                } else {
                    r == Some(
                        DropdownFocus::Trigger(
                            match reason {
                                Some(reason) => reason,
                                None => DismissReason::Outside,
                            },
                        ),
                    )
                },
                DropdownMenuEvent::Menu(MenuEvent::Activated(_)) => r == Some(
                    DropdownFocus::Trigger(DismissReason::Trigger),
                ),
                DropdownMenuEvent::Menu(MenuEvent::Dismiss) => r == Some(DropdownFocus::Trigger(DismissReason::Trigger)),
                DropdownMenuEvent::Menu(MenuEvent::StateChanged(next)) => item_target(
                    r,
                    item_focus(ids.menu_key(), entries@, next),
                ),
                DropdownMenuEvent::Menu(MenuEvent::MoveTopLevel(_)) => r is None,
            },
    {
        match self {
            DropdownMenuEvent::OpenChanged { open, reason } => {
                if *open {
                    item_focus_of(ids, entries, state)
                } else {
                    Some(
                        DropdownFocus::Trigger(
                            match reason {
                                Some(reason) => *reason,
                                None => DismissReason::Outside,
                            },
                        ),
                    )
                }
            },
            DropdownMenuEvent::Menu(MenuEvent::Activated(_)) => Some(DropdownFocus::Trigger(DismissReason::Trigger)),
            DropdownMenuEvent::Menu(MenuEvent::Dismiss) => Some(DropdownFocus::Trigger(DismissReason::Trigger)),
            DropdownMenuEvent::Menu(MenuEvent::StateChanged(next)) => item_focus_of(ids, entries, next),
            DropdownMenuEvent::Menu(MenuEvent::MoveTopLevel(_)) => None,
        }
    }
}

/// `r` focuses the item with key `key`, or nothing when there is none.
pub open spec fn item_target(r: Option<DropdownFocus>, key: Option<Seq<char>>) -> bool {
    match key {
        Some(k) => r matches Some(DropdownFocus::Item(s)) && s@ == k,
        None => r is None,
    }
}

fn item_focus_of(ids: &DropdownMenuIds, entries: &[MenuEntry], state: &MenuState) -> (r: Option<DropdownFocus>)
    ensures
        item_target(r, item_focus(ids.menu_key(), entries@, *state)),
{
    match resolved_focus(entries, state) {
        Some(found) => Some(DropdownFocus::Item(menu_item_id(ids.menu.as_str(), found.1.id.as_str(), found.0.as_slice()))),
        None => None,
    }
}

} // verus!
