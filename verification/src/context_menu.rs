//! Context menu decisions: what opens the menu at a press point, what an
//! open menu does with the next press, and where focus goes after each event.
//!
//! The press point itself is carried, never read: the event is generic over
//! the point type, so the caller's coordinates come back exactly as given.

use vstd::prelude::*;
use crate::dropdown_menu::item_focus;
use crate::menu::{menu_item_id, resolved_focus, MenuEntry, MenuEvent, MenuState};
use crate::popover::DismissReason;

verus! {

/// Keys of a context menu's region, its floating content and its menu.
#[derive(Debug, Clone, PartialEq, Eq)]
pub struct ContextMenuIds {
    region: String,
    content: String,
    pub menu: String,
}

impl ContextMenuIds {
    pub closed spec fn region_key(self) -> Seq<char> {
        self.region@
    }

    pub closed spec fn content_key(self) -> Seq<char> {
        self.content@
    }

    pub closed spec fn menu_key(self) -> Seq<char> {
        self.menu@
    }

    /// Keys derived from `key`: `ducktape-context:<key>:region`,
    /// `ducktape-context:<key>:content` and `context:<key>:menu`.
    pub fn new(key: &str) -> (r: ContextMenuIds)
        ensures
            r.region_key() == "ducktape-context:"@ + key@ + ":region"@,
            r.content_key() == "ducktape-context:"@ + key@ + ":content"@,
            r.menu_key() == "context:"@ + key@ + ":menu"@,
    {
        let mut region = String::from_str("ducktape-context:");
        region.append(key);
        region.append(":region");
        let mut content = String::from_str("ducktape-context:");
        content.append(key);
        content.append(":content");
        let mut menu = String::from_str("context:");
        menu.append(key);
        menu.append(":menu");
        ContextMenuIds { region, content, menu }
    }

    /// Key of the region that opens the menu.
    pub fn region(&self) -> (r: &str)
        ensures
            r@ == self.region_key(),
    {
        self.region.as_str()
    }

    /// Key of the floating content.
    pub fn content(&self) -> (r: &str)
        ensures
            r@ == self.content_key(),
    {
        self.content.as_str()
    }
}

/// What the context menu reports: open at a point, close for a reason, or an
/// event of its menu.
#[derive(Debug, Clone, PartialEq, Eq)]
pub enum ContextMenuEvent<P> {
    OpenAt(P),
    Close(DismissReason),
    Menu(MenuEvent),
}

/// `r` is the key `key`, or nothing when there is none.
pub open spec fn key_target(r: Option<String>, key: Option<Seq<char>>) -> bool {
    match key {
        Some(k) => r matches Some(s) && s@ == k,
        None => r is None,
    }
}

impl<P: Copy> ContextMenuEvent<P> {
    /// Whether the menu is open after this event: opening opens it, a close,
    /// an activation or a dismissal closes it, navigation keeps it as it was.
    pub fn open(&self, current: bool) -> (r: bool)
        ensures
            r == match *self {
                ContextMenuEvent::OpenAt(_) => true,
                ContextMenuEvent::Close(_) => false,
                ContextMenuEvent::Menu(MenuEvent::Activated(_)) => false,
                ContextMenuEvent::Menu(MenuEvent::Dismiss) => false,
                ContextMenuEvent::Menu(_) => current,
            },
    {
        match self {
            ContextMenuEvent::OpenAt(_) => true,
            ContextMenuEvent::Close(_) => false,
            ContextMenuEvent::Menu(MenuEvent::Activated(_)) => false,
            ContextMenuEvent::Menu(MenuEvent::Dismiss) => false,
            ContextMenuEvent::Menu(_) => current,
        }
    }

    /// The anchor after this event: the exact point of an opening, otherwise
    /// the current one.
    pub fn anchor(&self, current: Option<P>) -> (r: Option<P>)
        ensures
            r == match *self {
                ContextMenuEvent::OpenAt(point) => Some(point),
                _ => current,
            },
    {
        match self {
            ContextMenuEvent::OpenAt(point) => Some(*point),
            _ => current,
        }
    }

    /// Where focus goes: the focused menu item after opening or moving, the
    /// region after the menu closed, nowhere when focus leaves for another
    /// menu.
    pub fn focus_target(&self, ids: &ContextMenuIds, entries: &[MenuEntry], state: &MenuState) -> (r: Option<String>)
        ensures
            match *self {
                ContextMenuEvent::OpenAt(_) => key_target(r, item_focus(ids.menu_key(), entries@, *state)),
                ContextMenuEvent::Menu(MenuEvent::StateChanged(next)) => key_target(
                    r,
                    item_focus(ids.menu_key(), entries@, next),
                ),
                ContextMenuEvent::Menu(MenuEvent::MoveTopLevel(_)) => r is None,
                _ => r matches Some(k) && k@ == ids.region_key(),
            },
    {
        match self {
            ContextMenuEvent::OpenAt(_) => item_key(ids, entries, state),
            ContextMenuEvent::Menu(MenuEvent::StateChanged(next)) => item_key(ids, entries, next),
            ContextMenuEvent::Menu(MenuEvent::MoveTopLevel(_)) => None,
            _ => Some(ids.region.clone()),
        }
    }
}

fn item_key(ids: &ContextMenuIds, entries: &[MenuEntry], state: &MenuState) -> (r: Option<String>)
    ensures
        key_target(r, item_focus(ids.menu_key(), entries@, *state)),
{
    match resolved_focus(entries, state) {
        Some(found) => Some(menu_item_id(ids.menu.as_str(), found.1.id.as_str(), found.0.as_slice())),
        None => None,
    }
}

/// An input that can open a context menu over its region.
#[derive(Debug, Clone, Copy, PartialEq, Eq, Structural)]
pub enum ContextRequest {
    /// A secondary (right) button press.
    SecondaryPress,
    /// A finger touching down.
    FingerPress,
    /// The context-menu key.
    MenuKey,
    /// Shift with F10.
    ShiftF10,
}

/// Where a requested menu is anchored.
#[derive(Debug, Clone, Copy, PartialEq, Eq, Structural)]
pub enum AnchorSource {
    /// At the pointer or finger position.
    Press,
    /// At the center of the region.
    RegionCenter,
}

/// Whether `request` opens the menu over its region, and where. Nothing opens
/// a disabled or already open menu, or an input another widget captured;
/// finger presses open only with touch enabled; the keys open only a focused
/// region. The caller then opens only when the anchor lies inside the region.
pub fn open_request(
    request: ContextRequest,
    disabled: bool,
    open: bool,
    captured: bool,
    touch: bool,
    region_focused: bool,
) -> (r: Option<AnchorSource>)
    ensures
        r == if disabled || open || captured {
            None
        } else {
            match request {
                ContextRequest::SecondaryPress => Some(AnchorSource::Press),
                ContextRequest::FingerPress => if touch {
                    Some(AnchorSource::Press)
                } else {
                    None
                },
                _ => if region_focused {
                    Some(AnchorSource::RegionCenter)
                } else {
                    None
                },
            }
        },
{
    if disabled || open || captured {
        return None;
    }
    match request {
        ContextRequest::SecondaryPress => Some(AnchorSource::Press),
        ContextRequest::FingerPress => if touch {
            Some(AnchorSource::Press)
        } else {
            None
        },
        ContextRequest::MenuKey | ContextRequest::ShiftF10 => if region_focused {
            Some(AnchorSource::RegionCenter)
        } else {
            None
        },
    }
}

/// A press while the menu is open, as the overlay sees it.
#[derive(Debug, Clone, Copy, PartialEq, Eq, Structural)]
pub struct OverlayPress {
    /// The secondary (right) mouse button.
    pub secondary: bool,
    /// The press landed on the floating content.
    pub in_content: bool,
    /// The press landed on the region.
    pub in_region: bool,
}

/// What the open menu's overlay does with an input.
#[derive(Debug, Clone, Copy, PartialEq, Eq, Structural)]
pub enum OverlayAction {
    /// Re-open at the press point.
    Reanchor,
    /// Close for this reason.
    Close(DismissReason),
}

/// Escape closes; a press on the content is the content's; a secondary
/// press on the region re-anchors; any other press closes as outside.
pub fn overlay_action(escape: bool, press: Option<OverlayPress>) -> (r: Option<OverlayAction>)
    ensures
        r == if escape {
            Some(OverlayAction::Close(DismissReason::Escape))
        } else {
            match press {
                None => None,
                Some(p) => if p.in_content {
                    None
                } else if p.secondary && p.in_region {
                    Some(OverlayAction::Reanchor)
                } else {
                    Some(OverlayAction::Close(DismissReason::Outside))
                },
            }
        },
{
    if escape {
        return Some(OverlayAction::Close(DismissReason::Escape));
    }
    match press {
        None => None,
        Some(p) => if p.in_content {
            None
        } else if p.secondary && p.in_region {
            Some(OverlayAction::Reanchor)
        } else {
            Some(OverlayAction::Close(DismissReason::Outside))
        },
    }
}

} // verus!
