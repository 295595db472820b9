use ducktape::direction::Direction;
use ducktape::keys::Key;
use ducktape::navigation_menu::{
    navigation_items_within, navigation_open_index, navigation_tab_stop,
    activate_at, logical_to_visual_map, navigation_menu_command, navigation_menu_content_id,
    navigation_menu_trigger_id, reduce_navigation_menu, update_hover, HoverIntent, HoverOutcome,
    NavigationMenuCommand, NavigationMenuEvent,
    NavigationMenuFocus, NavigationMenuItemInfo, NavigationMenuOrientation, NavigationMenuState,
};

fn items() -> Vec<NavigationMenuItemInfo> {
    vec![
        NavigationMenuItemInfo::link("home"),
        NavigationMenuItemInfo::disclosure("products").disabled(true),
        NavigationMenuItemInfo::disclosure("docs"),
    ]
}

#[test]
fn reducer_skips_disabled_wraps_and_preserves_open_switching() {
    let state = NavigationMenuState {
        focused: Some(0),
        open: Some(0),
        active: None,
    };
    let next = reduce_navigation_menu(&state, &items(), NavigationMenuCommand::Next);
    assert_eq!(next.state().focused, Some(2));
    assert_eq!(next.state().open, Some(2));
    assert_eq!(next.focus(), Some(NavigationMenuFocus::Trigger(2)));

    let wrapped = reduce_navigation_menu(next.state(), &items(), NavigationMenuCommand::Next);
    assert_eq!(wrapped.state().focused, Some(0));
    assert_eq!(wrapped.state().open, None);
}

#[test]
fn link_activation_sets_active_route_and_disclosure_toggles() {
    let state = NavigationMenuState::initial(&items());
    let link = reduce_navigation_menu(&state, &items(), NavigationMenuCommand::Activate);
    assert!(matches!(
        link,
        NavigationMenuEvent::LinkActivated { ref id, .. } if id == "home"
    ));
    assert_eq!(link.state().active.as_deref(), Some("home"));

    let state = NavigationMenuState {
        focused: Some(2),
        ..NavigationMenuState::default()
    };
    let open = reduce_navigation_menu(&state, &items(), NavigationMenuCommand::Activate);
    assert_eq!(open.state().open, Some(2));
    let close = reduce_navigation_menu(open.state(), &items(), NavigationMenuCommand::Activate);
    assert_eq!(close.state().open, None);
}

#[test]
fn down_enters_content_and_close_restores_the_stable_trigger() {
    let state = NavigationMenuState {
        focused: Some(2),
        ..NavigationMenuState::default()
    };
    let open = reduce_navigation_menu(&state, &items(), NavigationMenuCommand::OpenContent);
    assert_eq!(open.focus(), Some(NavigationMenuFocus::Content(2)));
    assert_eq!(open.state().open, Some(2));
    let close = reduce_navigation_menu(open.state(), &items(), NavigationMenuCommand::CloseContent);
    assert_eq!(close.focus(), Some(NavigationMenuFocus::Trigger(2)));
    assert_eq!(navigation_menu_trigger_id("main", 2), navigation_menu_trigger_id("main", 2));
    assert_ne!(navigation_menu_trigger_id("main", 2), navigation_menu_content_id("main", 2));
}

#[test]
fn close_content_falls_back_when_the_open_item_was_removed() {
    let state = NavigationMenuState {
        focused: Some(2),
        open: Some(2),
        active: None,
    };
    let items = [NavigationMenuItemInfo::link("home")];

    let closed = reduce_navigation_menu(&state, &items, NavigationMenuCommand::CloseContent);

    assert_eq!(closed.state().focused, Some(0));
    assert_eq!(closed.state().open, None);
    assert_eq!(closed.focus(), Some(NavigationMenuFocus::Trigger(0)));
}

#[test]
fn orientation_and_direction_map_physical_keys() {
    let left = Key::ArrowLeft;
    let down = Key::ArrowDown;
    assert_eq!(
        navigation_menu_command(&left, NavigationMenuOrientation::Horizontal, Direction::LeftToRight, false),
        Some(NavigationMenuCommand::Previous)
    );
    assert_eq!(
        navigation_menu_command(&left, NavigationMenuOrientation::Horizontal, Direction::RightToLeft, false),
        Some(NavigationMenuCommand::Next)
    );
    assert_eq!(
        navigation_menu_command(&down, NavigationMenuOrientation::Horizontal, Direction::LeftToRight, false),
        Some(NavigationMenuCommand::OpenContent)
    );
    assert_eq!(
        navigation_menu_command(&down, NavigationMenuOrientation::Vertical, Direction::LeftToRight, false),
        Some(NavigationMenuCommand::Next)
    );
}

#[test]
fn every_disabled_item_clears_focus_and_open_content() {
    let state = NavigationMenuState {
        focused: Some(0),
        open: Some(0),
        active: Some("home".into()),
    };
    let items = [NavigationMenuItemInfo::link("home").disabled(true)];
    let event = reduce_navigation_menu(&state, &items, NavigationMenuCommand::Next);
    assert_eq!(
        event,
        NavigationMenuEvent::StateChanged {
            state: NavigationMenuState {
                focused: None,
                open: None,
                active: Some("home".into()),
            },
            focus: None,
        }
    );
}

#[test]
fn keys_use_stable_indices_and_escape_closes_only_open_content() {
    assert_eq!(navigation_menu_trigger_id("main", 2), "ducktape-navigation:main:trigger:2");
    assert_eq!(navigation_menu_content_id("main", 2), "ducktape-navigation:main:content:2");
    assert_eq!(
        navigation_menu_command(&Key::Escape, NavigationMenuOrientation::Vertical, Direction::LeftToRight, true),
        Some(NavigationMenuCommand::CloseContent)
    );
    assert_eq!(
        navigation_menu_command(&Key::Escape, NavigationMenuOrientation::Vertical, Direction::LeftToRight, false),
        None
    );
    assert_eq!(
        navigation_menu_command(&Key::ArrowLeft, NavigationMenuOrientation::Vertical, Direction::RightToLeft, false),
        Some(NavigationMenuCommand::OpenContent)
    );
    assert_eq!(
        logical_to_visual_map(3, NavigationMenuOrientation::Horizontal, Direction::RightToLeft),
        [2, 1, 0]
    );
    assert_eq!(
        logical_to_visual_map(3, NavigationMenuOrientation::Vertical, Direction::RightToLeft),
        [0, 1, 2]
    );
}

#[test]
fn pointer_activation_focuses_then_activates() {
    let state = NavigationMenuState::initial(&items());
    let event = activate_at(&state, &items(), 2);
    assert_eq!(event.state().focused, Some(2));
    assert_eq!(event.state().open, Some(2));
    assert_eq!(event.focus_target("main"), None);
    let first = reduce_navigation_menu(&state, &items(), NavigationMenuCommand::First);
    assert_eq!(first.focus_target("main"), Some("ducktape-navigation:main:trigger:0".to_string()));
}

#[test]
fn hover_intent_uses_one_deadline_and_never_changes_keyboard_focus() {
    let start: u64 = 10_000;
    let delay: u64 = 150;
    let mut hover = HoverIntent::default();
    hover.observe(Some(2), start, delay);
    assert_eq!(hover.deadline(), Some(start + delay));
    assert_eq!(hover.take_ready(start + delay - 1), None);
    assert_eq!(hover.take_ready(start + delay), Some(2));

    let state = NavigationMenuState {
        focused: Some(0),
        ..NavigationMenuState::default()
    };
    let mut next = state.clone();
    next.open = Some(2);
    assert_eq!(next.focused, state.focused);
    hover.observe(None, start + delay, delay);
    assert_eq!(hover.deadline(), None);
}

#[test]
fn pointer_hover_opens_a_disclosure_after_its_delay_only() {
    let items = items();
    let state = NavigationMenuState {
        focused: Some(0),
        ..NavigationMenuState::default()
    };
    let mut hover = HoverIntent::default();
    // A disabled disclosure and a link never start a deadline.
    assert_eq!(update_hover(&mut hover, Some(1), &items, &state, 0, 150), HoverOutcome::Idle);
    assert_eq!(update_hover(&mut hover, Some(0), &items, &state, 0, 150), HoverOutcome::Idle);
    // The enabled disclosure waits, keeps its first deadline, then opens.
    assert_eq!(update_hover(&mut hover, Some(2), &items, &state, 10, 150), HoverOutcome::WakeAt(160));
    assert_eq!(update_hover(&mut hover, Some(2), &items, &state, 100, 150), HoverOutcome::WakeAt(160));
    let mut next = state.clone();
    next.open = Some(2);
    assert_eq!(
        update_hover(&mut hover, Some(2), &items, &state, 160, 150),
        HoverOutcome::Open(NavigationMenuEvent::StateChanged { state: next.clone(), focus: None })
    );
    // Once open, hovering it again asks for nothing.
    assert_eq!(update_hover(&mut hover, Some(2), &items, &next, 170, 150), HoverOutcome::Idle);
    // Leaving cancels a pending deadline.
    let mut other = HoverIntent::default();
    assert_eq!(update_hover(&mut other, Some(2), &items, &state, 0, 150), HoverOutcome::WakeAt(150));
    assert_eq!(update_hover(&mut other, None, &items, &state, 50, 150), HoverOutcome::Idle);
    assert_eq!(other.deadline(), None);
}

#[test]
fn navigation_tab_stop_and_open_disclosure_follow_enabled_items() {
    let items = items();
    let state = NavigationMenuState {
        focused: Some(1),
        open: Some(1),
        ..NavigationMenuState::default()
    };
    assert_eq!(navigation_tab_stop(&state, &items), Some(0));
    assert_eq!(navigation_open_index(&state, &items), None);
    let docs = NavigationMenuState {
        focused: Some(2),
        open: Some(2),
        ..NavigationMenuState::default()
    };
    assert_eq!(navigation_tab_stop(&docs, &items), Some(2));
    assert_eq!(navigation_open_index(&docs, &items), Some(2));
    let link_open = NavigationMenuState {
        open: Some(0),
        ..NavigationMenuState::default()
    };
    assert_eq!(navigation_open_index(&link_open, &items), None);
    let all_off = navigation_items_within(&items, true);
    assert!(all_off.iter().all(|item| item.disabled));
    assert_eq!(all_off[2].id, "docs");
    assert_eq!(navigation_tab_stop(&docs, &all_off), None);
    assert_eq!(navigation_open_index(&docs, &all_off), None);
}
