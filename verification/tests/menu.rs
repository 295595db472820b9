use ducktape::direction::Direction;
use ducktape::dropdown_menu::{DropdownFocus, DropdownMenuEvent, DropdownMenuIds};
use ducktape::keys::Key;
use ducktape::menu::{
    menu_click,
    menu_command, menu_item_id, reduce_menu, resolved_focus, MenuActivation, MenuActivationKind,
    MenuCommand, MenuEntry, MenuEvent, MenuGroup, MenuItem, MenuItemKind, MenuPath, MenuState,
    TopLevelMove,
};
use ducktape::menubar::{
    logical_to_visual_map, menubar_child_event, menubar_command, menubar_enabled, menubar_open_index,
    menubar_tab_stop, menubar_trigger_id, reduce_menubar, MenubarCommand,
    MenubarEvent, MenubarMenu, MenubarState,
};
use ducktape::popover::DismissReason;

fn entries() -> Vec<MenuEntry> {
    vec![
        MenuItem::new("new", "New").shortcut("⌘N").into(),
        MenuItem::new("save", "Save").disabled(true).into(),
        MenuItem::new("theme", "Theme")
            .submenu(vec![
                MenuItem::new("light", "Light").radio("theme", true).into(),
                MenuItem::new("dark", "Dark").radio("theme", false).into(),
            ])
            .into(),
        MenuItem::new("autosave", "Autosave").checkbox(true).into(),
    ]
}

#[test]
fn menu_navigation_wraps_and_skips_disabled_items() {
    let entries = entries();
    let mut state = MenuState::initial(&entries);
    assert_eq!(state.focused, Some(vec![0]));
    state = reduce_menu(&state, &entries, MenuCommand::Next).state;
    assert_eq!(state.focused, Some(vec![2]));
    state = reduce_menu(&state, &entries, MenuCommand::Last).state;
    assert_eq!(state.focused, Some(vec![3]));
    state = reduce_menu(&state, &entries, MenuCommand::Next).state;
    assert_eq!(state.focused, Some(vec![0]));
}

#[test]
fn nested_paths_open_close_and_activate() {
    let entries = entries();
    let state = MenuState {
        focused: Some(vec![2]),
        ..MenuState::default()
    };
    let opened = reduce_menu(&state, &entries, MenuCommand::Forward);
    assert_eq!(opened.state.open_submenus, vec![vec![2]]);
    assert_eq!(opened.state.focused, Some(vec![2, 0]));
    let activated = reduce_menu(&opened.state, &entries, MenuCommand::Activate);
    assert!(matches!(
        activated.event,
        Some(MenuEvent::Activated(MenuActivation {
            id,
            kind: MenuActivationKind::Radio { group },
            ..
        })) if id == "light" && group == "theme"
    ));
    let closed = reduce_menu(&opened.state, &entries, MenuCommand::Back);
    assert_eq!(closed.state.open_submenus, Vec::<MenuPath>::new());
    assert_eq!(closed.state.focused, Some(vec![2]));
}

#[test]
fn typeahead_matches_visible_enabled_labels() {
    let entries = entries();
    let state = MenuState::initial(&entries);
    let state = reduce_menu(&state, &entries, MenuCommand::Character('a')).state;
    assert_eq!(state.focused, Some(vec![3]));
    assert_eq!(state.typeahead, "a");
    let cleared = reduce_menu(&state, &entries, MenuCommand::ClearTypeahead).state;
    assert!(cleared.typeahead.is_empty());
}

#[test]
fn repeated_typeahead_character_cycles_matches() {
    let entries = vec![MenuEntry::item("apple", "Apple"), MenuEntry::item("apricot", "Apricot")];
    let state = reduce_menu(&MenuState::initial(&entries), &entries, MenuCommand::Character('a')).state;
    assert_eq!(state.focused, Some(vec![1]));
    let state = reduce_menu(&state, &entries, MenuCommand::Character('a')).state;
    assert_eq!(state.focused, Some(vec![0]));
    assert_eq!(state.typeahead, "a");
}

#[test]
fn a_new_typeahead_character_replaces_the_previous_one() {
    let entries = entries();
    let state = reduce_menu(&MenuState::initial(&entries), &entries, MenuCommand::Character('a')).state;
    let state = reduce_menu(&state, &entries, MenuCommand::Character('b')).state;
    assert_eq!(state.typeahead, "b");
}

#[test]
fn direction_swaps_submenu_arrows() {
    let right = Key::ArrowRight;
    let left = Key::ArrowLeft;
    assert_eq!(menu_command(&right, Direction::LeftToRight), Some(MenuCommand::Forward));
    assert_eq!(menu_command(&left, Direction::RightToLeft), Some(MenuCommand::Forward));
    assert_eq!(menu_command(&left, Direction::LeftToRight), Some(MenuCommand::Back));
}

#[test]
fn stable_ids_follow_caller_item_ids_across_reordering() {
    assert_eq!(menu_item_id("file", "open", &[1, 2]), menu_item_id("file", "open", &[4]));
    assert_ne!(menu_item_id("file", "open", &[1, 2]), menu_item_id("file", "close", &[1, 2]));
}

#[test]
fn resolved_menu_focus_matches_its_rendered_tab_stop() {
    let entries = vec![
        MenuItem::new("disabled", "Disabled")
            .disabled(true)
            .submenu(vec![MenuEntry::item("hidden", "Hidden")])
            .into(),
        MenuEntry::item("enabled", "Enabled"),
    ];
    let default = MenuState::default();
    let stale = MenuState {
        focused: Some(vec![0, 0]),
        open_submenus: vec![vec![0]],
        ..MenuState::default()
    };
    assert_eq!(resolved_focus(&entries, &default).map(|(path, _)| path), Some(vec![1]));
    assert_eq!(resolved_focus(&entries, &stale).map(|(path, _)| path), Some(vec![1]));
}

#[test]
fn top_level_navigation_wraps_skips_disabled_and_keeps_open() {
    let state = MenubarState {
        focused: Some(0),
        open: Some(0),
    };
    let enabled = [true, false, true];
    let next = reduce_menubar(&state, &enabled, MenubarCommand::Right, Direction::LeftToRight);
    assert_eq!(next.focused, Some(2));
    assert_eq!(next.open, Some(2));
    let wrapped = reduce_menubar(&next, &enabled, MenubarCommand::Right, Direction::LeftToRight);
    assert_eq!(wrapped.focused, Some(0));
    assert_eq!(wrapped.open, Some(0));
}

#[test]
fn rtl_reverses_physical_left_and_right() {
    let state = MenubarState {
        focused: Some(0),
        open: None,
    };
    let enabled = [true, true, true];
    assert_eq!(
        reduce_menubar(&state, &enabled, MenubarCommand::Right, Direction::RightToLeft).focused,
        Some(2)
    );
    assert_eq!(
        reduce_menubar(&state, &enabled, MenubarCommand::Left, Direction::RightToLeft).focused,
        Some(1)
    );
}

#[test]
fn child_events_focus_items_and_restore_their_trigger() {
    let menus = [MenubarMenu::new("view", "View", vec![MenuEntry::item("zoom", "Zoom")])];
    let state = MenuState {
        focused: Some(vec![0]),
        ..MenuState::default()
    };
    let changed = MenubarEvent::Menu {
        menu_id: "view".into(),
        event: MenuEvent::StateChanged(state),
    };
    let activated = MenubarEvent::Menu {
        menu_id: "view".into(),
        event: MenuEvent::Activated(MenuActivation {
            id: "zoom".into(),
            path: vec![0],
            kind: MenuActivationKind::Action,
        }),
    };

    assert_eq!(
        changed.focus_target("app", &menus, &MenuState::default()).iter().count(),
        1
    );
    assert_eq!(
        activated.focus_target("app", &menus, &MenuState::default()).iter().count(),
        1
    );
}

#[test]
fn actions_close_while_navigation_keeps_the_menu_open() {
    let state = MenuState::default();
    assert!(DropdownMenuEvent::Menu(MenuEvent::StateChanged(state.clone())).open(true));
    assert!(!DropdownMenuEvent::Menu(MenuEvent::Dismiss).open(true));
    assert!(!DropdownMenuEvent::Menu(MenuEvent::Activated(MenuActivation {
        id: "save".into(),
        path: vec![0],
        kind: MenuActivationKind::Action,
    }))
    .open(true));
}

#[test]
fn groups_labels_and_separators_contribute_only_their_items() {
    let entries = vec![
        MenuGroup::new("editing", vec![MenuEntry::item("copy", "Copy"), MenuEntry::separator("s")])
            .label("Editing")
            .into(),
        MenuEntry::label("account-label", "Account"),
        MenuEntry::item("logout", "Log out"),
    ];
    let state = MenuState::initial(&entries);
    assert_eq!(state.focused, Some(vec![0, 0]));
    let state = reduce_menu(&state, &entries, MenuCommand::Next).state;
    assert_eq!(state.focused, Some(vec![2]));
}

#[test]
fn forward_on_a_plain_item_moves_to_the_next_menu_and_escape_dismisses() {
    let entries = entries();
    let state = MenuState::initial(&entries);
    let forward = reduce_menu(&state, &entries, MenuCommand::Forward);
    assert_eq!(forward.event, Some(MenuEvent::MoveTopLevel(TopLevelMove::Next)));
    assert_eq!(forward.state, state);
    let back = reduce_menu(&state, &entries, MenuCommand::Back);
    assert_eq!(back.event, Some(MenuEvent::MoveTopLevel(TopLevelMove::Previous)));
    let escape = reduce_menu(&state, &entries, MenuCommand::Escape);
    assert_eq!(escape.event, Some(MenuEvent::Dismiss));
}

#[test]
fn activating_a_checkbox_reports_the_toggled_value() {
    let entries = entries();
    let state = MenuState {
        focused: Some(vec![3]),
        ..MenuState::default()
    };
    let activated = reduce_menu(&state, &entries, MenuCommand::Activate);
    assert_eq!(
        activated.event,
        Some(MenuEvent::Activated(MenuActivation {
            id: "autosave".into(),
            path: vec![3],
            kind: MenuActivationKind::Checkbox { checked: false },
        }))
    );
    let disabled = MenuState {
        focused: Some(vec![1]),
        ..MenuState::default()
    };
    assert_eq!(reduce_menu(&disabled, &entries, MenuCommand::Activate).event, None);
}

#[test]
fn back_after_forward_restores_the_submenu_trigger() {
    let entries = entries();
    let state = MenuState {
        focused: Some(vec![2]),
        ..MenuState::default()
    };
    let opened = reduce_menu(&state, &entries, MenuCommand::Forward).state;
    let closed = reduce_menu(&opened, &entries, MenuCommand::Back).state;
    assert_eq!(closed.focused, state.focused);
    assert_eq!(closed.open_submenus, state.open_submenus);
}

#[test]
fn control_characters_leave_typeahead_alone() {
    let entries = entries();
    let state = MenuState::initial(&entries);
    let same = reduce_menu(&state, &entries, MenuCommand::Character('\u{7}'));
    assert_eq!(same.state, state);
    assert_eq!(same.event, None);
}

#[test]
fn item_keys_and_builders_keep_what_they_are_given() {
    assert_eq!(menu_item_id("file", "open", &[]), "ducktape-menu:file:open");
    let item = MenuItem::new("id", "Label").inset(true).shortcut("⌘I");
    assert!(item.inset);
    assert_eq!(item.shortcut.as_deref(), Some("⌘I"));
    assert_eq!(item.kind, MenuItemKind::Action);
}

#[test]
fn menubar_commands_and_triggers_follow_the_keyboard() {
    assert_eq!(menubar_command(&Key::ArrowDown), Some(MenubarCommand::Open));
    assert_eq!(menubar_command(&Key::Enter), None);
    assert_eq!(menubar_trigger_id("app", 12), "ducktape-menubar:app:trigger:12");
    assert_eq!(logical_to_visual_map(3, Direction::RightToLeft), [2, 1, 0]);
    assert_eq!(logical_to_visual_map(3, Direction::LeftToRight), [0, 1, 2]);
}

#[test]
fn menubar_left_then_right_returns_and_close_keeps_focus() {
    let state = MenubarState {
        focused: Some(2),
        open: Some(2),
    };
    let enabled = [true, false, true, true];
    let left = reduce_menubar(&state, &enabled, MenubarCommand::Left, Direction::LeftToRight);
    assert_eq!(left.focused, Some(0));
    let right = reduce_menubar(&left, &enabled, MenubarCommand::Right, Direction::LeftToRight);
    assert_eq!(right, state);
    let closed = reduce_menubar(&state, &enabled, MenubarCommand::Close, Direction::LeftToRight);
    assert_eq!(closed.focused, Some(2));
    assert_eq!(closed.open, None);
    let nothing = reduce_menubar(&state, &[false, false], MenubarCommand::Left, Direction::LeftToRight);
    assert_eq!(nothing, MenubarState { focused: None, open: None });
}

#[test]
fn menubar_initial_state_and_child_events() {
    let menus = [
        MenubarMenu::new("file", "File", vec![]).disabled(true),
        MenubarMenu::new("edit", "Edit", vec![MenuEntry::item("copy", "Copy")]),
    ];
    let state = MenubarState::initial(&menus);
    assert_eq!(state, MenubarState { focused: Some(1), open: None });
    let open = MenubarState { focused: Some(1), open: Some(1) };
    let dismissed = MenubarEvent::Menu {
        menu_id: "edit".into(),
        event: MenuEvent::Dismiss,
    };
    assert_eq!(dismissed.state(&open), state);
    assert_eq!(
        dismissed.focus_target("app", &menus, &MenuState::default()),
        Some("ducktape-menubar:app:trigger:1".to_string())
    );
    let opened = MenubarEvent::StateChanged(open);
    assert_eq!(
        opened.focus_target("app", &menus, &MenuState::default()),
        Some("ducktape-menu:menubar:app:edit:copy".to_string())
    );
}

#[test]
fn dropdown_focus_goes_to_items_after_opening_and_trigger_after_closing() {
    let ids = DropdownMenuIds::new("file");
    assert_eq!(ids.menu, "dropdown:file:menu");
    assert_eq!(ids.popover(), "dropdown:file");
    let entries = entries();
    let state = MenuState::default();
    let opened = DropdownMenuEvent::OpenChanged { open: true, reason: None };
    assert_eq!(
        opened.focus_target(&ids, &entries, &state),
        Some(DropdownFocus::Item("ducktape-menu:dropdown:file:menu:new".to_string()))
    );
    let closed = DropdownMenuEvent::OpenChanged { open: false, reason: None };
    assert_eq!(
        closed.focus_target(&ids, &entries, &state),
        Some(DropdownFocus::Trigger(DismissReason::Outside))
    );
    assert_eq!(
        DropdownMenuEvent::Menu(MenuEvent::Dismiss).focus_target(&ids, &entries, &state),
        Some(DropdownFocus::Trigger(DismissReason::Trigger))
    );
}

#[test]
fn menubar_tab_stop_and_open_menu_follow_enabled_triggers() {
    let menus = vec![
        MenubarMenu::new("file", "File", vec![]),
        MenubarMenu::new("edit", "Edit", vec![]).disabled(true),
        MenubarMenu::new("view", "View", vec![]),
    ];
    let enabled = menubar_enabled(&menus, false);
    assert_eq!(enabled, vec![true, false, true]);
    assert_eq!(menubar_enabled(&menus, true), vec![false, false, false]);
    let focused_view = MenubarState { focused: Some(2), open: Some(2) };
    assert_eq!(menubar_tab_stop(&focused_view, &enabled), Some(2));
    assert_eq!(menubar_open_index(&focused_view, &enabled), Some(2));
    let on_disabled = MenubarState { focused: Some(1), open: Some(1) };
    assert_eq!(menubar_tab_stop(&on_disabled, &enabled), Some(0));
    assert_eq!(menubar_open_index(&on_disabled, &enabled), None);
    assert_eq!(menubar_tab_stop(&on_disabled, &[false, false, false]), None);
}

#[test]
fn child_menu_events_move_or_close_the_bar() {
    let enabled = [true, false, true];
    let state = MenubarState { focused: Some(0), open: Some(0) };
    assert_eq!(
        menubar_child_event(&state, &enabled, &MenuEvent::MoveTopLevel(TopLevelMove::Next), Direction::LeftToRight),
        Some(MenubarState { focused: Some(2), open: Some(2) })
    );
    assert_eq!(
        menubar_child_event(&state, &enabled, &MenuEvent::MoveTopLevel(TopLevelMove::Next), Direction::RightToLeft),
        Some(MenubarState { focused: Some(2), open: Some(2) })
    );
    let last = MenubarState { focused: Some(2), open: Some(2) };
    assert_eq!(
        menubar_child_event(&last, &enabled, &MenuEvent::MoveTopLevel(TopLevelMove::Previous), Direction::LeftToRight),
        Some(MenubarState { focused: Some(0), open: Some(0) })
    );
    assert_eq!(
        menubar_child_event(&state, &enabled, &MenuEvent::Dismiss, Direction::LeftToRight),
        Some(MenubarState { focused: Some(0), open: None })
    );
    let moved = MenuState::initial(&entries());
    assert_eq!(
        menubar_child_event(&state, &enabled, &MenuEvent::StateChanged(moved), Direction::LeftToRight),
        None
    );
}

#[test]
fn menu_entries_clone_whole_trees() {
    let entries = entries();
    assert_eq!(entries.clone(), entries);
}

#[test]
fn clicking_an_item_focuses_it_then_activates_it() {
    let entries = entries();
    let state = MenuState::initial(&entries);
    assert!(matches!(
        menu_click(&state, &entries, &[3]),
        MenuEvent::Activated(MenuActivation { id, .. }) if id == "autosave"
    ));
    // A submenu trigger opens its submenu and moves focus into it.
    match menu_click(&state, &entries, &[2]) {
        MenuEvent::StateChanged(next) => {
            assert_eq!(next.open_submenus, vec![vec![2]]);
            assert_eq!(next.focused, Some(vec![2, 0]));
        }
        other => panic!("unexpected click event {other:?}"),
    }
    // Clicking a disabled item reports the state as it was.
    assert_eq!(menu_click(&state, &entries, &[1]), MenuEvent::StateChanged(state.clone()));
}
