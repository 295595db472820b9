use ducktape::command::{
    command_active, command_group, command_group_without_heading, command_input_id, command_item,
    command_item_id, command_move, command_submission, command_visible_groups, filter_items, navigation_target, normalize_query, CommandEvent, CommandGroup,
    CommandMove, CommandState,
};
use ducktape::keys::Key;

fn groups() -> Vec<CommandGroup<u8>> {
    vec![
        command_group(
            "Suggestions",
            vec![
                command_item("calendar", 1, "Open Calendar")
                    .keywords(&["date", "schedule"])
                    .shortcut("⌘K"),
                command_item("settings", 2, "Settings")
                    .keywords(&["preferences"])
                    .disabled(true),
            ],
        ),
        command_group(
            "People",
            vec![command_item("zoe", 3, "Zoë Kravitz").keywords(&["actor", "person"])],
        ),
    ]
}

#[test]
fn filtering_uses_labels_and_keywords_without_reordering_groups() {
    let groups = groups();
    let label = filter_items(&groups, "  OPEN   calendar ");
    assert_eq!(label.len(), 1);
    assert_eq!((label[0].group, label[0].item), (0, 0));

    let keyword = filter_items(&groups, "person zoë");
    assert_eq!(keyword.len(), 1);
    assert_eq!(keyword[0].command.id(), "zoe");

    let all = filter_items(&groups, "");
    assert_eq!(
        all.iter().map(|item| item.command.id()).collect::<Vec<_>>(),
        ["calendar", "settings", "zoe"]
    );
}

#[test]
fn normalization_is_unicode_case_aware_and_empty_lists_stay_empty() {
    assert_eq!(normalize_query("  ÅNGSTRÖM\tCAFÉ  "), "ångström café");
    assert!(command_item("unicode", (), "Ångström Café").matches("ÅNGSTRÖM"));
    assert!(filter_items::<()>(&[], "anything").is_empty());
}

#[test]
fn command_navigation_wraps_and_skips_disabled_items() {
    let enabled = [true, false, true, false];
    assert_eq!(navigation_target(Some(0), &enabled, CommandMove::Next), Some(2));
    assert_eq!(navigation_target(Some(2), &enabled, CommandMove::Next), Some(0));
    assert_eq!(navigation_target(Some(0), &enabled, CommandMove::Previous), Some(2));
    assert_eq!(navigation_target(None, &enabled, CommandMove::Previous), Some(2));
    assert_eq!(navigation_target(None, &enabled, CommandMove::First), Some(0));
    assert_eq!(navigation_target(None, &enabled, CommandMove::Last), Some(2));
    assert_eq!(navigation_target(None, &[false, false], CommandMove::Next), None);
    assert_eq!(navigation_target(None, &[], CommandMove::Next), None);
}

#[test]
fn controlled_events_update_active_state_and_expose_selection() {
    let mut state = CommandState::new("old");
    state.set_active("calendar");
    assert!(state.apply(&CommandEvent::<u8>::QueryChanged("new".into())));
    assert_eq!(state.query(), "new");
    assert_eq!(state.active(), None);

    let navigate = CommandEvent::<u8>::Navigate {
        item_id: "zoe".into(),
        focus_item: true,
    };
    assert!(state.apply(&navigate));
    assert_eq!(state.active(), Some("zoe"));
    assert_eq!(navigate.item_id(), Some("zoe"));

    let selected = CommandEvent::Selected {
        item_id: "calendar".into(),
        value: 7,
    };
    assert_eq!(selected.selection(), Some(&7));
    assert!(state.apply(&selected));
    assert_eq!(state.active(), Some("calendar"));
}

#[test]
fn ids_are_stable_and_do_not_alias_colon_boundaries() {
    assert_eq!(command_input_id("palette"), command_input_id("palette"));
    assert_eq!(command_item_id("palette", "open"), command_item_id("palette", "open"));
    assert_ne!(command_item_id("a:b", "c"), command_item_id("a", "b:c"));
    assert_ne!(command_item_id("first", "open"), command_item_id("second", "open"));
}

#[test]
fn key_mapping_leaves_native_editing_keys_alone() {
    assert_eq!(command_move(&Key::ArrowDown), Some(CommandMove::Next));
    assert_eq!(command_move(&Key::Home), Some(CommandMove::First));
    assert_eq!(command_move(&Key::Enter), None);
    assert_eq!(command_move(&Key::Character("a".into())), None);
}

#[test]
fn ids_spell_out_lengths_before_each_part() {
    assert_eq!(command_input_id("palette"), "ducktape-command-input:7:palette");
    assert_eq!(command_item_id("a:b", "c"), "ducktape-command-item:3:a:b:1:c");
    assert_eq!(command_item_id("a", "b:c"), "ducktape-command-item:1:a:3:b:c");
}

#[test]
fn repeated_apply_of_the_same_event_reports_no_change() {
    let mut state = CommandState::new("");
    let navigate = CommandEvent::<u8>::Navigate {
        item_id: "zoe".into(),
        focus_item: false,
    };
    assert!(state.apply(&navigate));
    assert!(!state.apply(&navigate));
    state.clear_active();
    assert_eq!(state.active(), None);
}

#[test]
fn disabled_items_stay_in_results_and_headings_are_optional() {
    let group = command_group_without_heading(vec![command_item("x", 0u8, "Export").disabled(true)]);
    assert_eq!(group.heading(), None);
    let groups = [group];
    let results = filter_items(&groups, "exp");
    assert_eq!(results.len(), 1);
    assert!(results[0].command.is_disabled());
    assert!(filter_items(&groups, "import").is_empty());
}

#[test]
fn keys_count_utf8_bytes_of_each_id() {
    assert_eq!(command_input_id("pälette"), "ducktape-command-input:8:pälette");
    assert_eq!(command_item_id("pälette", "ä:b"), "ducktape-command-item:8:pälette:4:ä:b");
}

#[test]
fn active_result_prefers_the_enabled_match_with_the_active_id() {
    let groups = groups();
    let all = filter_items(&groups, "");
    assert_eq!(command_active(&all, Some("zoe")), Some(2));
    // A disabled or missing active ID falls back to the first enabled match.
    assert_eq!(command_active(&all, Some("settings")), Some(0));
    assert_eq!(command_active(&all, Some("missing")), Some(0));
    assert_eq!(command_active(&all, None), Some(0));
    let only_disabled = filter_items(&groups, "preferences");
    assert_eq!(only_disabled.len(), 1);
    assert_eq!(command_active(&only_disabled, None), None);
    assert_eq!(command_submission(&all, Some("zoe")).map(|item| *item.value()), Some(3));
    assert!(command_submission(&only_disabled, Some("settings")).is_none());
}

#[test]
fn groups_without_matches_are_not_shown() {
    let groups = groups();
    assert_eq!(command_visible_groups(&filter_items(&groups, "")), vec![0, 1]);
    assert_eq!(command_visible_groups(&filter_items(&groups, "person")), vec![1]);
    assert!(command_visible_groups(&filter_items(&groups, "nothing here")).is_empty());
}
