use ducktape::chart::{
    tally_points, tally_slices, validate_series_keys, CartesianKind, ChartError, DataReport,
    DataState, PointFacts,
};
use ducktape::keys::Key;
use ducktape::message_scroller::{
    command_step, CommandAction, CommandFacts, SettleAt, MessageScrollerAlignment,
    keyboard_command, retained_range, MessageScrollerCommand, MessageScrollerItemMeta, RowsChange, ScrollMode, TranscriptRows,
};

#[test]
fn stable_ids_distinguish_prepend_and_append() {
    let old = [MessageScrollerItemMeta::new("a"), MessageScrollerItemMeta::new("b")];
    let changed = [
        MessageScrollerItemMeta::new("older"),
        MessageScrollerItemMeta::new("a"),
        MessageScrollerItemMeta::new("b"),
        MessageScrollerItemMeta::new("new"),
    ];

    assert_eq!(retained_range(&old, &changed), Some((1, 3)));
    assert_eq!(retained_range(&old, &changed[..3]), Some((1, 3)));
    assert_eq!(retained_range(&old, &changed[3..]), None);
}

#[test]
fn empty_history_is_retained_at_the_start_and_reordering_is_not_retention() {
    let changed = [MessageScrollerItemMeta::new("a").scroll_anchor(true)];
    assert!(changed[0].is_scroll_anchor());
    assert_eq!(changed[0].id(), "a");
    assert_eq!(retained_range(&[], &changed), Some((0, 0)));
    let old = [MessageScrollerItemMeta::new("a"), MessageScrollerItemMeta::new("b")];
    let swapped = [MessageScrollerItemMeta::new("a"), MessageScrollerItemMeta::new("c")];
    assert_eq!(retained_range(&old, &swapped), None);
}

#[test]
fn config_rejects_missing_and_duplicate_stable_keys() {
    assert_eq!(validate_series_keys(&[]), Err(ChartError::EmptyConfig));
    assert_eq!(validate_series_keys(&[""]), Err(ChartError::EmptySeriesKey));
    assert_eq!(
        validate_series_keys(&["same", "same"]),
        Err(ChartError::DuplicateSeriesKey("same".to_owned()))
    );
}

#[test]
fn series_keys_are_checked_in_order() {
    assert_eq!(validate_series_keys(&["a", "b"]), Ok(()));
    assert_eq!(validate_series_keys(&["a", "  \t"]), Err(ChartError::EmptySeriesKey));
    assert_eq!(
        validate_series_keys(&["a", "b", "a", " "]),
        Err(ChartError::DuplicateSeriesKey("a".to_owned()))
    );
}

#[test]
fn chart_errors_read_as_messages() {
    assert_eq!(ChartError::InvalidDomain("x").to_string(), "invalid x-axis domain");
    assert_eq!(
        ChartError::DuplicateSeriesKey("k".to_owned()).to_string(),
        "duplicate chart series key: k"
    );
    assert_eq!(ChartError::EmptyConfig.to_string(), "chart config has no series");
}

#[test]
fn data_reports_settle_their_state() {
    let mut report = DataReport::default();
    assert_eq!(report.finish(true).state, DataState::Empty);
    assert_eq!(report.finish(false).state, DataState::Invalid);
    report.accepted_points = 3;
    assert_eq!(report.finish(false).state, DataState::Ready);
    report.unknown_values = 1;
    assert_eq!(report.finish(false).state, DataState::Partial);
    assert_eq!(CartesianKind::default(), CartesianKind::Line { points: true });
}

fn facts(x: f32, unknown_values: usize, values: &[Option<f32>]) -> PointFacts {
    PointFacts {
        x_finite: x.is_finite(),
        unknown_values,
        values: values.iter().map(|value| value.map(f32::is_finite)).collect(),
    }
}

#[test]
fn invalid_points_and_values_are_reported_and_never_kept() {
    let points = [
        facts(f32::NAN, 0, &[Some(1.0)]),
        facts(1.0, 0, &[Some(f32::INFINITY)]),
    ];
    let (kept, report) = tally_points(&points);
    assert!(kept.is_empty());
    assert_eq!(report.state, DataState::Invalid);
    assert_eq!(report.accepted_points, 0);
    assert_eq!(report.dropped_points, 2);
    assert_eq!(report.dropped_values, 1);
    assert_eq!(report.unknown_values, 0);
}

#[test]
fn partial_points_keep_their_positions_and_count_every_drop() {
    let points = [
        facts(0.0, 1, &[Some(1.0), None]),
        facts(f32::INFINITY, 3, &[Some(2.0), Some(2.0)]),
        facts(2.0, 0, &[None, None]),
        facts(3.0, 0, &[Some(f32::NAN), Some(4.0)]),
    ];
    let (kept, report) = tally_points(&points);
    assert_eq!(kept, vec![0, 3]);
    assert_eq!(
        report,
        DataReport {
            state: DataState::Partial,
            accepted_points: 2,
            dropped_points: 2,
            dropped_values: 1,
            unknown_values: 1,
        }
    );
    let (kept, report) = tally_points(&[facts(1.0, 0, &[Some(1.0)])]);
    assert_eq!(kept, vec![0]);
    assert_eq!(report.state, DataState::Ready);
    let (kept, report) = tally_points(&[]);
    assert!(kept.is_empty());
    assert_eq!(report.state, DataState::Empty);
}

#[test]
fn pie_values_keep_positive_finite_slices_in_series_order() {
    let (kept, report) = tally_slices(&[Some(true), Some(false), None, Some(true)], 2, false);
    assert_eq!(kept, vec![0, 3]);
    assert_eq!(
        report,
        DataReport {
            state: DataState::Partial,
            accepted_points: 2,
            dropped_points: 0,
            dropped_values: 1,
            unknown_values: 2,
        }
    );
    let (kept, report) = tally_slices(&[Some(false)], 0, false);
    assert!(kept.is_empty());
    assert_eq!(report.state, DataState::Invalid);
    let (_, report) = tally_slices(&[None], 0, true);
    assert_eq!(report.state, DataState::Empty);
}

fn rows(ids: &[(&str, bool)]) -> Vec<MessageScrollerItemMeta> {
    ids.iter()
        .map(|(id, anchor)| MessageScrollerItemMeta::new(id).scroll_anchor(*anchor))
        .collect()
}

fn transcript(ids: &[(&str, bool)], handled: &[&str]) -> TranscriptRows {
    TranscriptRows {
        items: rows(ids),
        handled_anchor_ids: handled.iter().map(|id| id.to_string()).collect(),
        unread_count: 0,
        pending_unread_count: 0,
    }
}

#[test]
fn first_rows_pick_no_anchor_and_count_nothing() {
    let mut state = transcript(&[], &[]);
    let change = state.sync(rows(&[("a", true)]), &ScrollMode::Free, false, false, false, false);
    assert_eq!(change, RowsChange { new_anchor: None, preserve_visible_row: false });
    assert_eq!(state.items, rows(&[("a", true)]));
    assert_eq!(state.unread_count, 0);
}

#[test]
fn appended_anchor_is_targeted_once_and_counted_unread_while_away() {
    let mut state = transcript(&[("a", false), ("b", false)], &["gone"]);
    let next = rows(&[("a", false), ("b", false), ("c", true), ("d", false)]);
    let change = state.sync(next.clone(), &ScrollMode::Free, false, true, true, false);
    assert_eq!(change, RowsChange { new_anchor: Some(2), preserve_visible_row: false });
    assert_eq!(state.unread_count, 2);
    assert_eq!(state.pending_unread_count, 0);
    assert_eq!(state.handled_anchor_ids, vec!["c".to_string()]);
    // The same rows again pick nothing.
    let again = state.sync(next, &ScrollMode::Free, false, true, true, false);
    assert_eq!(again.new_anchor, None);
    assert_eq!(state.unread_count, 2);
}

#[test]
fn promoting_an_existing_row_to_anchor_is_picked_once() {
    let mut state = transcript(&[("a", false), ("b", false)], &[]);
    let promoted = rows(&[("a", false), ("b", true)]);
    let change = state.sync(promoted.clone(), &ScrollMode::Free, false, true, false, false);
    assert_eq!(change.new_anchor, Some(1));
    assert_eq!(state.handled_anchor_ids, vec!["b".to_string()]);
    assert_eq!(state.sync(promoted, &ScrollMode::Free, false, true, false, false).new_anchor, None);
}

#[test]
fn following_with_auto_scroll_ignores_a_batch_of_anchors() {
    let mut state = transcript(&[("a", false)], &[]);
    let change = state.sync(
        rows(&[("a", false), ("b", true), ("c", true)]),
        &ScrollMode::Following,
        true,
        true,
        false,
        false,
    );
    assert_eq!(change, RowsChange { new_anchor: None, preserve_visible_row: false });
    assert_eq!(state.unread_count, 0);
    assert_eq!(state.pending_unread_count, 0);
    // Without auto-scroll the first appended anchor is still picked.
    let mut state = transcript(&[("a", false)], &[]);
    let change = state.sync(
        rows(&[("a", false), ("b", true), ("c", true)]),
        &ScrollMode::Following,
        false,
        true,
        false,
        false,
    );
    assert_eq!(change.new_anchor, Some(1));
    assert_eq!(state.unread_count, 2);
}

#[test]
fn free_reader_at_the_end_keeps_its_row_and_defers_unread() {
    let mut state = transcript(&[("a", false)], &[]);
    let change = state.sync(rows(&[("a", false), ("b", false)]), &ScrollMode::Free, false, true, false, false);
    assert_eq!(change, RowsChange { new_anchor: None, preserve_visible_row: true });
    assert_eq!(state.unread_count, 0);
    assert_eq!(state.pending_unread_count, 1);
}

#[test]
fn prepends_and_pending_targets_pick_no_anchor() {
    let mut state = transcript(&[("a", false)], &[]);
    let change = state.sync(
        rows(&[("z", false), ("a", false), ("c", true)]),
        &ScrollMode::Free,
        false,
        true,
        true,
        false,
    );
    assert_eq!(change.new_anchor, None);
    let mut state = transcript(&[("a", false)], &[]);
    let change = state.sync(rows(&[("a", false), ("c", true)]), &ScrollMode::Free, false, true, true, true);
    assert_eq!(change, RowsChange { new_anchor: None, preserve_visible_row: false });
    assert_eq!(state.unread_count, 1);
}

#[test]
fn handled_anchors_of_removed_rows_are_forgotten() {
    let mut state = transcript(&[("a", true), ("b", false)], &["a", "gone"]);
    let change = state.sync(rows(&[("a", true), ("b", false)]), &ScrollMode::Free, false, true, false, false);
    assert_eq!(change.new_anchor, None);
    assert_eq!(state.handled_anchor_ids, vec!["a".to_string()]);
}

#[test]
fn transcript_keyboard_commands_use_native_scroll_semantics() {
    assert_eq!(keyboard_command(&Key::Space, true), Some(MessageScrollerCommand::PageUp));
    assert_eq!(keyboard_command(&Key::Space, false), Some(MessageScrollerCommand::PageDown));
    assert_eq!(keyboard_command(&Key::Home, false), Some(MessageScrollerCommand::Start));
    assert_eq!(keyboard_command(&Key::End, true), Some(MessageScrollerCommand::End));
    assert_eq!(keyboard_command(&Key::ArrowUp, false), Some(MessageScrollerCommand::LineUp));
    assert_eq!(keyboard_command(&Key::Enter, false), None);
}

fn scroller_facts() -> CommandFacts {
    CommandFacts {
        initialized: true,
        spacer_present: false,
        can_scroll_start: true,
        can_scroll_end: true,
        auto_scroll: true,
        target_known: true,
    }
}

#[test]
fn scroll_commands_decide_mode_unread_and_settling() {
    let facts = scroller_facts();
    let anchored = ScrollMode::Anchored("a".to_string());
    assert_eq!(
        command_step(&anchored, (3, 2), facts, &MessageScrollerCommand::End),
        (
            ScrollMode::Following,
            0,
            0,
            CommandAction::Snap { to_end: true, settle: Some(SettleAt::End), remeasure: false }
        )
    );
    assert_eq!(
        command_step(&ScrollMode::Following, (3, 2), CommandFacts { spacer_present: true, ..facts }, &MessageScrollerCommand::Start),
        (
            ScrollMode::Free,
            3,
            2,
            CommandAction::Snap { to_end: false, settle: Some(SettleAt::Start), remeasure: true }
        )
    );
    assert_eq!(
        command_step(&ScrollMode::Free, (0, 0), facts, &MessageScrollerCommand::PageDown),
        (
            ScrollMode::Free,
            0,
            0,
            CommandAction::ScrollBy { toward_end: true, page: true, settle: Some(SettleAt::RearmOffset), remeasure: false }
        )
    );
    // Moving down at the live end with auto-scroll follows again.
    let at_end = CommandFacts { can_scroll_end: false, ..facts };
    assert_eq!(
        command_step(&ScrollMode::Free, (0, 0), at_end, &MessageScrollerCommand::LineDown),
        (
            ScrollMode::Following,
            0,
            0,
            CommandAction::ScrollBy { toward_end: true, page: false, settle: None, remeasure: false }
        )
    );
    assert_eq!(
        command_step(&ScrollMode::Following, (1, 0), facts, &MessageScrollerCommand::LineUp).3,
        CommandAction::ScrollBy { toward_end: false, page: false, settle: Some(SettleAt::Offset), remeasure: false }
    );
}

#[test]
fn item_commands_target_known_rows_and_others_wait_for_measurement() {
    let facts = scroller_facts();
    let item = MessageScrollerCommand::Item { id: "b".to_string(), alignment: MessageScrollerAlignment::Start };
    assert_eq!(
        command_step(&ScrollMode::Following, (1, 1), facts, &item),
        (ScrollMode::Free, 1, 1, CommandAction::Target)
    );
    let unknown = CommandFacts { target_known: false, ..facts };
    assert_eq!(command_step(&ScrollMode::Following, (1, 1), unknown, &item), (ScrollMode::Following, 1, 1, CommandAction::Ignore));
    let before = CommandFacts { initialized: false, ..facts };
    assert_eq!(
        command_step(&ScrollMode::Following, (1, 1), before, &MessageScrollerCommand::End),
        (ScrollMode::Following, 1, 1, CommandAction::Queue)
    );
    assert_eq!(command_step(&ScrollMode::Following, (1, 1), before, &item).3, CommandAction::Target);
}
