use ducktape::alert_dialog::{next_open, AlertDialogCancel, AlertDialogEvent, AlertDialogFocus};
use ducktape::bubble::{alignment, BubbleVariant};
use ducktape::button::ButtonVariant;
use ducktape::dialog::{DialogActionAlignment, DialogAlignment};
use ducktape::direction::{Direction, Horizontal};
use ducktape::drawer::{DrawerDismissReason, DrawerEvent};
use ducktape::modal::{next_focus, DismissReason, DismissRules, FocusScope, ModalEvent};
use ducktape::pagination::page_variant;

#[test]
fn focus_navigation_wraps_and_recovers_from_unknown_focus() {
    assert_eq!(next_focus(Some(0), 3, true), 2);
    assert_eq!(next_focus(Some(2), 3, false), 0);
    assert_eq!(next_focus(Some(1), 3, false), 2);
    assert_eq!(next_focus(None, 3, false), 0);
    assert_eq!(next_focus(None, 3, true), 2);
}

#[test]
fn focus_scope_deduplicates_ids_and_keeps_restore_separate() {
    let first = "dialog-first".to_string();
    let second = "dialog-second".to_string();
    let restore = "dialog-trigger".to_string();
    let scope = FocusScope::new(first.clone(), restore.clone())
        .push(second.clone())
        .push(first.clone());

    assert_eq!(scope.order(), &[first, second]);
    assert_eq!(scope.restore(), &restore);
}

#[test]
fn dialog_and_alert_dismissal_rules_differ_on_backdrop() {
    assert!(DismissRules::dialog().allows(DismissReason::Backdrop));
    assert!(DismissRules::dialog().allows(DismissReason::Escape));
    assert!(!DismissRules::alert_dialog().allows(DismissReason::Backdrop));
    assert!(DismissRules::alert_dialog().allows(DismissReason::Escape));
}

#[test]
fn alert_rules_reject_the_backdrop_but_keep_escape_cancel() {
    assert!(!DismissRules::alert_dialog().allows(DismissReason::Backdrop));
    assert!(DismissRules::alert_dialog().allows(DismissReason::Escape));
}

#[test]
fn safe_and_confirming_outcomes_are_distinct_and_close() {
    assert!(!next_open(true, &AlertDialogEvent::Cancel(AlertDialogCancel::Button)));
    assert!(!next_open(true, &AlertDialogEvent::Action));
    assert!(next_open(true, &AlertDialogEvent::Focus("alert-action".to_string())));
    assert_ne!(AlertDialogEvent::Cancel(AlertDialogCancel::Button), AlertDialogEvent::Action);
}

#[test]
fn cancel_is_first_and_action_is_last_in_the_focus_scope() {
    let focus = AlertDialogFocus::new("cancel".to_string(), "action".to_string(), "trigger".to_string());
    let scope = focus.scope();

    assert_eq!(scope.order(), &[focus.cancel().clone(), focus.action().clone()]);
    assert_eq!(scope.restore(), focus.restore());
}

#[test]
fn explicit_alignment_maps_copy_and_actions_independently() {
    assert_eq!(DialogAlignment::Start.horizontal(Direction::LeftToRight), Horizontal::Left);
    assert_eq!(DialogAlignment::Start.horizontal(Direction::RightToLeft), Horizontal::Right);
    assert_eq!(DialogAlignment::Center.horizontal(Direction::RightToLeft), Horizontal::Center);
    assert_eq!(DialogActionAlignment::Start.horizontal(Direction::RightToLeft), Horizontal::Right);
    assert_eq!(DialogActionAlignment::Center.horizontal(Direction::RightToLeft), Horizontal::Center);
    assert_eq!(DialogActionAlignment::End.horizontal(Direction::RightToLeft), Horizontal::Left);
}

#[test]
fn direction_controls_surface_and_alignment() {
    assert_eq!(alignment(BubbleVariant::Incoming), Horizontal::Left);
    assert_eq!(alignment(BubbleVariant::Outgoing), Horizontal::Right);
}

#[test]
fn current_page_has_a_distinct_visible_variant() {
    assert_eq!(page_variant(true), ButtonVariant::Outline);
    assert_eq!(page_variant(false), ButtonVariant::Ghosted);
}

#[test]
fn tab_then_shift_tab_returns_to_the_same_control() {
    for count in 1..5usize {
        for current in 0..count {
            let forward = next_focus(Some(current), count, false);
            assert!(forward < count);
            assert_eq!(next_focus(Some(forward), count, true), current);
        }
    }
    assert_eq!(next_focus(Some(7), 3, false), 0);
}

#[test]
fn scopes_focus_first_on_open_and_restore_on_close() {
    let scope = FocusScope::new("first".to_string(), "trigger".to_string()).push("second".to_string());
    assert_eq!(scope.first(), "first");
    assert_eq!(scope.transition_target(false, true).map(String::as_str), Some("first"));
    assert_eq!(scope.transition_target(true, false).map(String::as_str), Some("trigger"));
    assert_eq!(scope.transition_target(true, true), None);
    assert_eq!(scope.clone(), scope);
    assert_eq!(
        ModalEvent::Focus("second".to_string()).focus_target().map(String::as_str),
        Some("second")
    );
    assert_eq!(ModalEvent::Dismiss(DismissReason::Escape).focus_target(), None);
}

#[test]
fn an_action_sharing_the_cancel_key_is_listed_once() {
    let focus = AlertDialogFocus::new("same".to_string(), "same".to_string(), "trigger".to_string());
    assert_eq!(focus.scope().order(), &["same".to_string()]);
}

#[test]
fn start_and_end_follow_the_reading_direction() {
    assert_eq!(Direction::LeftToRight.start(), Horizontal::Left);
    assert_eq!(Direction::RightToLeft.start(), Horizontal::Right);
    assert_eq!(Direction::LeftToRight.end(), Horizontal::Right);
    assert_eq!(DialogActionAlignment::default().horizontal(Direction::LeftToRight), Horizontal::Right);
}

#[test]
fn modal_events_preserve_focus_and_dismissal_reasons() {
    let focus_id = "drawer-next".to_string();
    assert_eq!(
        DrawerEvent::<f32>::from_modal(ModalEvent::Focus(focus_id.clone())),
        DrawerEvent::Focus(focus_id)
    );
    assert_eq!(
        DrawerEvent::<f32>::from_modal(ModalEvent::Dismiss(DismissReason::Backdrop)),
        DrawerEvent::Dismiss(DrawerDismissReason::Backdrop)
    );
    assert_eq!(
        DrawerEvent::<f32>::from_modal(ModalEvent::Dismiss(DismissReason::Escape)),
        DrawerEvent::Dismiss(DrawerDismissReason::Escape)
    );
}

#[test]
fn reduced_motion_requests_an_immediate_snap() {
    let reduced: DrawerEvent<f32> = DrawerEvent::SnapBack { animate: false };
    let animated: DrawerEvent<f32> = DrawerEvent::SnapBack { animate: true };
    assert_ne!(reduced, animated);
}

#[test]
fn drawer_events_close_reset_and_restore_focus() {
    let scope = FocusScope::new("drawer-first".to_string(), "drawer-trigger".to_string());
    let dismiss: DrawerEvent<f32> = DrawerEvent::Dismiss(DrawerDismissReason::Drag);
    assert!(!dismiss.open_after(true));
    assert!(dismiss.resets_offset());
    assert_eq!(dismiss.focus_target(&scope), Some(&"drawer-trigger".to_string()));
    let dragged: DrawerEvent<f32> = DrawerEvent::Dragged(72.0);
    assert!(dragged.open_after(true));
    assert!(!dragged.resets_offset());
    assert_eq!(dragged.focus_target(&scope), None);
    let snap: DrawerEvent<f32> = DrawerEvent::SnapBack { animate: true };
    assert!(snap.resets_offset());
    assert!(snap.open_after(true));
    let focus: DrawerEvent<f32> = DrawerEvent::Focus("drawer-action".to_string());
    assert_eq!(focus.focus_target(&scope), Some(&"drawer-action".to_string()));
    assert!(!focus.open_after(false));
}
