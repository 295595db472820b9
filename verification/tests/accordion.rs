use ducktape::accordion::{header_target, navigation_target, AccordionEvent, AccordionKey, AccordionState};
use ducktape::keys::Key;

#[test]
fn single_and_multiple_modes_toggle_and_apply_independently() {
    let mut single = AccordionState::Single(Some("one"));
    assert!(single.apply(&AccordionEvent::Toggle("one")));
    assert_eq!(single, AccordionState::Single(None));
    assert!(!single.apply(&AccordionEvent::Navigate {
        target: "two",
        focus_id: "two".to_string(),
    }));

    let multiple = AccordionState::Multiple(vec!["one", "two"]);
    assert_eq!(multiple.toggled("one"), AccordionState::Multiple(vec!["two"]));
    assert_eq!(
        multiple.toggled("three"),
        AccordionState::Multiple(vec!["one", "two", "three"])
    );
}

#[test]
fn navigation_wraps_and_skips_disabled_headers() {
    let enabled = [true, false, true, false];
    assert_eq!(navigation_target(0, &enabled, &Key::ArrowUp), Some(2));
    assert_eq!(navigation_target(0, &enabled, &Key::ArrowDown), Some(2));
    assert_eq!(navigation_target(2, &enabled, &Key::Home), Some(0));
    assert_eq!(navigation_target(0, &enabled, &Key::End), Some(2));
    assert_eq!(navigation_target(0, &[false, false], &Key::Home), None);
}

#[test]
fn header_navigation_compatibility_reducer_keeps_edges() {
    assert_eq!(header_target(0, 3, AccordionKey::ArrowUp), Some(2));
    assert_eq!(header_target(2, 3, AccordionKey::ArrowDown), Some(0));
    assert_eq!(header_target(2, 3, AccordionKey::Home), Some(0));
    assert_eq!(header_target(0, 3, AccordionKey::End), Some(2));
    assert_eq!(header_target(0, 0, AccordionKey::Home), None);
}

#[test]
fn single_mode_opens_then_closes_the_same_section() {
    let closed: AccordionState<u8> = AccordionState::Single(None);
    let opened = closed.toggled(4);
    assert_eq!(opened, AccordionState::Single(Some(4)));
    assert!(opened.is_open(&4));
    assert_eq!(opened.toggled(4), AccordionState::Single(None));
    assert_eq!(opened.toggled(5), AccordionState::Single(Some(5)));
}

#[test]
fn applying_a_toggle_that_changes_nothing_reports_no_change() {
    let mut state = AccordionState::Multiple(vec![1u8, 1u8]);
    assert!(state.is_open(&1));
    assert!(state.apply(&AccordionEvent::Toggle(1)));
    assert_eq!(state, AccordionState::Multiple(vec![]));
    assert!(state.apply(&AccordionEvent::Toggle(2)));
    assert!(!state.is_open(&1));
    assert_eq!(
        AccordionEvent::<u8>::Navigate { target: 2, focus_id: "h2".to_string() }.focus_id(),
        Some(&"h2".to_string())
    );
}

#[test]
fn unknown_current_headers_and_other_keys_go_nowhere() {
    assert_eq!(navigation_target(5, &[true, true], &Key::ArrowDown), None);
    assert_eq!(navigation_target(0, &[true, true], &Key::Enter), None);
    assert_eq!(navigation_target(1, &[true, true, false], &Key::ArrowDown), Some(0));
    assert_eq!(header_target(3, 3, AccordionKey::ArrowDown), None);
}
