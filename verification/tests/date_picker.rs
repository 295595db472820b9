use ducktape::calendar::{CalendarEvent, CalendarSelection, DateRange};
use ducktape::date::{Date, Month};
use ducktape::date_picker::{
    calendar_state, format_value, preferred_focus, selection_complete, DateFormat, DatePickerEvent,
    DatePickerFocus, DatePickerIds, DatePickerValue,
};
use ducktape::popover::DismissReason;

fn day(year: i32, month: u8, day: u8) -> Date {
    Date::new(year, month, day).unwrap()
}

fn selection_event(selection: CalendarSelection, focused: Date) -> DatePickerEvent {
    DatePickerEvent::Calendar(CalendarEvent::SelectionChanged { selection, focused })
}

#[test]
fn value_reducers_close_single_and_only_completed_ranges() {
    let single = DatePickerValue::Single(None).selected(day(2024, 7, 4));
    let single_event = selection_event(single.as_calendar_selection(), day(2024, 7, 4));
    assert!(!single_event.next_open(true));

    let open_range = DatePickerValue::Range(None).selected(day(2024, 7, 4));
    let range_event = selection_event(open_range.as_calendar_selection(), day(2024, 7, 4));
    assert!(range_event.next_open(true));
    let completed = open_range.selected(day(2024, 7, 1));
    let complete_event = selection_event(completed.as_calendar_selection(), day(2024, 7, 1));
    assert!(!complete_event.next_open(true));
    assert_eq!(complete_event.value(), Some(completed));
}

#[test]
fn dismissal_and_navigation_reducers_preserve_the_right_state() {
    let close = DatePickerEvent::OpenChanged {
        open: false,
        reason: Some(DismissReason::Escape),
        focus: None,
    };
    assert!(!close.next_open(true));
    let moved = DatePickerEvent::Calendar(CalendarEvent::FocusMoved {
        date: day(2024, 8, 1),
        month: Month::new(2024, 8).unwrap(),
    });
    assert!(moved.next_open(true));
    assert_eq!(moved.focused(), Some(day(2024, 8, 1)));
    assert_eq!(moved.month(), Some(Month::new(2024, 8).unwrap()));
}

#[test]
fn formatting_covers_placeholders_open_ranges_and_custom_models() {
    assert_eq!(DateFormat::Iso.format(day(2024, 2, 29)), "2024-02-29");
    assert_eq!(DateFormat::Long.format(day(2024, 2, 29)), "February 29, 2024");
    let range = DatePickerValue::Range(Some(DateRange::open(day(2024, 2, 29))));
    assert_eq!(
        format_value(&range, |date| DateFormat::Iso.format(date)),
        Some("2024-02-29 – …".into())
    );
    assert_eq!(format_value(&DatePickerValue::Single(None), |date: Date| date.to_string()), None);
}

#[test]
fn preferred_focus_skips_out_of_month_and_disabled_candidates() {
    let month = Month::new(2024, 7).unwrap();
    let value = DatePickerValue::Single(Some(day(2024, 6, 30)));
    assert_eq!(
        preferred_focus(
            month,
            &value,
            Some(day(2024, 7, 1)),
            Some(day(2024, 7, 2)),
            None,
            None,
            Some(&|date: Date| date.day() == 1),
        ),
        Some(day(2024, 7, 2))
    );
}

#[test]
fn stale_focus_does_not_restore_the_previous_month() {
    let august = Month::new(2024, 8).unwrap();
    let state = calendar_state(august, &DatePickerValue::Single(None), Some(day(2024, 7, 16)));
    assert_eq!(state.month(), august);
    assert_eq!(state.focused_date(), None);
}

#[test]
fn ids_and_geometry_are_stable() {
    let first = DatePickerIds::new("booking");
    let second = DatePickerIds::new("booking");
    assert_eq!(first, second);
    assert_eq!(first.calendar(), "date-picker:booking:calendar");
}

#[test]
fn numeric_formats_pad_each_part() {
    assert_eq!(DateFormat::MonthDayYear.format(day(987, 3, 4)), "03/04/0987");
    assert_eq!(DateFormat::DayMonthYear.format(day(2024, 12, 25)), "25/12/2024");
    assert_eq!(DateFormat::default(), DateFormat::Long);
    assert_eq!(DateFormat::Long.format(day(2024, 7, 4)), "July 4, 2024");
}

#[test]
fn completed_ranges_read_with_both_ends() {
    let range = DatePickerValue::Range(Some(DateRange::inclusive(day(2024, 2, 3), day(2024, 2, 1))));
    assert_eq!(
        format_value(&range, |date| DateFormat::Iso.format(date)),
        Some("2024-02-01 – 2024-02-03".into())
    );
    assert_eq!(range.anchor(), Some(day(2024, 2, 3)));
    assert!(range.is_complete());
    assert_eq!(DatePickerValue::Range(None).anchor(), None);
}

#[test]
fn choosing_two_days_completes_one_range_in_either_order() {
    let a = day(2024, 7, 4);
    let b = day(2024, 7, 1);
    let forward = DatePickerValue::Range(None).selected(a).selected(b);
    let backward = DatePickerValue::Range(None).selected(b).selected(a);
    assert_eq!(forward, backward);
    assert_eq!(forward, DatePickerValue::Range(Some(DateRange::inclusive(b, a))));
    assert_eq!(DatePickerValue::Single(Some(a)).selected(b), DatePickerValue::Single(Some(b)));
}

#[test]
fn focus_requests_follow_the_popover() {
    let opened_on_day = DatePickerEvent::OpenChanged {
        open: true,
        reason: None,
        focus: Some(day(2024, 7, 4)),
    };
    assert_eq!(opened_on_day.focus_request(), Some(DatePickerFocus::Day(day(2024, 7, 4))));
    let opened = DatePickerEvent::OpenChanged { open: true, reason: None, focus: None };
    assert_eq!(opened.focus_request(), Some(DatePickerFocus::Opened));
    let closed = DatePickerEvent::OpenChanged { open: false, reason: None, focus: None };
    assert_eq!(closed.focus_request(), Some(DatePickerFocus::Closed(DismissReason::Outside)));
    let chosen = selection_event(CalendarSelection::Single(Some(day(2024, 7, 4))), day(2024, 7, 4));
    assert_eq!(chosen.focus_request(), Some(DatePickerFocus::Closed(DismissReason::Trigger)));
    let month = DatePickerEvent::Calendar(CalendarEvent::MonthChanged(Month::new(2024, 9).unwrap()));
    assert_eq!(month.focus_request(), None);
}

#[test]
fn multiple_day_selections_are_not_picker_values() {
    let multiple = CalendarSelection::Multiple(vec![day(2024, 7, 4)]);
    assert_eq!(selection_complete(&multiple), None);
    assert_eq!(DatePickerValue::from_calendar(&multiple), None);
    let event = selection_event(multiple, day(2024, 7, 4));
    assert!(event.next_open(true));
    assert_eq!(event.value(), None);
}

#[test]
fn preferred_focus_falls_back_to_the_first_allowed_day() {
    let month = Month::new(2024, 7).unwrap();
    let nothing: Option<&fn(Date) -> bool> = None;
    assert_eq!(
        preferred_focus(month, &DatePickerValue::Single(None), None, None, Some(day(2024, 7, 10)), None, nothing),
        Some(day(2024, 7, 10))
    );
    assert_eq!(
        preferred_focus(
            month,
            &DatePickerValue::Single(None),
            None,
            None,
            None,
            None,
            Some(&|_: Date| true),
        ),
        None
    );
}
