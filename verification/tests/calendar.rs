use ducktape::calendar::{
    controlled_calendar, day_focus_id, day_visual_state, keyboard_command, month_options,
    navigation_target, year_options, CalendarCommand, CalendarConstraints, CalendarEvent,
    CalendarSelection, CalendarState, DateRange, MonthOption,
};
use ducktape::date::{Date, DateError, Month, Weekday, MAX_YEAR, MIN_YEAR};
use ducktape::direction::Direction;
use ducktape::keys::Key;

fn month(year: i32, number: u8) -> Month {
    Month::new(year, number).unwrap()
}

fn date(year: i32, month: u8, day: u8) -> Date {
    Date::new(year, month, day).unwrap()
}

#[test]
fn leap_years_centuries_and_supported_boundaries_are_exact() {
    assert!(Date::new(2024, 2, 29).is_ok());
    assert!(Date::new(2023, 2, 29).is_err());
    assert!(Date::new(1900, 2, 29).is_err());
    assert!(Date::new(2000, 2, 29).is_ok());
    assert_eq!(date(2024, 2, 29).checked_add_days(1), Some(date(2024, 3, 1)));
    assert_eq!(date(2024, 2, 29).checked_add_years(1), Some(date(2025, 2, 28)));
    assert_eq!(date(MIN_YEAR, 1, 1).checked_add_days(-1), None);
    assert_eq!(date(MAX_YEAR, 12, 31).checked_add_days(1), None);
}

#[test]
fn month_navigation_and_six_week_grid_cover_edges() {
    assert_eq!(month(2024, 1).previous(), Some(month(2023, 12)));
    assert_eq!(month(2024, 12).next(), Some(month(2025, 1)));
    assert_eq!(month(MIN_YEAR, 1).previous(), None);
    assert_eq!(month(MAX_YEAR, 12).next(), None);

    let dates = month(2024, 9).visible_dates();
    assert_eq!(dates[0], Some(date(2024, 9, 1)));
    assert_eq!(dates[30], Some(date(2024, 10, 1)));
    assert_eq!(dates[41], Some(date(2024, 10, 12)));
    let minimum = month(MIN_YEAR, 1).visible_dates();
    assert_eq!(minimum[0], None);
    let maximum = month(MAX_YEAR, 12).visible_dates();
    assert!(maximum[34..].iter().all(Option::is_none));
}

#[test]
fn weekdays_and_iso_weeks_match_known_dates() {
    assert_eq!(date(1, 1, 1).weekday(), Weekday::Monday);
    assert_eq!(date(2000, 1, 1).weekday(), Weekday::Saturday);
    assert_eq!(date(2024, 2, 29).weekday(), Weekday::Thursday);
    assert_eq!(date(2021, 1, 1).iso_week(), 53);
    assert_eq!(date(2024, 1, 1).iso_week(), 1);
}

#[test]
fn selection_models_toggle_and_normalize_inclusive_ranges() {
    let first = date(2024, 5, 10);
    let second = date(2024, 5, 5);
    assert_eq!(
        CalendarSelection::Single(None).selected(first),
        CalendarSelection::Single(Some(first))
    );
    let multiple = CalendarSelection::Multiple(vec![first]).selected(second);
    assert_eq!(multiple, CalendarSelection::Multiple(vec![second, first]));
    assert_eq!(multiple.selected(first), CalendarSelection::Multiple(vec![second]));

    let open = CalendarSelection::Range(None).selected(first);
    assert_eq!(open, CalendarSelection::Range(Some(DateRange::open(first))));
    let completed = open.selected(second);
    assert_eq!(
        completed,
        CalendarSelection::Range(Some(DateRange::inclusive(second, first)))
    );
    assert!(completed.is_selected(date(2024, 5, 7)));
    assert_eq!(
        completed.selected(date(2024, 6, 1)),
        CalendarSelection::Range(Some(DateRange::open(date(2024, 6, 1))))
    );
}

#[test]
fn one_state_reducer_keeps_month_selection_and_focus_together() {
    let focused = date(2024, 1, 31);
    let mut state = CalendarState::new(month(2024, 1), CalendarSelection::Single(Some(focused)))
        .focused(Some(focused));

    assert!(state.apply(&CalendarEvent::MonthChanged(month(2024, 2))));
    assert_eq!(state.month(), month(2024, 2));
    assert_eq!(state.focused_date(), Some(date(2024, 2, 29)));

    let selected = date(2024, 2, 20);
    assert!(state.apply(&CalendarEvent::SelectionChanged {
        selection: CalendarSelection::Single(Some(selected)),
        focused: selected,
    }));
    assert_eq!(state.selection(), &CalendarSelection::Single(Some(selected)));
    assert_eq!(state.focused_date(), Some(selected));
}

#[test]
fn keyboard_navigation_changes_units_and_skips_disabled_dates() {
    let friday = date(2024, 3, 1);
    let constraints = CalendarConstraints::new()
        .min(Some(date(2024, 2, 1)))
        .disabled_dates(|date| date == Date::new(2024, 2, 29).unwrap());
    assert_eq!(
        navigation_target(friday, CalendarCommand::PreviousDay, &constraints),
        Some(date(2024, 2, 28))
    );
    assert_eq!(
        navigation_target(friday, CalendarCommand::NextWeek, &constraints),
        Some(date(2024, 3, 8))
    );
    assert_eq!(
        navigation_target(friday, CalendarCommand::WeekStart, &constraints),
        Some(date(2024, 2, 25))
    );
    assert_eq!(
        navigation_target(friday, CalendarCommand::NextMonth, &constraints),
        Some(date(2024, 4, 1))
    );
}

#[test]
fn dropdown_options_stop_at_hard_date_bounds() {
    let state = CalendarState::new(month(2026, 7), CalendarSelection::Single(None));
    let calendar = controlled_calendar::<fn(Date) -> bool>("bounded-dropdown".to_string(), &state)
        .min(Some(date(2026, 6, 15)))
        .max(Some(date(2026, 8, 20)))
        .year_range(2024, 2028);

    assert_eq!(
        calendar.caption_month_options(),
        [
            MonthOption::new(6).unwrap(),
            MonthOption::new(7).unwrap(),
            MonthOption::new(8).unwrap()
        ]
    );
    let years: Vec<i32> = calendar.caption_year_options().iter().map(|option| option.year()).collect();
    assert_eq!(years, [2026]);
}

#[test]
fn key_mapping_respects_shift_and_layout_direction() {
    assert_eq!(
        keyboard_command(&Key::ArrowLeft, false, Direction::RightToLeft),
        Some(CalendarCommand::NextDay)
    );
    assert_eq!(
        keyboard_command(&Key::PageUp, true, Direction::LeftToRight),
        Some(CalendarCommand::PreviousYear)
    );
}

#[test]
fn day_ids_geometry_and_visual_states_are_stable() {
    let selected = CalendarSelection::Range(Some(DateRange::inclusive(
        date(2024, 5, 5),
        date(2024, 5, 7),
    )));
    let state = day_visual_state(
        date(2024, 5, 6),
        month(2024, 5),
        &selected,
        Some(date(2024, 5, 6)),
        Some(date(2024, 5, 6)),
        false,
    );
    assert!(state.today && state.selected && state.range_middle && state.focused);
    assert_eq!(
        day_focus_id("booking", date(2024, 5, 6)),
        day_focus_id("booking", date(2024, 5, 6))
    );
    assert_ne!(
        day_focus_id("booking", date(2024, 5, 6)),
        day_focus_id("booking", date(2024, 5, 7))
    );
}

#[test]
fn dropdown_helpers_bound_options_without_invalid_dates() {
    assert_eq!(month_options().len(), 12);
    assert_eq!(year_options(2020, 2024).len(), 5);
    assert!(year_options(2024, 2020).is_empty());
    assert_eq!(MonthOption::new(12).unwrap().to_string(), "December");
    assert_eq!(MonthOption::new(13), None);
}

#[test]
fn day_focus_key_names_calendar_and_iso_day() {
    assert_eq!(
        day_focus_id("booking", date(2024, 5, 6)),
        "ducktape-calendar:booking:day:2024-05-06"
    );
}

#[test]
fn invalid_parts_report_which_part_failed() {
    assert_eq!(Date::new(0, 1, 1), Err(DateError::Year(0)));
    assert_eq!(Date::new(2024, 13, 1), Err(DateError::Month(13)));
    assert_eq!(
        Date::new(2023, 2, 29),
        Err(DateError::Day { year: 2023, month: 2, day: 29 })
    );
    assert_eq!(Month::new(10000, 1), Err(DateError::Year(10000)));
    assert_eq!(Month::new(2024, 0), Err(DateError::Month(0)));
}

#[test]
fn moving_by_days_and_back_returns_the_same_date() {
    let start = date(2023, 12, 30);
    let moved = start.checked_add_days(400).unwrap();
    assert_eq!(moved, date(2025, 2, 2));
    assert_eq!(moved.checked_add_days(-400), Some(start));
}

#[test]
fn the_next_day_is_the_next_weekday() {
    let saturday = date(2000, 1, 1);
    assert_eq!(saturday.weekday(), Weekday::Saturday);
    assert_eq!(saturday.checked_add_days(1).unwrap().weekday(), Weekday::Sunday);
}

#[test]
fn month_steps_invert() {
    let january = month(2024, 1);
    assert_eq!(january.previous().unwrap().next(), Some(january));
    assert_eq!(january.next().unwrap().previous(), Some(january));
}

#[test]
fn inclusive_ranges_ignore_argument_order() {
    let a = date(2024, 5, 10);
    let b = date(2024, 5, 5);
    assert_eq!(DateRange::inclusive(a, b), DateRange::inclusive(b, a));
    assert_eq!(DateRange::inclusive(a, b).start, b);
    assert_eq!(DateRange::inclusive(a, a).end, Some(a));
}

#[test]
fn navigation_never_lands_outside_bounds_or_on_disabled_days() {
    let constraints = CalendarConstraints::new()
        .max(Some(date(2024, 3, 5)))
        .disabled_dates(|date: Date| date.day() % 2 == 0);
    assert_eq!(
        navigation_target(date(2024, 3, 1), CalendarCommand::NextDay, &constraints),
        Some(date(2024, 3, 3))
    );
    assert_eq!(
        navigation_target(date(2024, 3, 5), CalendarCommand::NextDay, &constraints),
        None
    );
}

#[test]
fn dates_and_months_read_as_text() {
    assert_eq!(date(2024, 2, 9).to_string(), "2024-02-09");
    assert_eq!(month(2024, 9).to_string(), "September 2024");
    assert_eq!(date(2024, 2, 9).ordinal(), 738924);
}

#[test]
fn selecting_a_day_twice_in_multiple_mode_restores_the_selection() {
    let days = vec![date(2024, 5, 1), date(2024, 5, 9), date(2024, 6, 2)];
    let added = CalendarSelection::Multiple(days.clone()).selected(date(2024, 5, 5));
    assert_eq!(
        added,
        CalendarSelection::Multiple(vec![
            date(2024, 5, 1),
            date(2024, 5, 5),
            date(2024, 5, 9),
            date(2024, 6, 2)
        ])
    );
    assert_eq!(added.selected(date(2024, 5, 5)), CalendarSelection::Multiple(days));
}

#[test]
fn applying_the_same_event_twice_reports_no_second_change() {
    let mut state = CalendarState::new(month(2024, 1), CalendarSelection::Range(None))
        .focused(Some(date(2024, 1, 31)));
    let events = [
        CalendarEvent::MonthChanged(month(2024, 2)),
        CalendarEvent::FocusMoved {
            date: date(2024, 3, 3),
            month: month(2024, 3),
        },
        CalendarEvent::SelectionChanged {
            selection: CalendarSelection::Range(Some(DateRange::open(date(2024, 3, 4)))),
            focused: date(2024, 3, 4),
        },
    ];
    for event in events {
        assert!(state.apply(&event));
        assert!(!state.apply(&event));
    }
}
