//! Single- and range-date picker decisions: the controlled value, when the
//! popover opens and closes, which day takes focus, and how values read.

use vstd::prelude::*;
use crate::calendar::{inclusive_range, CalendarEvent, CalendarSelection, CalendarState, DateRange};
use crate::date::{date_opt_view, iso_text, month_name, month_name_of, Date, DateModel, Month};
use crate::calendar::date_value;
use crate::date::lemma_date_view_eq;
use crate::popover::DismissReason;
use crate::text::{decimal, push_char, push_decimal, push_zero_padded, zero_padded};

verus! {

/// Stable keys of a picker's popover and calendar.
#[derive(Debug, Clone, PartialEq, Eq)]
pub struct DatePickerIds {
    popover: String,
    calendar: String,
}

impl DatePickerIds {
    pub closed spec fn popover_key(self) -> Seq<char> {
        self.popover@
    }

    pub closed spec fn calendar_key(self) -> Seq<char> {
        self.calendar@
    }

    /// Keys derived from `key`: `date-picker:<key>` for the popover and
    /// `date-picker:<key>:calendar` for the calendar.
    pub fn new(key: &str) -> (r: DatePickerIds)
        ensures
            r.popover_key() == "date-picker:"@ + key@,
            r.calendar_key() == "date-picker:"@ + key@ + ":calendar"@,
    {
        let mut popover = String::from_str("date-picker:");
        popover.append(key);
        let mut calendar = String::from_str("date-picker:");
        calendar.append(key);
        calendar.append(":calendar");
        DatePickerIds { popover, calendar }
    }

    pub fn popover(&self) -> (r: &str)
        ensures
            r@ == self.popover_key(),
    {
        self.popover.as_str()
    }

    pub fn calendar(&self) -> (r: &str)
        ensures
            r@ == self.calendar_key(),
    {
        self.calendar.as_str()
    }
}

/// The controlled value: one optional day, or an optional range.
#[derive(Debug, Clone, Copy, PartialEq, Eq, Structural)]
pub enum DatePickerValue {
    Single(Option<Date>),
    Range(Option<DateRange>),
}

/// The day the calendar opens on for a value: the single day, or the last
/// chosen end of a range.
pub open spec fn value_anchor(value: DatePickerValue) -> Option<Date> {
    match value {
        DatePickerValue::Single(selected) => selected,
        DatePickerValue::Range(Some(range)) => match range.end {
            Some(end) => Some(end),
            None => Some(range.start),
        },
        DatePickerValue::Range(None) => None,
    }
}

pub open spec fn value_complete(value: DatePickerValue) -> bool {
    match value {
        DatePickerValue::Single(selected) => selected is Some,
        DatePickerValue::Range(Some(range)) => range.end is Some,
        DatePickerValue::Range(None) => false,
    }
}

/// The value after choosing `date`: a single value takes it; a range starts
/// anew, or completes an open range in either order.
pub open spec fn value_selected(value: DatePickerValue, date: Date) -> DatePickerValue {
    match value {
        DatePickerValue::Single(_) => DatePickerValue::Single(Some(date)),
        DatePickerValue::Range(Some(DateRange { start, end: None })) => DatePickerValue::Range(
            Some(inclusive_range(start, date)),
        ),
        DatePickerValue::Range(_) => DatePickerValue::Range(Some(DateRange { start: date, end: None })),
    }
}

impl DatePickerValue {
    /// The value after choosing `date`: a single value takes it; a range
    /// starts anew, or completes an open range in either order.
    pub fn selected(&self, date: Date) -> (r: DatePickerValue)
        ensures
            r == value_selected(*self, date),
    {
        match self {
            DatePickerValue::Single(_) => DatePickerValue::Single(Some(date)),
            DatePickerValue::Range(range) => {
                let selection = CalendarSelection::Range(*range).selected(date);
                match selection {
                    CalendarSelection::Range(range) => DatePickerValue::Range(range),
                    _ => {
                        proof {
                            assert(false);
                        }
                        DatePickerValue::Range(None)
                    },
                }
            },
        }
    }

    /// Whether the value is a chosen day or a completed range.
    pub fn is_complete(&self) -> (r: bool)
        ensures
            r == value_complete(*self),
    {
        match self {
            DatePickerValue::Single(selected) => selected.is_some(),
            DatePickerValue::Range(Some(range)) => range.is_complete(),
            DatePickerValue::Range(None) => false,
        }
    }

    /// The day the calendar should open on.
    pub fn anchor(&self) -> (r: Option<Date>)
        ensures
            r == value_anchor(*self),
    {
        match self {
            DatePickerValue::Single(selected) => *selected,
            DatePickerValue::Range(Some(range)) => match range.end {
                Some(end) => Some(end),
                None => Some(range.start),
            },
            DatePickerValue::Range(None) => None,
        }
    }

    /// The same value as a calendar selection.
    pub fn as_calendar_selection(&self) -> (r: CalendarSelection)
        ensures
            r == match *self {
                DatePickerValue::Single(selected) => CalendarSelection::Single(selected),
                DatePickerValue::Range(range) => CalendarSelection::Range(range),
            },
    {
        match self {
            DatePickerValue::Single(selected) => CalendarSelection::Single(*selected),
            DatePickerValue::Range(range) => CalendarSelection::Range(*range),
        }
    }

    /// The picker value of a calendar selection; a multiple-day selection has
    /// none.
    pub fn from_calendar(selection: &CalendarSelection) -> (r: Option<DatePickerValue>)
        ensures
            r == match *selection {
                CalendarSelection::Single(selected) => Some(DatePickerValue::Single(selected)),
                CalendarSelection::Range(range) => Some(DatePickerValue::Range(range)),
                CalendarSelection::Multiple(_) => None::<DatePickerValue>,
            },
    {
        match selection {
            CalendarSelection::Single(selected) => Some(DatePickerValue::Single(*selected)),
            CalendarSelection::Range(range) => Some(DatePickerValue::Range(*range)),
            CalendarSelection::Multiple(_) => None,
        }
    }
}

/// Whether a selection is a finished choice: a day, a completed range; a
/// multiple-day selection has no answer.
pub open spec fn selection_done(selection: CalendarSelection) -> Option<bool> {
    match selection {
        CalendarSelection::Single(selected) => Some(selected is Some),
        CalendarSelection::Range(Some(range)) => Some(range.end is Some),
        CalendarSelection::Range(None) => Some(false),
        CalendarSelection::Multiple(_) => None,
    }
}

/// Whether a selection is a finished choice.
pub fn selection_complete(selection: &CalendarSelection) -> (r: Option<bool>)
    ensures
        r == selection_done(*selection),
{
    match selection {
        CalendarSelection::Single(selected) => Some(selected.is_some()),
        CalendarSelection::Range(Some(range)) => Some(range.is_complete()),
        CalendarSelection::Range(None) => Some(false),
        CalendarSelection::Multiple(_) => None,
    }
}

/// What the picker reports: the popover opening or closing, or a calendar
/// event.
#[derive(Debug, Clone, PartialEq, Eq)]
pub enum DatePickerEvent {
    OpenChanged { open: bool, reason: Option<DismissReason>, focus: Option<Date> },
    Calendar(CalendarEvent),
}

/// Where focus goes after a picker event.
#[derive(Debug, Clone, Copy, PartialEq, Eq, Structural)]
pub enum DatePickerFocus {
    /// A day of the calendar grid.
    Day(Date),
    /// The popover content, just opened.
    Opened,
    /// The trigger, after the popover closed for this reason.
    Closed(DismissReason),
}

impl DatePickerEvent {
    /// Whether the popover is open after this event, given whether it was: a
    /// finished choice closes it; calendar navigation leaves it as it was.
    pub fn next_open(&self, current: bool) -> (r: bool)
        ensures
            r == match *self {
                DatePickerEvent::OpenChanged { open, .. } => open,
                DatePickerEvent::Calendar(CalendarEvent::SelectionChanged { selection, .. }) => if selection_done(
                    selection,
                ) == Some(true) {
                    false
                } else {
                    current
                },
                DatePickerEvent::Calendar(_) => current,
            },
    {
        match self {
            DatePickerEvent::OpenChanged { open, .. } => *open,
            DatePickerEvent::Calendar(CalendarEvent::SelectionChanged { selection, .. }) => {
                match selection_complete(selection) {
                    Some(true) => false,
                    _ => current,
                }
            },
            DatePickerEvent::Calendar(_) => current,
        }
    }

    /// The new value a selection carries.
    pub fn value(&self) -> (r: Option<DatePickerValue>)
        ensures
            r == match *self {
                DatePickerEvent::Calendar(CalendarEvent::SelectionChanged { selection, .. }) => match selection {
                    CalendarSelection::Single(selected) => Some(DatePickerValue::Single(selected)),
                    CalendarSelection::Range(range) => Some(DatePickerValue::Range(range)),
                    CalendarSelection::Multiple(_) => None::<DatePickerValue>,
                },
                _ => None::<DatePickerValue>,
            },
    {
        match self {
            DatePickerEvent::Calendar(CalendarEvent::SelectionChanged { selection, .. }) => {
                DatePickerValue::from_calendar(selection)
            },
            _ => None,
        }
    }

    /// The month a calendar event shows.
    pub fn month(&self) -> (r: Option<Month>)
        ensures
            match *self {
                DatePickerEvent::Calendar(CalendarEvent::SelectionChanged { focused, .. }) => r matches Some(m) && m@
                    == focused@.month_of(),
                DatePickerEvent::Calendar(CalendarEvent::FocusMoved { month, .. }) => r == Some(month),
                DatePickerEvent::Calendar(CalendarEvent::MonthChanged(month)) => r == Some(month),
                DatePickerEvent::OpenChanged { .. } => r is None,
            },
    {
        match self {
            DatePickerEvent::Calendar(event) => event.month(),
            DatePickerEvent::OpenChanged { .. } => None,
        }
    }

    /// The day that should hold focus after this event.
    pub fn focused(&self) -> (r: Option<Date>)
        ensures
            r == match *self {
                DatePickerEvent::OpenChanged { open, focus, .. } => if open {
                    focus
                } else {
                    None
                },
                DatePickerEvent::Calendar(CalendarEvent::SelectionChanged { focused, .. }) => Some(focused),
                DatePickerEvent::Calendar(CalendarEvent::FocusMoved { date, .. }) => Some(date),
                DatePickerEvent::Calendar(CalendarEvent::MonthChanged(_)) => None,
            },
    {
        match self {
            DatePickerEvent::OpenChanged { open, focus, .. } => if *open {
                *focus
            } else {
                None
            },
            DatePickerEvent::Calendar(event) => event.focused(),
        }
    }

    /// Where focus goes after this event: the chosen day when opening on
    /// one, the popover when opening on none, the trigger when closing (an
    /// unexplained close counts as an outside press, a finished choice as the
    /// trigger), the new day after grid movement, and nowhere otherwise.
    pub fn focus_request(&self) -> (r: Option<DatePickerFocus>)
        ensures
            r == match *self {
                DatePickerEvent::OpenChanged { open, reason, focus } => if open {
                    match focus {
                        Some(date) => Some(DatePickerFocus::Day(date)),
                        None => Some(DatePickerFocus::Opened),
                    }
                } else {
                    Some(
                        DatePickerFocus::Closed(
                            match reason {
                                Some(reason) => reason,
                                None => DismissReason::Outside,
                            },
                        ),
                    )
                },
                DatePickerEvent::Calendar(CalendarEvent::FocusMoved { date, .. }) => Some(DatePickerFocus::Day(date)),
                DatePickerEvent::Calendar(CalendarEvent::SelectionChanged { selection, .. }) => if selection_done(
                    selection,
                ) == Some(true) {
                    Some(DatePickerFocus::Closed(DismissReason::Trigger))
                } else {
                    None
                },
                DatePickerEvent::Calendar(CalendarEvent::MonthChanged(_)) => None,
            },
    {
        match self {
            DatePickerEvent::OpenChanged { open, reason, focus } => {
                if *open {
                    match focus {
                        Some(date) => Some(DatePickerFocus::Day(*date)),
                        None => Some(DatePickerFocus::Opened),
                    }
                } else {
                    Some(
                        DatePickerFocus::Closed(
                            match reason {
                                Some(reason) => *reason,
                                None => DismissReason::Outside,
                            },
                        ),
                    )
                }
            },
            DatePickerEvent::Calendar(CalendarEvent::FocusMoved { date, .. }) => Some(DatePickerFocus::Day(*date)),
            DatePickerEvent::Calendar(CalendarEvent::SelectionChanged { selection, .. }) => {
                match selection_complete(selection) {
                    Some(true) => Some(DatePickerFocus::Closed(DismissReason::Trigger)),
                    _ => None,
                }
            },
            DatePickerEvent::Calendar(CalendarEvent::MonthChanged(_)) => None,
        }
    }
}

/// How a day reads in the trigger.
#[derive(Debug, Clone, Copy, Default, PartialEq, Eq, Structural)]
pub enum DateFormat {
    Iso,
    MonthDayYear,
    DayMonthYear,
    #[default]
    Long,
}

/// The text of `date` in `format`.
pub open spec fn formatted(format: DateFormat, date: DateModel) -> Seq<char> {
    match format {
        DateFormat::Iso => iso_text(date),
        DateFormat::MonthDayYear => zero_padded(date.month as nat, 2) + seq!['/'] + zero_padded(date.day as nat, 2)
            + seq!['/'] + zero_padded(date.year as nat, 4),
        DateFormat::DayMonthYear => zero_padded(date.day as nat, 2) + seq!['/'] + zero_padded(date.month as nat, 2)
            + seq!['/'] + zero_padded(date.year as nat, 4),
        DateFormat::Long => month_name_of(date.month) + seq![' '] + decimal(date.day as nat) + ", "@ + decimal(
            date.year as nat,
        ),
    }
}

impl DateFormat {
    /// `date` written in this format: `2024-02-29`, `02/29/2024`,
    /// `29/02/2024` or `February 29, 2024`.
    pub fn format(self, date: Date) -> (r: String)
        ensures
            r@ == formatted(self, date@),
    {
        let year = date.year();
        let month = date.month_number();
        let day = date.day();
        match self {
            DateFormat::Iso => date.to_string(),
            DateFormat::MonthDayYear => {
                let mut text = String::new();
                push_zero_padded(&mut text, month as u64, 2);
                push_char(&mut text, '/');
                push_zero_padded(&mut text, day as u64, 2);
                push_char(&mut text, '/');
                push_zero_padded(&mut text, year as u64, 4);
                assert(text@ =~= formatted(self, date@));
                text
            },
            DateFormat::DayMonthYear => {
                let mut text = String::new();
                push_zero_padded(&mut text, day as u64, 2);
                push_char(&mut text, '/');
                push_zero_padded(&mut text, month as u64, 2);
                push_char(&mut text, '/');
                push_zero_padded(&mut text, year as u64, 4);
                assert(text@ =~= formatted(self, date@));
                text
            },
            DateFormat::Long => {
                let mut text = String::from_str(month_name(month));
                push_char(&mut text, ' ');
                push_decimal(&mut text, day as u64);
                text.append(", ");
                push_decimal(&mut text, year as u64);
                assert(text@ =~= formatted(self, date@));
                text
            },
        }
    }
}

/// The trigger text of a value, each day written by `formatter`: nothing for
/// an empty value, `<start> – …` for an open range, `<start> – <end>` for a
/// completed one.
pub fn format_value<F: Fn(Date) -> String>(value: &DatePickerValue, formatter: F) -> (r: Option<String>)
    requires
        forall|d: Date| #[trigger] formatter.requires((d,)),
    ensures
        match *value {
            DatePickerValue::Single(Some(date)) => r matches Some(s) && formatter.ensures((date,), s),
            DatePickerValue::Range(Some(DateRange { start, end: None })) => r matches Some(s) && exists|a: String|
                formatter.ensures((start,), a) && s@ == a@ + " – …"@,
            DatePickerValue::Range(Some(DateRange { start, end: Some(end) })) => r matches Some(s) && exists|
                a: String,
                b: String,
            | formatter.ensures((start,), a) && formatter.ensures((end,), b) && s@ == a@ + " – "@ + b@,
            _ => r is None,
        },
{
    match value {
        DatePickerValue::Single(Some(date)) => Some(formatter(*date)),
        DatePickerValue::Range(Some(range)) => {
            let mut text = formatter(range.start);
            let ghost a = text;
            match range.end {
                None => {
                    text.append(" – …");
                },
                Some(end) => {
                    let b = formatter(end);
                    text.append(" – ");
                    text.append(b.as_str());
                },
            }
            Some(text)
        },
        _ => None,
    }
}

/// The calendar state a picker shows: its month and value, focusing the day
/// only when it lies in that month.
pub fn calendar_state(month: Month, value: &DatePickerValue, focused: Option<Date>) -> (r: CalendarState)
    ensures
        r.shown_month() == month,
        r.current_selection() == value.as_selection(),
        r.focus() == match focused {
            Some(date) => if month@.contains(date@) {
                Some(date)
            } else {
                None
            },
            None => None,
        },
{
    let kept = match focused {
        Some(date) => if month.contains(date) {
            Some(date)
        } else {
            None
        },
        None => None,
    };
    let state = CalendarState::new(month, value.as_calendar_selection()).focused(kept);
    proof {
        if let Some(date) = kept {
            crate::date::lemma_month_view_eq(state.shown_month(), month);
        }
    }
    state
}

impl DatePickerValue {
    pub open spec fn as_selection(self) -> CalendarSelection {
        match self {
            DatePickerValue::Single(selected) => CalendarSelection::Single(selected),
            DatePickerValue::Range(range) => CalendarSelection::Range(range),
        }
    }
}

/// The day numbered `day` of `month`.
pub open spec fn day_of(month: Month, day: int) -> Date {
    date_value(DateModel { year: month@.year, month: month@.number, day }.ordinal())
}

pub open spec fn opt_seq(date: Option<Date>) -> Seq<Date> {
    match date {
        Some(d) => seq![d],
        None => seq![],
    }
}

/// Days tried for initial focus, in order: the value's anchor, the focused
/// day, today, then every day of the month.
pub open spec fn focus_candidates(month: Month, value: DatePickerValue, focused: Option<Date>, today: Option<Date>) -> Seq<
    Date,
> {
    opt_seq(value_anchor(value)) + opt_seq(focused) + opt_seq(today) + Seq::new(
        month@.days() as nat,
        |i: int| day_of(month, i + 1),
    )
}

/// `ok` is a verdict that checking `date` can give: it must lie in the month
/// and the bounds, and then the caller predicate must not disable it.
pub open spec fn focus_verdict<F: Fn(Date) -> bool>(
    month: Month,
    min: Option<Date>,
    max: Option<Date>,
    disabled: Option<&F>,
    date: Date,
    ok: bool,
) -> bool {
    let allowed = month@.contains(date@) && !(min matches Some(m) && date@.before(m@)) && !(max matches Some(m)
        && m@.before(date@));
    if !allowed {
        !ok
    } else {
        match disabled {
            Some(f) => f.ensures((date,), !ok),
            None => ok,
        }
    }
}

/// One check of `date`.
fn focus_allowed<F: Fn(Date) -> bool>(
    month: Month,
    min: Option<Date>,
    max: Option<Date>,
    disabled: Option<&F>,
    date: Date,
) -> (r: bool)
    requires
        disabled matches Some(f) ==> forall|d: Date| #[trigger] f.requires((d,)),
    ensures
        focus_verdict(month, min, max, disabled, date, r),
{
    if !month.contains(date) {
        return false;
    }
    if let Some(m) = min {
        if date.is_before(m) {
            return false;
        }
    }
    if let Some(m) = max {
        if m.is_before(date) {
            return false;
        }
    }
    match disabled {
        Some(test) => !test(date),
        None => true,
    }
}

/// The day that takes focus when the picker opens: the first candidate of
/// `focus_candidates` that lies in the month, within the bounds, and is not
/// disabled.
pub fn preferred_focus<F: Fn(Date) -> bool>(
    month: Month,
    value: &DatePickerValue,
    focused: Option<Date>,
    today: Option<Date>,
    min: Option<Date>,
    max: Option<Date>,
    disabled: Option<&F>,
) -> (r: Option<Date>)
    requires
        disabled matches Some(f) ==> forall|d: Date| #[trigger] f.requires((d,)),
    ensures
        ({
            let candidates = focus_candidates(month, *value, focused, today);
            match r {
                Some(date) => exists|k: int|
                    0 <= k < candidates.len() && candidates[k] == date && focus_verdict(month, min, max, disabled, date, true)
                        && forall|j: int| 0 <= j < k ==> focus_verdict(month, min, max, disabled, #[trigger] candidates[j], false),
                None => forall|k: int| 0 <= k < candidates.len() ==> focus_verdict(month, min, max, disabled, #[trigger] candidates[k], false),
            }
        }),
{
    let ghost candidates = focus_candidates(month, *value, focused, today);
    let mut first: Vec<Date> = Vec::new();
    if let Some(d) = value.anchor() {
        first.push(d);
    }
    if let Some(d) = focused {
        first.push(d);
    }
    if let Some(d) = today {
        first.push(d);
    }
    assert(first@ =~= opt_seq(value_anchor(*value)) + opt_seq(focused) + opt_seq(today));
    let mut index: usize = 0;
    while index < first.len()
        invariant
            0 <= index <= first.len(),
            first@.len() <= 3,
            candidates == focus_candidates(month, *value, focused, today),
            candidates == first@ + Seq::new(month@.days() as nat, |i: int| day_of(month, i + 1)),
            disabled matches Some(f) ==> forall|d: Date| #[trigger] f.requires((d,)),
            forall|j: int| 0 <= j < index ==> focus_verdict(month, min, max, disabled, #[trigger] candidates[j], false),
        decreases first.len() - index,
    {
        let d = first[index];
        if focus_allowed(month, min, max, disabled, d) {
            assert(candidates[index as int] == d);
            return Some(d);
        }
        assert(candidates[index as int] == d);
        index = index + 1;
    }
    let days = month.days();
    let year = month.year();
    let number = month.number();
    let ghost offset = first@.len() as int;
    let mut day: u8 = 1;
    while day <= days
        invariant
            1 <= day <= days as int + 1,
            days as int == month@.days(),
            year as int == month@.year,
            number as int == month@.number,
            month@.wf(),
            days <= 31,
            offset == first@.len(),
            candidates == focus_candidates(month, *value, focused, today),
            candidates == first@ + Seq::new(month@.days() as nat, |i: int| day_of(month, i + 1)),
            disabled matches Some(f) ==> forall|d: Date| #[trigger] f.requires((d,)),
            forall|j: int| 0 <= j < offset + day - 1 ==> focus_verdict(month, min, max, disabled, #[trigger] candidates[j], false),
        decreases days as int + 1 - day,
    {
        let made = Date::new(year, number, day);
        let d = match made {
            Ok(d) => d,
            Err(_) => {
                proof {
                    assert(false);
                }
                return None;
            },
        };
        proof {
            crate::calendar::lemma_date_value(d);
            assert(candidates[offset + day - 1] == day_of(month, day as int));
        }
        if focus_allowed(month, min, max, disabled, d) {
            assert(candidates[offset + day - 1] == d);
            assert(0 <= offset + day - 1 < candidates.len());
            return Some(d);
        }
        day = day + 1;
    }
    None
}


/// Choosing two days in an empty range picker completes the same range in
/// either order, and a completed choice closes the picker while an open
/// range keeps it open.
pub proof fn lemma_range_choice_order_free(a: Date, b: Date)
    requires
        a@.wf(),
        b@.wf(),
    ensures
        value_selected(value_selected(DatePickerValue::Range(None), a), b) == value_selected(
            value_selected(DatePickerValue::Range(None), b),
            a,
        ),
        value_complete(value_selected(value_selected(DatePickerValue::Range(None), a), b)),
        !value_complete(value_selected(DatePickerValue::Range(None), a)),
        selection_done(value_selected(value_selected(DatePickerValue::Range(None), a), b).as_selection()) == Some(true),
        selection_done(value_selected(DatePickerValue::Range(None), a).as_selection()) == Some(false),
{
    crate::calendar::lemma_inclusive_range_order_free(a, b);
}

/// The day that takes focus on opening lies in the shown month, within the
/// bounds, and the caller predicate reported it enabled.
pub proof fn lemma_preferred_focus_is_allowed<F: Fn(Date) -> bool>(
    month: Month,
    min: Option<Date>,
    max: Option<Date>,
    disabled: Option<&F>,
    date: Date,
)
    requires
        focus_verdict(month, min, max, disabled, date, true),
    ensures
        month@.contains(date@),
        min matches Some(m) ==> !date@.before(m@),
        max matches Some(m) ==> !m@.before(date@),
        disabled matches Some(f) ==> f.ensures((date,), false),
{
}

} // verus!
