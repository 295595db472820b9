//! Controlled calendar selection and keyboard-complete day-grid navigation.

use vstd::prelude::*;
use vstd::relations::*;
use crate::date::{
    MAX_YEAR, MIN_YEAR, add_months, add_years, Date, DateModel, MAX_ORDINAL, Month, MonthModel, date_at, lemma_date_at, lemma_date_view_eq,
    lemma_ordinal_bounds, lemma_ordinal_injective, ordinal_in_range,
};
use crate::direction::Direction;
use crate::keys::Key;

verus! {

broadcast use vstd::seq_lib::group_to_multiset_ensures;

/// Calendar order on dates, as a "less than or equal" relation.
pub open spec fn date_leq() -> spec_fn(Date, Date) -> bool {
    |a: Date, b: Date| !b@.before(a@)
}

/// Calendar order is a total order on every date value.
pub proof fn lemma_date_leq_total()
    ensures
        total_ordering(date_leq()),
{
    let leq = date_leq();
    assert forall|a: Date, b: Date| #[trigger] leq(a, b) && #[trigger] leq(b, a) implies a == b by {
        lemma_date_view_eq(a, b);
    }
}

/// Every date but `date`.
pub open spec fn other_than(date: Date) -> spec_fn(Date) -> bool {
    |x: Date| x != date
}

/// A selected range of days. An open range has only its first day.
#[derive(Debug, Clone, Copy, PartialEq, Eq, Structural)]
pub struct DateRange {
    pub start: Date,
    pub end: Option<Date>,
}

/// The range spanning two days, whichever order they come in.
pub open spec fn inclusive_range(first: Date, second: Date) -> DateRange {
    if !second@.before(first@) {
        DateRange { start: first, end: Some(second) }
    } else {
        DateRange { start: second, end: Some(first) }
    }
}

impl DateRange {
    /// Whether a completed range spans `date`, both ends included.
    pub open spec fn covers(self, date: DateModel) -> bool {
        &&& self.end is Some
        &&& !date.before(self.start@)
        &&& !self.end->0@.before(date)
    }

    pub fn open(start: Date) -> (r: DateRange)
        ensures
            r == (DateRange { start, end: None }),
    {
        DateRange { start, end: None }
    }

    pub fn inclusive(first: Date, second: Date) -> (r: DateRange)
        ensures
            r == inclusive_range(first, second),
    {
        if !second.is_before(first) {
            DateRange { start: first, end: Some(second) }
        } else {
            DateRange { start: second, end: Some(first) }
        }
    }

    pub fn contains(self, date: Date) -> (r: bool)
        ensures
            r == self.covers(date@),
    {
        match self.end {
            Some(end) => !date.is_before(self.start) && !end.is_before(date),
            None => false,
        }
    }

    pub fn is_complete(self) -> (r: bool)
        ensures
            r == self.end is Some,
    {
        self.end.is_some()
    }
}

/// The three controlled selection models of the calendar.
#[derive(Debug, PartialEq, Eq)]
pub enum CalendarSelection {
    Single(Option<Date>),
    Multiple(Vec<Date>),
    Range(Option<DateRange>),
}

impl CalendarSelection {
    /// Whether the selection marks `date` as selected.
    pub open spec fn selects(self, date: Date) -> bool {
        match self {
            CalendarSelection::Single(selected) => selected == Some(date),
            CalendarSelection::Multiple(selected) => selected@.contains(date),
            CalendarSelection::Range(Some(range)) => range.covers(date@) || range.start == date,
            CalendarSelection::Range(None) => false,
        }
    }

    /// The selection after activating `date`, given the selection `r` that
    /// came back.
    pub open spec fn selected_as(self, date: Date, r: CalendarSelection) -> bool {
        match self {
            CalendarSelection::Single(_) => r == CalendarSelection::Single(Some(date)),
            CalendarSelection::Multiple(old) => match r {
                CalendarSelection::Multiple(new) => if old@.contains(date) {
                    new@ == old@.filter(other_than(date))
                } else {
                    new@ == old@.push(date).sort_by(date_leq())
                },
                _ => false,
            },
            CalendarSelection::Range(Some(DateRange { start, end: None })) => r
                == CalendarSelection::Range(Some(inclusive_range(start, date))),
            CalendarSelection::Range(_) => r == CalendarSelection::Range(
                Some(DateRange { start: date, end: None }),
            ),
        }
    }

    pub fn is_selected(&self, date: Date) -> (r: bool)
        ensures
            r == self.selects(date),
    {
        match self {
            CalendarSelection::Single(selected) => match selected {
                Some(selected) => *selected == date,
                None => false,
            },
            CalendarSelection::Multiple(selected) => contains_date(selected, date),
            CalendarSelection::Range(Some(range)) => range.contains(date) || range.start == date,
            CalendarSelection::Range(None) => false,
        }
    }

    /// Activates one day: Single replaces, Multiple toggles and keeps days
    /// sorted, Range starts a new range or completes an open one.
    pub fn selected(self, date: Date) -> (r: CalendarSelection)
        ensures
            self.selected_as(date, r),
    {
        match self {
            CalendarSelection::Single(_) => CalendarSelection::Single(Some(date)),
            CalendarSelection::Multiple(selected) => {
                if contains_date(&selected, date) {
                    CalendarSelection::Multiple(without_date(&selected, date))
                } else {
                    let mut selected = selected;
                    selected.push(date);
                    CalendarSelection::Multiple(sort_dates(&selected))
                }
            },
            CalendarSelection::Range(Some(DateRange { start, end: None })) => {
                CalendarSelection::Range(Some(DateRange::inclusive(start, date)))
            },
            CalendarSelection::Range(_) => CalendarSelection::Range(Some(DateRange::open(date))),
        }
    }

    pub fn clear(&mut self)
        ensures
            match *old(self) {
                CalendarSelection::Single(_) => *final(self) == CalendarSelection::Single(None),
                CalendarSelection::Multiple(_) => *final(self) matches CalendarSelection::Multiple(v)
                    && v@.len() == 0,
                CalendarSelection::Range(_) => *final(self) == CalendarSelection::Range(None),
            },
    {
        match self {
            CalendarSelection::Single(_) => {
                *self = CalendarSelection::Single(None);
            },
            CalendarSelection::Multiple(_) => {
                *self = CalendarSelection::Multiple(Vec::new());
            },
            CalendarSelection::Range(_) => {
                *self = CalendarSelection::Range(None);
            },
        }
    }

    pub fn range(&self) -> (r: Option<DateRange>)
        ensures
            r == match *self {
                CalendarSelection::Range(range) => range,
                _ => None,
            },
    {
        match self {
            CalendarSelection::Range(range) => *range,
            _ => None,
        }
    }
}

/// Whether `dates` holds `date`.
pub fn contains_date(dates: &Vec<Date>, date: Date) -> (r: bool)
    ensures
        r == dates@.contains(date),
{
    let mut index: usize = 0;
    while index < dates.len()
        invariant
            0 <= index <= dates.len(),
            forall|i: int| 0 <= i < index ==> dates@[i] != date,
        decreases dates.len() - index,
    {
        if dates[index] == date {
            return true;
        }
        index = index + 1;
    }
    false
}

/// `dates` without any copy of `date`, in the original order.
fn without_date(dates: &Vec<Date>, date: Date) -> (r: Vec<Date>)
    ensures
        r@ == dates@.filter(other_than(date)),
{
    let ghost keep = other_than(date);
    let mut kept: Vec<Date> = Vec::new();
    let mut index: usize = 0;
    while index < dates.len()
        invariant
            0 <= index <= dates.len(),
            keep == other_than(date),
            kept@ == dates@.take(index as int).filter(keep),
        decreases dates.len() - index,
    {
        proof {
            assert(dates@.take(index as int + 1).drop_last() =~= dates@.take(index as int));
            reveal(Seq::filter);
        }
        if dates[index] != date {
            kept.push(dates[index]);
        }
        index = index + 1;
    }
    proof {
        assert(dates@.take(dates@.len() as int) =~= dates@);
    }
    kept
}

/// The same days in calendar order.
fn sort_dates(dates: &Vec<Date>) -> (r: Vec<Date>)
    ensures
        r@ == dates@.sort_by(date_leq()),
{
    let ghost leq = date_leq();
    let mut sorted: Vec<Date> = Vec::new();
    let mut index: usize = 0;
    while index < dates.len()
        invariant
            0 <= index <= dates.len(),
            leq == date_leq(),
            sorted_by(sorted@, leq),
            sorted@.to_multiset() == dates@.take(index as int).to_multiset(),
        decreases dates.len() - index,
    {
        let date = dates[index];
        let mut position: usize = 0;
        while position < sorted.len() && !date.is_before(sorted[position])
            invariant
                0 <= position <= sorted.len(),
                leq == date_leq(),
                forall|i: int| 0 <= i < position ==> leq(#[trigger] sorted@[i], date),
            decreases sorted.len() - position,
        {
            position = position + 1;
        }
        let ghost before = sorted@;
        sorted.insert(position, date);
        proof {
            assert(forall|i: int| position <= i < before.len() ==> leq(date, #[trigger] before[i])) by {
                assert forall|i: int| position <= i < before.len() implies leq(date, #[trigger] before[i]) by {
                    assert(leq(before[position as int], before[i]) || i == position);
                }
            }
            assert(sorted_by(sorted@, leq)) by {
                assert forall|i: int, j: int| 0 <= i < j < sorted@.len() implies #[trigger] leq(sorted@[i], sorted@[j]) by {
                    if j < position {
                    } else if j == position {
                    } else if i < position {
                        assert(leq(sorted@[i], date));
                        assert(leq(date, sorted@[j]));
                    } else if i == position {
                    } else {
                    }
                }
            }
            assert(sorted@ =~= before.take(position as int).push(date) + before.skip(position as int));
            assert(before =~= before.take(position as int) + before.skip(position as int));
            vstd::seq_lib::lemma_multiset_commutative(before.take(position as int).push(date), before.skip(position as int));
            vstd::seq_lib::lemma_multiset_commutative(before.take(position as int), before.skip(position as int));
            assert(dates@.take(index as int + 1) =~= dates@.take(index as int).push(date));
        }
        index = index + 1;
    }
    proof {
        assert(dates@.take(dates@.len() as int) =~= dates@);
        lemma_date_leq_total();
        dates@.lemma_sort_by_ensures(leq);
        vstd::seq_lib::lemma_sorted_unique(sorted@, dates@.sort_by(leq), leq);
    }
    sorted
}


/// The supported date whose ordinal is `n`.
pub open spec fn date_value(n: int) -> Date {
    choose|d: Date| d@.wf() && d@.ordinal() == n
}

/// The only supported date with a given ordinal is `date_value` of it.
pub proof fn lemma_date_value(d: Date)
    requires
        d@.wf(),
    ensures
        date_value(d@.ordinal()) == d,
{
    let n = d@.ordinal();
    let c = date_value(n);
    assert(c@.wf() && c@.ordinal() == n);
    lemma_ordinal_injective(c@, d@);
    lemma_date_view_eq(c, d);
}

/// Hard bounds and a caller predicate that disable days.
pub struct CalendarConstraints<F> {
    min: Option<Date>,
    max: Option<Date>,
    disabled: Option<F>,
}

impl<F> CalendarConstraints<F> {
    pub closed spec fn min_date(self) -> Option<Date> {
        self.min
    }

    pub closed spec fn max_date(self) -> Option<Date> {
        self.max
    }

    pub closed spec fn predicate(self) -> Option<F> {
        self.disabled
    }

    /// Whether a day lies before the minimum or after the maximum.
    pub open spec fn out_of_bounds(self, date: DateModel) -> bool {
        ||| self.min_date() matches Some(min) && date.before(min@)
        ||| self.max_date() matches Some(max) && max@.before(date)
    }

    /// Whether a month lies within the months of the minimum and maximum.
    pub open spec fn month_within(self, month: MonthModel) -> bool {
        &&& self.min_date() matches Some(min) ==> min@.month_of().index() <= month.index()
        &&& self.max_date() matches Some(max) ==> month.index() <= max@.month_of().index()
    }

    pub fn new() -> (r: Self)
        ensures
            r.min_date() is None,
            r.max_date() is None,
            r.predicate() is None,
    {
        CalendarConstraints { min: None, max: None, disabled: None }
    }

    pub fn min(self, min: Option<Date>) -> (r: Self)
        ensures
            r.min_date() == min,
            r.max_date() == self.max_date(),
            r.predicate() == self.predicate(),
    {
        CalendarConstraints { min, max: self.max, disabled: self.disabled }
    }

    pub fn max(self, max: Option<Date>) -> (r: Self)
        ensures
            r.min_date() == self.min_date(),
            r.max_date() == max,
            r.predicate() == self.predicate(),
    {
        CalendarConstraints { min: self.min, max, disabled: self.disabled }
    }

    pub fn disabled_dates(self, disabled: F) -> (r: Self)
        ensures
            r.min_date() == self.min_date(),
            r.max_date() == self.max_date(),
            r.predicate() == Some(disabled),
    {
        CalendarConstraints { min: self.min, max: self.max, disabled: Some(disabled) }
    }

    pub fn minimum(&self) -> (r: Option<Date>)
        ensures
            r == self.min_date(),
    {
        self.min
    }

    pub fn maximum(&self) -> (r: Option<Date>)
        ensures
            r == self.max_date(),
    {
        self.max
    }
}

impl<F: Fn(Date) -> bool> CalendarConstraints<F> {
    /// The caller predicate accepts every day.
    pub open spec fn callable(self) -> bool {
        self.predicate() matches Some(f) ==> forall|d: Date| #[trigger] f.requires((d,))
    }

    /// `disabled` is a result that asking whether `date` is disabled can give.
    pub open spec fn answers(self, date: Date, disabled: bool) -> bool {
        if self.out_of_bounds(date@) {
            disabled
        } else {
            match self.predicate() {
                Some(f) => f.ensures((date,), disabled),
                None => !disabled,
            }
        }
    }

    pub fn is_disabled(&self, date: Date) -> (r: bool)
        requires
            self.callable(),
        ensures
            self.answers(date, r),
    {
        let below = match self.min {
            Some(min) => date.is_before(min),
            None => false,
        };
        let above = match self.max {
            Some(max) => max.is_before(date),
            None => false,
        };
        if below || above {
            return true;
        }
        match &self.disabled {
            Some(test) => test(date),
            None => false,
        }
    }

    /// Whether `month` lies within the months of the hard bounds.
    pub fn month_in_bounds(&self, month: Month) -> (r: bool)
        ensures
            r == self.month_within(month@),
    {
        let after_min = match self.min {
            Some(min) => !month.is_before(min.month()),
            None => true,
        };
        let before_max = match self.max {
            Some(max) => !max.month().is_before(month),
            None => true,
        };
        after_min && before_max
    }

    pub fn month_has_enabled_day(&self, month: Month) -> (r: bool)
        requires
            self.callable(),
        ensures
            r ==> exists|d: Date| d@.wf() && month@.contains(d@) && #[trigger] self.answers(d, false),
            !r ==> forall|d: Date| d@.wf() && month@.contains(d@) ==> #[trigger] self.answers(d, true),
    {
        let days = month.days();
        let mut day: u8 = 1;
        while day <= days
            invariant
                1 <= day <= days + 1,
                days as int == month@.days(),
                month@.wf(),
                self.callable(),
                forall|d: Date| d@.wf() && month@.contains(d@) && d@.day < day ==> #[trigger] self.answers(d, true),
            decreases days + 1 - day,
        {
            let date = match Date::new(month.year(), month.number(), day) {
                Ok(date) => date,
                Err(_) => {
                    proof {
                        assert(false);
                    }
                    return false;
                },
            };
            let disabled = self.is_disabled(date);
            if !disabled {
                assert(date@.wf() && month@.contains(date@) && self.answers(date, false));
                return true;
            }
            proof {
                assert forall|d: Date| d@.wf() && month@.contains(d@) && d@.day < day + 1 implies #[trigger] self.answers(d, true) by {
                    if d@.day == day {
                        lemma_date_view_eq(d, date);
                    }
                }
            }
            day = day + 1;
        }
        false
    }
}

/// One keyboard movement inside the day grid.
#[derive(Debug, Clone, Copy, PartialEq, Eq, Structural)]
pub enum CalendarCommand {
    PreviousDay,
    NextDay,
    PreviousWeek,
    NextWeek,
    WeekStart,
    WeekEnd,
    PreviousMonth,
    NextMonth,
    PreviousYear,
    NextYear,
}

/// Maps a key to a day-grid command. Shift turns page keys into year moves;
/// right-to-left layouts swap the horizontal arrows.
pub fn keyboard_command(key: &Key, shift: bool, direction: Direction) -> (r: Option<CalendarCommand>)
    ensures
        r == match *key {
            Key::ArrowLeft => Some(
                if direction == Direction::LeftToRight {
                    CalendarCommand::PreviousDay
                } else {
                    CalendarCommand::NextDay
                },
            ),
            Key::ArrowRight => Some(
                if direction == Direction::LeftToRight {
                    CalendarCommand::NextDay
                } else {
                    CalendarCommand::PreviousDay
                },
            ),
            Key::ArrowUp => Some(CalendarCommand::PreviousWeek),
            Key::ArrowDown => Some(CalendarCommand::NextWeek),
            Key::Home => Some(CalendarCommand::WeekStart),
            Key::End => Some(CalendarCommand::WeekEnd),
            Key::PageUp => Some(
                if shift {
                    CalendarCommand::PreviousYear
                } else {
                    CalendarCommand::PreviousMonth
                },
            ),
            Key::PageDown => Some(
                if shift {
                    CalendarCommand::NextYear
                } else {
                    CalendarCommand::NextMonth
                },
            ),
            _ => None,
        },
{
    match key {
        Key::ArrowLeft => Some(
            match direction {
                Direction::LeftToRight => CalendarCommand::PreviousDay,
                Direction::RightToLeft => CalendarCommand::NextDay,
            },
        ),
        Key::ArrowRight => Some(
            match direction {
                Direction::LeftToRight => CalendarCommand::NextDay,
                Direction::RightToLeft => CalendarCommand::PreviousDay,
            },
        ),
        Key::ArrowUp => Some(CalendarCommand::PreviousWeek),
        Key::ArrowDown => Some(CalendarCommand::NextWeek),
        Key::Home => Some(CalendarCommand::WeekStart),
        Key::End => Some(CalendarCommand::WeekEnd),
        Key::PageUp => Some(
            if shift {
                CalendarCommand::PreviousYear
            } else {
                CalendarCommand::PreviousMonth
            },
        ),
        Key::PageDown => Some(
            if shift {
                CalendarCommand::NextYear
            } else {
                CalendarCommand::NextMonth
            },
        ),
        _ => None,
    }
}


/// Whether ordinal `n` is at or past `start` when stepping by `direction`.
pub open spec fn ahead(start: int, direction: int, n: int) -> bool {
    if direction > 0 {
        start <= n
    } else {
        n <= start
    }
}

impl<F: Fn(Date) -> bool> CalendarConstraints<F> {
    /// `r` is what a scan from ordinal `start`, stepping by `direction` and
    /// confined to the ordinals `lo..=hi`, can find: the first day that came
    /// back enabled, every earlier day having come back disabled; or `None`
    /// once every day up to the edge came back disabled.
    pub open spec fn scan_result(self, start: int, direction: int, lo: int, hi: int, r: Option<Date>) -> bool {
        match r {
            Some(found) => {
                &&& found@.wf()
                &&& lo <= found@.ordinal() <= hi
                &&& ahead(start, direction, found@.ordinal())
                &&& self.answers(found, false)
                &&& forall|n: int|
                    ahead(start, direction, n) && !ahead(found@.ordinal(), direction, n) ==> #[trigger] self.answers(
                        date_value(n),
                        true,
                    )
            },
            None => forall|n: int|
                lo <= n <= hi && ahead(start, direction, n) ==> #[trigger] self.answers(date_value(n), true),
        }
    }

    /// What `navigation_target` owes for `command` from `current`.
    pub open spec fn navigation_result(self, current: DateModel, command: CalendarCommand, r: Option<Date>) -> bool {
        let o = current.ordinal();
        let weekday = current.weekday_index();
        let step = |target: int, direction: int|
            if ordinal_in_range(target) {
                self.scan_result(target, direction, 0, MAX_ORDINAL as int, r)
            } else {
                r is None
            };
        let shifted = |target: Option<DateModel>, direction: int|
            match target {
                Some(t) => self.scan_result(t.ordinal(), direction, 0, MAX_ORDINAL as int, r),
                None => r is None,
            };
        match command {
            CalendarCommand::PreviousDay => step(o - 1, -1),
            CalendarCommand::NextDay => step(o + 1, 1),
            CalendarCommand::PreviousWeek => step(o - 7, -1),
            CalendarCommand::NextWeek => step(o + 7, 1),
            CalendarCommand::WeekStart => {
                let start = o - weekday;
                if ordinal_in_range(start) && ordinal_in_range(start + 6) {
                    self.scan_result(start, 1, start, start + 6, r)
                } else {
                    r is None
                }
            },
            CalendarCommand::WeekEnd => {
                let end = o + 6 - weekday;
                if ordinal_in_range(end) && ordinal_in_range(end - 6) {
                    self.scan_result(end, -1, end - 6, end, r)
                } else {
                    r is None
                }
            },
            CalendarCommand::PreviousMonth => shifted(add_months(current, -1), -1),
            CalendarCommand::NextMonth => shifted(add_months(current, 1), 1),
            CalendarCommand::PreviousYear => shifted(add_years(current, -1), -1),
            CalendarCommand::NextYear => shifted(add_years(current, 1), 1),
        }
    }
}

/// Finds the next enabled date for one keyboard command.
pub fn navigation_target<F: Fn(Date) -> bool>(
    current: Date,
    command: CalendarCommand,
    constraints: &CalendarConstraints<F>,
) -> (r: Option<Date>)
    requires
        constraints.callable(),
    ensures
        constraints.navigation_result(current@, command, r),
{
    match command {
        CalendarCommand::PreviousDay => match current.checked_add_days(-1) {
            Some(candidate) => enabled_from(candidate, -1, None, constraints),
            None => None,
        },
        CalendarCommand::NextDay => match current.checked_add_days(1) {
            Some(candidate) => enabled_from(candidate, 1, None, constraints),
            None => None,
        },
        CalendarCommand::PreviousWeek => match current.checked_add_days(-7) {
            Some(candidate) => enabled_from(candidate, -1, None, constraints),
            None => None,
        },
        CalendarCommand::NextWeek => match current.checked_add_days(7) {
            Some(candidate) => enabled_from(candidate, 1, None, constraints),
            None => None,
        },
        CalendarCommand::WeekStart => {
            let weekday = current.weekday().index_from_sunday() as i32;
            let start = match current.checked_add_days(-weekday) {
                Some(start) => start,
                None => return None,
            };
            let end = match start.checked_add_days(6) {
                Some(end) => end,
                None => return None,
            };
            enabled_from(start, 1, Some((start, end)), constraints)
        },
        CalendarCommand::WeekEnd => {
            let weekday = current.weekday().index_from_sunday() as i32;
            let end = match current.checked_add_days(6 - weekday) {
                Some(end) => end,
                None => return None,
            };
            let start = match end.checked_add_days(-6) {
                Some(start) => start,
                None => return None,
            };
            enabled_from(end, -1, Some((start, end)), constraints)
        },
        CalendarCommand::PreviousMonth => match current.checked_add_months(-1) {
            Some(candidate) => enabled_from(candidate, -1, None, constraints),
            None => None,
        },
        CalendarCommand::NextMonth => match current.checked_add_months(1) {
            Some(candidate) => enabled_from(candidate, 1, None, constraints),
            None => None,
        },
        CalendarCommand::PreviousYear => match current.checked_add_years(-1) {
            Some(candidate) => enabled_from(candidate, -1, None, constraints),
            None => None,
        },
        CalendarCommand::NextYear => match current.checked_add_years(1) {
            Some(candidate) => enabled_from(candidate, 1, None, constraints),
            None => None,
        },
    }
}

/// Steps from `candidate` by `direction` days until a day comes back enabled,
/// the week `bounds` are left, or the supported range ends.
fn enabled_from<F: Fn(Date) -> bool>(
    candidate: Date,
    direction: i32,
    bounds: Option<(Date, Date)>,
    constraints: &CalendarConstraints<F>,
) -> (r: Option<Date>)
    requires
        direction == 1 || direction == -1,
        constraints.callable(),
        bounds matches Some((start, end)) ==> start@.ordinal() <= candidate@.ordinal() <= end@.ordinal(),
    ensures
        ({
            let lo = match bounds {
                Some((start, _)) => start@.ordinal(),
                None => 0,
            };
            let hi = match bounds {
                Some((_, end)) => end@.ordinal(),
                None => MAX_ORDINAL as int,
            };
            constraints.scan_result(candidate@.ordinal(), direction as int, lo, hi, r)
        }),
{
    let ghost origin = candidate@.ordinal();
    let ghost lo = match bounds {
        Some((start, _)) => start@.ordinal(),
        None => 0,
    };
    let ghost hi = match bounds {
        Some((_, end)) => end@.ordinal(),
        None => MAX_ORDINAL as int,
    };
    let _ = candidate.ordinal();
    if let Some((start, end)) = bounds {
        let _ = start.ordinal();
        let _ = end.ordinal();
    }
    let mut current = candidate;
    loop
        invariant
            origin == candidate@.ordinal(),
            direction == 1 || direction == -1,
            constraints.callable(),
            current@.wf(),
            0 <= lo,
            hi <= MAX_ORDINAL,
            lo == match bounds {
                Some((start, _)) => start@.ordinal(),
                None => 0,
            },
            hi == match bounds {
                Some((_, end)) => end@.ordinal(),
                None => MAX_ORDINAL as int,
            },
            bounds matches Some((start, end)) ==> start@.wf() && end@.wf(),
            lo <= current@.ordinal() <= hi,
            ahead(origin, direction as int, current@.ordinal()),
            forall|n: int|
                ahead(origin, direction as int, n) && !ahead(current@.ordinal(), direction as int, n)
                    ==> #[trigger] constraints.answers(date_value(n), true),
        decreases (if direction > 0 {
            hi - current@.ordinal()
        } else {
            current@.ordinal() - lo
        }),
    {
        if !constraints.is_disabled(current) {
            return Some(current);
        }
        proof {
            lemma_date_value(current);
        }
        let next = match current.checked_add_days(direction) {
            Some(next) => next,
            None => return None,
        };
        let _ = next.ordinal();
        if let Some((start, end)) = bounds {
            if next.is_before(start) || end.is_before(next) {
                proof {
                    crate::date::lemma_before_is_ordinal_order(next@, start@);
                    crate::date::lemma_before_is_ordinal_order(end@, next@);
                }
                return None;
            }
            proof {
                crate::date::lemma_before_is_ordinal_order(next@, start@);
                crate::date::lemma_before_is_ordinal_order(end@, next@);
            }
        }
        current = next;
    }
}


impl CalendarSelection {
    /// Same model with the same days, in the same order.
    pub open spec fn same_as(self, other: CalendarSelection) -> bool {
        match (self, other) {
            (CalendarSelection::Single(a), CalendarSelection::Single(b)) => a == b,
            (CalendarSelection::Multiple(a), CalendarSelection::Multiple(b)) => a@ == b@,
            (CalendarSelection::Range(a), CalendarSelection::Range(b)) => a == b,
            _ => false,
        }
    }

    /// Whether two selections hold the same model and days.
    pub fn equals(&self, other: &CalendarSelection) -> (r: bool)
        ensures
            r == self.same_as(*other),
    {
        match (self, other) {
            (CalendarSelection::Single(a), CalendarSelection::Single(b)) => *a == *b,
            (CalendarSelection::Multiple(a), CalendarSelection::Multiple(b)) => {
                if a.len() != b.len() {
                    return false;
                }
                let mut index: usize = 0;
                while index < a.len()
                    invariant
                        a.len() == b.len(),
                        self.same_as(*other) <==> a@ == b@,
                        0 <= index <= a.len(),
                        forall|i: int| 0 <= i < index ==> a@[i] == b@[i],
                    decreases a.len() - index,
                {
                    if a[index] != b[index] {
                        proof {
                            assert(a@[index as int] != b@[index as int]);
                            assert(a@ != b@);
                        }
                        return false;
                    }
                    index = index + 1;
                }
                proof {
                    assert(a@ =~= b@);
                }
                true
            },
            (CalendarSelection::Range(a), CalendarSelection::Range(b)) => *a == *b,
            _ => false,
        }
    }
}

impl Clone for CalendarSelection {
    fn clone(&self) -> (r: CalendarSelection)
        ensures
            r.same_as(*self),
    {
        match self {
            CalendarSelection::Single(selected) => CalendarSelection::Single(*selected),
            CalendarSelection::Multiple(selected) => {
                let mut copy: Vec<Date> = Vec::new();
                let mut index: usize = 0;
                while index < selected.len()
                    invariant
                        0 <= index <= selected.len(),
                        copy@ == selected@.take(index as int),
                    decreases selected.len() - index,
                {
                    copy.push(selected[index]);
                    proof {
                        assert(selected@.take(index as int + 1) =~= selected@.take(index as int).push(selected@[index as int]));
                    }
                    index = index + 1;
                }
                proof {
                    assert(selected@.take(selected@.len() as int) =~= selected@);
                }
                CalendarSelection::Multiple(copy)
            },
            CalendarSelection::Range(range) => CalendarSelection::Range(*range),
        }
    }
}

/// The month shown, the controlled selection and the focused day.
#[derive(Debug, PartialEq, Eq)]
pub struct CalendarState {
    month: Month,
    selection: CalendarSelection,
    focused: Option<Date>,
}

/// One state change emitted by the calendar.
#[derive(Debug, Clone, PartialEq, Eq)]
pub enum CalendarEvent {
    SelectionChanged { selection: CalendarSelection, focused: Date },
    FocusMoved { date: Date, month: Month },
    MonthChanged(Month),
}

/// The focused day carried into `month`: the same day number, clamped to the
/// month's length.
pub open spec fn day_in_month(date: Date, month: MonthModel) -> DateModel {
    DateModel {
        year: month.year,
        month: month.number,
        day: if date@.day <= month.days() {
            date@.day
        } else {
            month.days()
        },
    }
}

/// What applying `event` to `before` leaves: a selection moves focus to its
/// day and shows that day's month; focus movement shows the given month; a
/// month change carries the focused day over, clamped to the month's length.
pub open spec fn applied(before: CalendarState, event: CalendarEvent, after: CalendarState) -> bool {
    match event {
        CalendarEvent::SelectionChanged { selection, focused } => {
            &&& after.shown_month()@ == focused@.month_of()
            &&& after.current_selection().same_as(selection)
            &&& after.focus() == Some(focused)
        },
        CalendarEvent::FocusMoved { date, month } => {
            &&& after.shown_month() == month
            &&& after.current_selection() == before.current_selection()
            &&& after.focus() == Some(date)
        },
        CalendarEvent::MonthChanged(month) => {
            &&& after.shown_month() == month
            &&& after.current_selection() == before.current_selection()
            &&& match before.focus() {
                Some(date) => after.focus() matches Some(moved) && moved@ == day_in_month(date, month@),
                None => after.focus() is None,
            }
        },
    }
}

impl CalendarState {
    pub closed spec fn shown_month(self) -> Month {
        self.month
    }

    pub closed spec fn current_selection(self) -> CalendarSelection {
        self.selection
    }

    pub closed spec fn focus(self) -> Option<Date> {
        self.focused
    }

    /// Same month, selection and focus.
    pub open spec fn same_as(self, other: CalendarState) -> bool {
        &&& self.shown_month() == other.shown_month()
        &&& self.current_selection().same_as(other.current_selection())
        &&& self.focus() == other.focus()
    }

    pub fn new(month: Month, selection: CalendarSelection) -> (r: CalendarState)
        ensures
            r.shown_month() == month,
            r.current_selection() == selection,
            r.focus() is None,
    {
        CalendarState { month, selection, focused: None }
    }

    /// Sets the focused day; a focused day also moves the shown month.
    pub fn focused(self, focused: Option<Date>) -> (r: CalendarState)
        ensures
            r.focus() == focused,
            r.current_selection() == self.current_selection(),
            match focused {
                Some(date) => r.shown_month()@ == date@.month_of(),
                None => r.shown_month() == self.shown_month(),
            },
    {
        let month = match focused {
            Some(date) => date.month(),
            None => self.month,
        };
        CalendarState { month, selection: self.selection, focused }
    }

    pub fn month(&self) -> (r: Month)
        ensures
            r == self.shown_month(),
    {
        self.month
    }

    pub fn selection(&self) -> (r: &CalendarSelection)
        ensures
            *r == self.current_selection(),
    {
        &self.selection
    }

    pub fn focused_date(&self) -> (r: Option<Date>)
        ensures
            r == self.focus(),
    {
        self.focused
    }

    /// Applies one event and reports whether month, selection or focus changed.
    pub fn apply(&mut self, event: &CalendarEvent) -> (changed: bool)
        ensures
            applied(*old(self), *event, *final(self)),
            changed == !final(self).same_as(*old(self)),
    {
        match event {
            CalendarEvent::SelectionChanged { selection, focused } => {
                let month = focused.month();
                let same = self.month == month && self.selection.equals(selection) && self.focused
                    == Some(*focused);
                self.month = month;
                self.selection = selection.clone();
                self.focused = Some(*focused);
                proof {
                    crate::date::lemma_month_view_eq(self.month, month);
                }
                !same
            },
            CalendarEvent::FocusMoved { date, month } => {
                let same = self.month == *month && self.focused == Some(*date);
                self.month = *month;
                self.focused = Some(*date);
                !same
            },
            CalendarEvent::MonthChanged(month) => {
                let focused = match self.focused {
                    Some(date) => {
                        let days = month.days();
                        let day = if date.day() <= days {
                            date.day()
                        } else {
                            days
                        };
                        match Date::new(month.year(), month.number(), day) {
                            Ok(moved) => Some(moved),
                            Err(_) => {
                                proof {
                                    assert(false);
                                }
                                None
                            },
                        }
                    },
                    None => None,
                };
                let same = self.month == *month && self.focused == focused;
                self.month = *month;
                self.focused = focused;
                !same
            },
        }
    }
}

impl CalendarEvent {
    pub fn selection(&self) -> (r: Option<&CalendarSelection>)
        ensures
            match *self {
                CalendarEvent::SelectionChanged { selection, .. } => r == Some(&selection),
                _ => r is None,
            },
    {
        match self {
            CalendarEvent::SelectionChanged { selection, .. } => Some(selection),
            _ => None,
        }
    }

    pub fn month(&self) -> (r: Option<Month>)
        ensures
            match *self {
                CalendarEvent::SelectionChanged { focused, .. } => r matches Some(m) && m@
                    == focused@.month_of(),
                CalendarEvent::FocusMoved { month, .. } => r == Some(month),
                CalendarEvent::MonthChanged(month) => r == Some(month),
            },
    {
        match self {
            CalendarEvent::SelectionChanged { focused, .. } => Some(focused.month()),
            CalendarEvent::FocusMoved { month, .. } => Some(*month),
            CalendarEvent::MonthChanged(month) => Some(*month),
        }
    }

    pub fn focused(&self) -> (r: Option<Date>)
        ensures
            r == match *self {
                CalendarEvent::SelectionChanged { focused, .. } => Some(focused),
                CalendarEvent::FocusMoved { date, .. } => Some(date),
                CalendarEvent::MonthChanged(_) => None,
            },
    {
        match self {
            CalendarEvent::SelectionChanged { focused, .. } => Some(*focused),
            CalendarEvent::FocusMoved { date, .. } => Some(*date),
            CalendarEvent::MonthChanged(_) => None,
        }
    }
}


impl Clone for CalendarState {
    fn clone(&self) -> (r: CalendarState)
        ensures
            r.same_as(*self),
    {
        CalendarState { month: self.month, selection: self.selection.clone(), focused: self.focused }
    }
}

/// A month offered by the month dropdown.
#[derive(Debug, Clone, Copy, PartialEq, Eq, Structural)]
pub struct MonthOption(u8);

impl MonthOption {
    #[verifier::type_invariant]
    spec fn inv(self) -> bool {
        1 <= self.0 <= 12
    }

    pub closed spec fn value(self) -> int {
        self.0 as int
    }

    pub fn new(number: u8) -> (r: Option<MonthOption>)
        ensures
            r is Some <==> 1 <= number <= 12,
            r matches Some(option) ==> option.value() == number,
    {
        if number >= 1 && number <= 12 {
            Some(MonthOption(number))
        } else {
            None
        }
    }

    pub fn number(self) -> (r: u8)
        ensures
            r as int == self.value(),
            1 <= r <= 12,
    {
        proof {
            use_type_invariant(self);
        }
        self.0
    }
}

impl MonthOption {
    /// The month's English name.
    pub fn to_string(&self) -> (r: String)
        ensures
            r@ == crate::date::month_name_of(self.value()),
    {
        proof {
            use_type_invariant(self);
        }
        String::from_str(crate::date::month_name(self.0))
    }
}

impl YearOption {
    /// The year in decimal.
    pub fn to_string(&self) -> (r: String)
        ensures
            r@ == crate::text::signed_decimal(self.value()),
    {
        let mut text = String::new();
        crate::text::push_signed(&mut text, self.0 as i64);
        text
    }
}

/// All twelve months, January first.
pub fn month_options() -> (r: Vec<MonthOption>)
    ensures
        r@.len() == 12,
        forall|i: int| 0 <= i < 12 ==> (#[trigger] r@[i]).value() == i + 1,
{
    let mut options: Vec<MonthOption> = Vec::new();
    let mut number: u8 = 1;
    while number <= 12
        invariant
            1 <= number <= 13,
            options@.len() == number - 1,
            forall|i: int| 0 <= i < options@.len() ==> (#[trigger] options@[i]).value() == i + 1,
        decreases 13 - number,
    {
        options.push(MonthOption(number));
        number = number + 1;
    }
    options
}

/// A year offered by the year dropdown.
#[derive(Debug, Clone, Copy, PartialEq, Eq, Structural)]
pub struct YearOption(i32);

impl YearOption {
    pub closed spec fn value(self) -> int {
        self.0 as int
    }

    pub fn year(self) -> (r: i32)
        ensures
            r as int == self.value(),
    {
        self.0
    }
}

pub open spec fn clamp_year(year: int) -> int {
    if year < MIN_YEAR {
        MIN_YEAR as int
    } else if year > MAX_YEAR {
        MAX_YEAR as int
    } else {
        year
    }
}

/// The supported years from `start` to `end`, both clamped to the supported
/// range; empty when the clamped start comes after the clamped end.
pub fn year_options(start: i32, end: i32) -> (r: Vec<YearOption>)
    ensures
        ({
            let first = clamp_year(start as int);
            let last = clamp_year(end as int);
            &&& first > last ==> r@.len() == 0
            &&& first <= last ==> r@.len() == last - first + 1
            &&& forall|i: int| 0 <= i < r@.len() ==> (#[trigger] r@[i]).value() == first + i
        }),
{
    let start = if start < MIN_YEAR {
        MIN_YEAR
    } else if start > MAX_YEAR {
        MAX_YEAR
    } else {
        start
    };
    let end = if end < MIN_YEAR {
        MIN_YEAR
    } else if end > MAX_YEAR {
        MAX_YEAR
    } else {
        end
    };
    let mut options: Vec<YearOption> = Vec::new();
    if start > end {
        return options;
    }
    let mut year = start;
    while year <= end
        invariant
            MIN_YEAR <= start <= year <= end + 1,
            end <= MAX_YEAR,
            options@.len() == year - start,
            forall|i: int| 0 <= i < options@.len() ==> (#[trigger] options@[i]).value() == start + i,
        decreases end + 1 - year,
    {
        options.push(YearOption(year));
        year = year + 1;
    }
    options
}

/// How one day cell presents itself.
#[derive(Debug, Clone, Copy, Default, PartialEq, Eq, Structural)]
pub struct DayVisualState {
    pub today: bool,
    pub selected: bool,
    pub range_start: bool,
    pub range_middle: bool,
    pub range_end: bool,
    pub outside: bool,
    pub disabled: bool,
    pub focused: bool,
}

pub fn day_visual_state(
    date: Date,
    month: Month,
    selection: &CalendarSelection,
    today: Option<Date>,
    focused: Option<Date>,
    disabled: bool,
) -> (r: DayVisualState)
    ensures
        r.today == (today == Some(date)),
        r.selected == selection.selects(date),
        r.range_start == (selection matches CalendarSelection::Range(Some(range)) && range.start == date),
        r.range_middle == (selection matches CalendarSelection::Range(Some(range)) && range.end matches Some(end)
            && range.start@.before(date@) && date@.before(end@)),
        r.range_end == (selection matches CalendarSelection::Range(Some(range)) && range.end == Some(date)),
        r.outside == !month@.contains(date@),
        r.disabled == disabled,
        r.focused == (focused == Some(date)),
{
    let range = selection.range();
    let (range_start, range_middle, range_end) = match range {
        Some(range) => {
            let middle = match range.end {
                Some(end) => range.start.is_before(date) && date.is_before(end),
                None => false,
            };
            let end = match range.end {
                Some(end) => end == date,
                None => false,
            };
            (range.start == date, middle, end)
        },
        None => (false, false, false),
    };
    DayVisualState {
        today: match today {
            Some(today) => today == date,
            None => false,
        },
        selected: selection.is_selected(date),
        range_start,
        range_middle,
        range_end,
        outside: !month.contains(date),
        disabled,
        focused: match focused {
            Some(focused) => focused == date,
            None => false,
        },
    }
}


/// Presentation choices and constraints of one controlled calendar.
pub struct Calendar<F> {
    id: String,
    state: CalendarState,
    today: Option<Date>,
    constraints: CalendarConstraints<F>,
    show_outside_days: bool,
    week_numbers: bool,
    month_dropdown: bool,
    year_dropdown: bool,
    year_range: (i32, i32),
    direction: Direction,
}

/// Starts a calendar for `state` with every option at its default: no today,
/// no constraints, outside days shown, no week numbers, no dropdowns, years
/// fifty either side of the shown year, left-to-right.
pub fn controlled_calendar<F>(id: String, state: &CalendarState) -> (r: Calendar<F>)
    ensures
        r.identifier() == id,
        r.state().same_as(*state),
        r.today_date() is None,
        r.limits().min_date() is None,
        r.limits().max_date() is None,
        r.limits().predicate() is None,
        r.shows_outside_days(),
        !r.shows_week_numbers(),
        !r.has_month_dropdown(),
        !r.has_year_dropdown(),
        r.years() == (
        clamp_year(state.shown_month()@.year - 50) as i32,
        clamp_year(state.shown_month()@.year + 50) as i32,
        ),
        r.layout_direction() == Direction::LeftToRight,
{
    let year = state.month.year();
    let first = if year - 50 < MIN_YEAR {
        MIN_YEAR
    } else {
        year - 50
    };
    let last = if year + 50 > MAX_YEAR {
        MAX_YEAR
    } else {
        year + 50
    };
    Calendar {
        id,
        state: state.clone(),
        today: None,
        constraints: CalendarConstraints::new(),
        show_outside_days: true,
        week_numbers: false,
        month_dropdown: false,
        year_dropdown: false,
        year_range: (first, last),
        direction: Direction::LeftToRight,
    }
}

impl<F> Calendar<F> {
    pub closed spec fn identifier(self) -> String {
        self.id
    }

    pub closed spec fn state(self) -> CalendarState {
        self.state
    }

    pub closed spec fn today_date(self) -> Option<Date> {
        self.today
    }

    pub closed spec fn limits(self) -> CalendarConstraints<F> {
        self.constraints
    }

    pub closed spec fn shows_outside_days(self) -> bool {
        self.show_outside_days
    }

    pub closed spec fn shows_week_numbers(self) -> bool {
        self.week_numbers
    }

    pub closed spec fn has_month_dropdown(self) -> bool {
        self.month_dropdown
    }

    pub closed spec fn has_year_dropdown(self) -> bool {
        self.year_dropdown
    }

    pub closed spec fn years(self) -> (i32, i32) {
        self.year_range
    }

    pub closed spec fn layout_direction(self) -> Direction {
        self.direction
    }

    /// Everything but the listed parts is unchanged.
    pub open spec fn same_except(self, other: Calendar<F>, today: bool, limits: bool, flags: bool, years: bool, direction: bool) -> bool {
        &&& self.identifier() == other.identifier()
        &&& self.state() == other.state()
        &&& !today ==> self.today_date() == other.today_date()
        &&& !limits ==> self.limits() == other.limits()
        &&& !flags ==> {
            &&& self.shows_outside_days() == other.shows_outside_days()
            &&& self.shows_week_numbers() == other.shows_week_numbers()
            &&& self.has_month_dropdown() == other.has_month_dropdown()
            &&& self.has_year_dropdown() == other.has_year_dropdown()
        }
        &&& !years ==> self.years() == other.years()
        &&& !direction ==> self.layout_direction() == other.layout_direction()
    }

    pub fn today(self, today: Option<Date>) -> (r: Calendar<F>)
        ensures
            r.today_date() == today,
            r.same_except(self, true, false, false, false, false),
    {
        Calendar { today, ..self }
    }

    pub fn min(self, min: Option<Date>) -> (r: Calendar<F>)
        ensures
            r.limits().min_date() == min,
            r.limits().max_date() == self.limits().max_date(),
            r.limits().predicate() == self.limits().predicate(),
            r.same_except(self, false, true, false, false, false),
    {
        let Calendar {
            id,
            state,
            today,
            constraints,
            show_outside_days,
            week_numbers,
            month_dropdown,
            year_dropdown,
            year_range,
            direction,
        } = self;
        Calendar {
            id,
            state,
            today,
            constraints: constraints.min(min),
            show_outside_days,
            week_numbers,
            month_dropdown,
            year_dropdown,
            year_range,
            direction,
        }
    }

    pub fn max(self, max: Option<Date>) -> (r: Calendar<F>)
        ensures
            r.limits().min_date() == self.limits().min_date(),
            r.limits().max_date() == max,
            r.limits().predicate() == self.limits().predicate(),
            r.same_except(self, false, true, false, false, false),
    {
        let Calendar {
            id,
            state,
            today,
            constraints,
            show_outside_days,
            week_numbers,
            month_dropdown,
            year_dropdown,
            year_range,
            direction,
        } = self;
        Calendar {
            id,
            state,
            today,
            constraints: constraints.max(max),
            show_outside_days,
            week_numbers,
            month_dropdown,
            year_dropdown,
            year_range,
            direction,
        }
    }

    pub fn disabled_dates(self, disabled: F) -> (r: Calendar<F>)
        ensures
            r.limits().min_date() == self.limits().min_date(),
            r.limits().max_date() == self.limits().max_date(),
            r.limits().predicate() == Some(disabled),
            r.same_except(self, false, true, false, false, false),
    {
        let Calendar {
            id,
            state,
            today,
            constraints,
            show_outside_days,
            week_numbers,
            month_dropdown,
            year_dropdown,
            year_range,
            direction,
        } = self;
        Calendar {
            id,
            state,
            today,
            constraints: constraints.disabled_dates(disabled),
            show_outside_days,
            week_numbers,
            month_dropdown,
            year_dropdown,
            year_range,
            direction,
        }
    }

    pub fn show_outside_days(self, show: bool) -> (r: Calendar<F>)
        ensures
            r.shows_outside_days() == show,
            r.shows_week_numbers() == self.shows_week_numbers(),
            r.has_month_dropdown() == self.has_month_dropdown(),
            r.has_year_dropdown() == self.has_year_dropdown(),
            r.same_except(self, false, false, true, false, false),
    {
        Calendar { show_outside_days: show, ..self }
    }

    pub fn week_numbers(self, show: bool) -> (r: Calendar<F>)
        ensures
            r.shows_outside_days() == self.shows_outside_days(),
            r.shows_week_numbers() == show,
            r.has_month_dropdown() == self.has_month_dropdown(),
            r.has_year_dropdown() == self.has_year_dropdown(),
            r.same_except(self, false, false, true, false, false),
    {
        Calendar { week_numbers: show, ..self }
    }

    pub fn month_dropdown(self, show: bool) -> (r: Calendar<F>)
        ensures
            r.shows_outside_days() == self.shows_outside_days(),
            r.shows_week_numbers() == self.shows_week_numbers(),
            r.has_month_dropdown() == show,
            r.has_year_dropdown() == self.has_year_dropdown(),
            r.same_except(self, false, false, true, false, false),
    {
        Calendar { month_dropdown: show, ..self }
    }

    pub fn year_dropdown(self, show: bool) -> (r: Calendar<F>)
        ensures
            r.shows_outside_days() == self.shows_outside_days(),
            r.shows_week_numbers() == self.shows_week_numbers(),
            r.has_month_dropdown() == self.has_month_dropdown(),
            r.has_year_dropdown() == show,
            r.same_except(self, false, false, true, false, false),
    {
        Calendar { year_dropdown: show, ..self }
    }

    /// Sets the dropdown's year span, clamped to the supported years; a
    /// reversed span is ignored.
    pub fn year_range(self, start: i32, end: i32) -> (r: Calendar<F>)
        ensures
            start <= end ==> r.years() == (clamp_year(start as int) as i32, clamp_year(end as int) as i32),
            start > end ==> r.years() == self.years(),
            r.same_except(self, false, false, false, true, false),
    {
        if start <= end {
            let first = if start < MIN_YEAR {
                MIN_YEAR
            } else if start > MAX_YEAR {
                MAX_YEAR
            } else {
                start
            };
            let last = if end < MIN_YEAR {
                MIN_YEAR
            } else if end > MAX_YEAR {
                MAX_YEAR
            } else {
                end
            };
            Calendar { year_range: (first, last), ..self }
        } else {
            self
        }
    }

    pub fn direction(self, direction: Direction) -> (r: Calendar<F>)
        ensures
            r.layout_direction() == direction,
            r.same_except(self, false, false, false, false, true),
    {
        Calendar { direction, ..self }
    }
}

impl<F: Fn(Date) -> bool> Calendar<F> {
    /// A day that cannot take focus: outside the shown month, or reported
    /// disabled.
    pub open spec fn excluded(self, date: Date) -> bool {
        !self.state().shown_month()@.contains(date@) || self.limits().answers(date, true)
    }

    /// Every day of the shown month before day `day` that `pick` accepts is
    /// excluded.
    pub open spec fn excluded_before(self, day: int, pick: spec_fn(Date) -> bool) -> bool {
        forall|x: Date|
            x@.wf() && self.state().shown_month()@.contains(x@) && x@.day < day && pick(x) ==> #[trigger] self.excluded(x)
    }

    /// The one day cell that takes part in sequential focus: the focused day,
    /// else the first selected day, else today, else the first day, each only
    /// when it lies in the shown month and is not disabled.
    pub fn day_tab_stop(&self) -> (r: Option<Date>)
        requires
            self.limits().callable(),
        ensures
            ({
                let month = self.state().shown_month()@;
                let focus = self.state().focus();
                let selection = self.state().current_selection();
                let today = self.today_date();
                let focus_out = match focus {
                    Some(f) => self.excluded(f),
                    None => true,
                };
                let today_out = match today {
                    Some(t) => self.excluded(t),
                    None => true,
                };
                let selected = |x: Date| selection.selects(x);
                let any = |x: Date| true;
                let selected_out = self.excluded_before(32, selected);
                match r {
                    Some(d) => {
                        &&& month.contains(d@)
                        &&& self.limits().answers(d, false)
                        &&& {
                            ||| focus == Some(d)
                            ||| focus_out && selection.selects(d) && self.excluded_before(d@.day, selected)
                            ||| focus_out && selected_out && today == Some(d)
                            ||| focus_out && selected_out && today_out && self.excluded_before(d@.day, any)
                        }
                    },
                    None => focus_out && selected_out && today_out && self.excluded_before(32, any),
                }
            }),
    {
        let month = self.state.month;
        let ghost selection = self.state.selection;
        let ghost selected = |x: Date| selection.selects(x);
        let ghost any = |x: Date| true;
        if let Some(focused) = self.state.focused {
            if month.contains(focused) && !self.constraints.is_disabled(focused) {
                return Some(focused);
            }
        }
        let days = month.days();
        let mut day: u8 = 1;
        while day <= days
            invariant
                1 <= day <= days + 1,
                days as int == month@.days(),
                month@.wf(),
                month == self.state().shown_month(),
                selection == self.state().current_selection(),
                selected == (|x: Date| selection.selects(x)),
                self.limits().callable(),
                match self.state().focus() {
                    Some(f) => self.excluded(f),
                    None => true,
                },
                self.excluded_before(day as int, selected),
            decreases days + 1 - day,
        {
            let date = match Date::new(month.year(), month.number(), day) {
                Ok(date) => date,
                Err(_) => {
                    proof {
                        assert(false);
                    }
                    return None;
                },
            };
            let enabled = !self.constraints.is_disabled(date);
            if enabled && self.state.selection.is_selected(date) {
                return Some(date);
            }
            proof {
                assert forall|x: Date|
                    x@.wf() && self.state().shown_month()@.contains(x@) && x@.day < day + 1 && selected(x) implies #[trigger] self.excluded(x) by {
                    if x@.day == day {
                        lemma_date_view_eq(x, date);
                    }
                }
            }
            day = day + 1;
        }
        proof {
            assert forall|x: Date|
                x@.wf() && self.state().shown_month()@.contains(x@) && x@.day < 32 && selected(x) implies #[trigger] self.excluded(x) by {
                assert(x@.day < day);
            }
        }
        if let Some(today) = self.today {
            if month.contains(today) && !self.constraints.is_disabled(today) {
                return Some(today);
            }
        }
        let mut day: u8 = 1;
        while day <= days
            invariant
                1 <= day <= days + 1,
                days as int == month@.days(),
                month@.wf(),
                month == self.state().shown_month(),
                selection == self.state().current_selection(),
                selected == (|x: Date| selection.selects(x)),
                any == (|x: Date| true),
                self.limits().callable(),
                match self.state().focus() {
                    Some(f) => self.excluded(f),
                    None => true,
                },
                match self.today_date() {
                    Some(t) => self.excluded(t),
                    None => true,
                },
                self.excluded_before(32, selected),
                self.excluded_before(day as int, any),
            decreases days + 1 - day,
        {
            let date = match Date::new(month.year(), month.number(), day) {
                Ok(date) => date,
                Err(_) => {
                    proof {
                        assert(false);
                    }
                    return None;
                },
            };
            if !self.constraints.is_disabled(date) {
                return Some(date);
            }
            proof {
                assert forall|x: Date|
                    x@.wf() && self.state().shown_month()@.contains(x@) && x@.day < day + 1 && any(x) implies #[trigger] self.excluded(x) by {
                    if x@.day == day {
                        lemma_date_view_eq(x, date);
                    }
                }
            }
            day = day + 1;
        }
        proof {
            assert forall|x: Date|
                x@.wf() && self.state().shown_month()@.contains(x@) && x@.day < 32 && any(x) implies #[trigger] self.excluded(x) by {
                assert(x@.day < day);
            }
        }
        None
    }

    /// The month the previous-month button moves to: the previous month,
    /// unless it ends before the minimum's month.
    pub fn previous_month_target(&self) -> (r: Option<Month>)
        ensures
            match self.state().shown_month()@.previous() {
                Some(previous) => if self.limits().min_date() matches Some(min) && previous.index() < min@.month_of().index() {
                    r is None
                } else {
                    r matches Some(m) && m@ == previous
                },
                None => r is None,
            },
    {
        match self.state.month.previous() {
            Some(previous) => match self.constraints.minimum() {
                Some(minimum) => if !previous.is_before(minimum.month()) {
                    Some(previous)
                } else {
                    None
                },
                None => Some(previous),
            },
            None => None,
        }
    }

    /// The month the next-month button moves to: the next month, unless it
    /// starts after the maximum's month.
    pub fn next_month_target(&self) -> (r: Option<Month>)
        ensures
            match self.state().shown_month()@.next() {
                Some(next) => if self.limits().max_date() matches Some(max) && max@.month_of().index() < next.index() {
                    r is None
                } else {
                    r matches Some(m) && m@ == next
                },
                None => r is None,
            },
    {
        match self.state.month.next() {
            Some(next) => match self.constraints.maximum() {
                Some(maximum) => if !maximum.month().is_before(next) {
                    Some(next)
                } else {
                    None
                },
                None => Some(next),
            },
            None => None,
        }
    }

    /// Months of the shown year that lie within the hard bounds.
    pub fn caption_month_options(&self) -> (r: Vec<MonthOption>)
        ensures
            forall|i: int| 0 <= i < r@.len() ==> 1 <= (#[trigger] r@[i]).value() <= 12,
            forall|i: int, j: int| 0 <= i < j < r@.len() ==> r@[i].value() < r@[j].value(),
            forall|n: int|
                1 <= n <= 12 ==> (self.limits().month_within(MonthModel { year: self.state().shown_month()@.year, number: n })
                    <==> exists|i: int| 0 <= i < r@.len() && (#[trigger] r@[i]).value() == n),
    {
        let year = self.state.month.year();
        let mut options: Vec<MonthOption> = Vec::new();
        let mut number: u8 = 1;
        while number <= 12
            invariant
                1 <= number <= 13,
                year as int == self.state().shown_month()@.year,
                crate::date::year_in_range(year as int),
                forall|i: int| 0 <= i < options@.len() ==> 1 <= (#[trigger] options@[i]).value() < number,
                forall|i: int, j: int| 0 <= i < j < options@.len() ==> options@[i].value() < options@[j].value(),
                forall|n: int|
                    1 <= n < number ==> (self.limits().month_within(MonthModel { year: year as int, number: n })
                        <==> exists|i: int| 0 <= i < options@.len() && (#[trigger] options@[i]).value() == n),
            decreases 13 - number,
        {
            let month = match Month::new(year, number) {
                Ok(month) => month,
                Err(_) => {
                    proof {
                        assert(false);
                    }
                    return options;
                },
            };
            if self.constraints.month_in_bounds(month) {
                let ghost before = options@;
                options.push(MonthOption(number));
                proof {
                    assert forall|n: int|
                        1 <= n < number + 1 implies (self.limits().month_within(MonthModel { year: year as int, number: n })
                            <==> exists|i: int| 0 <= i < options@.len() && (#[trigger] options@[i]).value() == n) by {
                        if n == number {
                            assert(options@[options@.len() - 1].value() == n);
                        } else if self.limits().month_within(MonthModel { year: year as int, number: n }) {
                            let i = choose|i: int| 0 <= i < before.len() && (#[trigger] before[i]).value() == n;
                            assert(options@[i] == before[i]);
                        } else {
                            assert forall|i: int| 0 <= i < options@.len() implies (#[trigger] options@[i]).value() != n by {
                                if i < before.len() {
                                    assert(options@[i] == before[i]);
                                }
                            }
                        }
                    }
                }
            }
            number = number + 1;
        }
        options
    }

    /// Years of the dropdown span whose shown month lies within the bounds.
    pub fn caption_year_options(&self) -> (r: Vec<YearOption>)
        ensures
            forall|i: int, j: int| 0 <= i < j < r@.len() ==> r@[i].value() < r@[j].value(),
            forall|y: int|
                (exists|i: int| 0 <= i < r@.len() && (#[trigger] r@[i]).value() == y) <==> (
                clamp_year(self.years().0 as int) <= y <= clamp_year(self.years().1 as int)
                    && self.limits().month_within(MonthModel { year: y, number: self.state().shown_month()@.number })),
    {
        let number = self.state.month.number();
        let candidates = year_options(self.year_range.0, self.year_range.1);
        let ghost first = clamp_year(self.years().0 as int);
        let ghost last = clamp_year(self.years().1 as int);
        let mut options: Vec<YearOption> = Vec::new();
        let mut index: usize = 0;
        while index < candidates.len()
            invariant
                0 <= index <= candidates.len(),
                number as int == self.state().shown_month()@.number,
                1 <= number <= 12,
                first == clamp_year(self.years().0 as int),
                last == clamp_year(self.years().1 as int),
                first > last ==> candidates@.len() == 0,
                first <= last ==> candidates@.len() == last - first + 1,
                forall|i: int| 0 <= i < candidates@.len() ==> (#[trigger] candidates@[i]).value() == first + i,
                forall|i: int| 0 <= i < options@.len() ==> first <= (#[trigger] options@[i]).value() < first + index,
                forall|i: int, j: int| 0 <= i < j < options@.len() ==> options@[i].value() < options@[j].value(),
                forall|y: int|
                    first <= y < first + index ==> ((exists|i: int| 0 <= i < options@.len() && (#[trigger] options@[i]).value() == y) <==> self.limits().month_within(
                        MonthModel { year: y, number: number as int },
                    )),
            decreases candidates.len() - index,
        {
            let year = candidates[index].year();
            let month = match Month::new(year, number) {
                Ok(month) => month,
                Err(_) => {
                    proof {
                        assert(false);
                    }
                    return options;
                },
            };
            if self.constraints.month_in_bounds(month) {
                let ghost before = options@;
                options.push(candidates[index]);
                proof {
                    assert forall|y: int|
                        first <= y < first + index + 1 implies ((exists|i: int| 0 <= i < options@.len() && (#[trigger] options@[i]).value() == y) <==> self.limits().month_within(
                            MonthModel { year: y, number: number as int },
                        )) by {
                        if y == first + index {
                            assert(options@[options@.len() - 1].value() == y);
                        } else if self.limits().month_within(MonthModel { year: y, number: number as int }) {
                            let i = choose|i: int| 0 <= i < before.len() && (#[trigger] before[i]).value() == y;
                            assert(options@[i] == before[i]);
                        } else {
                            assert forall|i: int| 0 <= i < options@.len() implies (#[trigger] options@[i]).value() != y by {
                                if i < before.len() {
                                    assert(options@[i] == before[i]);
                                }
                            }
                        }
                    }
                }
            }
            index = index + 1;
        }
        proof {
            assert forall|i: int| 0 <= i < options@.len() implies first <= (#[trigger] options@[i]).value() <= last by {
                assert(first <= options@[i].value() < first + candidates@.len());
            }
            assert forall|y: int|
                #![trigger self.limits().month_within(MonthModel { year: y, number: number as int })]
                (exists|i: int| 0 <= i < options@.len() && (#[trigger] options@[i]).value() == y) implies first <= y <= last by {
                let i = choose|i: int| 0 <= i < options@.len() && (#[trigger] options@[i]).value() == y;
            }
        }
        options
    }
}


/// A range completed from two days is the same whichever day came first,
/// and its start never lies after its end.
pub proof fn lemma_inclusive_range_order_free(a: Date, b: Date)
    requires
        a@.wf(),
        b@.wf(),
    ensures
        inclusive_range(a, b) == inclusive_range(b, a),
        !inclusive_range(a, b).end->0@.before(inclusive_range(a, b).start@),
{
    crate::date::lemma_before_is_ordinal_order(a@, b@);
    crate::date::lemma_before_is_ordinal_order(b@, a@);
    if !a@.before(b@) && !b@.before(a@) {
        crate::date::lemma_ordinal_injective(a@, b@);
        crate::date::lemma_date_view_eq(a, b);
    }
}


/// Keyboard navigation only ever lands on a day within the hard bounds that
/// the caller predicate reported enabled.
pub proof fn lemma_navigation_lands_on_enabled<F: Fn(Date) -> bool>(
    constraints: CalendarConstraints<F>,
    current: DateModel,
    command: CalendarCommand,
    r: Option<Date>,
)
    requires
        constraints.navigation_result(current, command, r),
        r is Some,
    ensures
        !constraints.out_of_bounds(r->0@),
        constraints.answers(r->0, false),
        r->0@.wf(),
{
}


/// Stable focus key of one day cell of the calendar `calendar_id`.
pub fn day_focus_id(calendar_id: &str, date: Date) -> (r: String)
    ensures
        r@ == "ducktape-calendar:"@ + calendar_id@ + ":day:"@ + crate::date::iso_text(date@),
{
    let mut key = String::from_str("ducktape-calendar:");
    key.append(calendar_id);
    key.append(":day:");
    let day = date.to_string();
    key.append(day.as_str());
    key
}


/// Applying the same event twice changes nothing the second time: `apply`
/// then reports no change.
pub proof fn lemma_apply_is_idempotent(
    first: CalendarState,
    event: CalendarEvent,
    second: CalendarState,
    third: CalendarState,
)
    requires
        applied(first, event, second),
        applied(second, event, third),
    ensures
        third.same_as(second),
{
    match event {
        CalendarEvent::SelectionChanged { selection, focused } => {
            crate::date::lemma_month_view_eq(third.shown_month(), second.shown_month());
        },
        CalendarEvent::FocusMoved { .. } => {},
        CalendarEvent::MonthChanged(month) => {
            if let Some(moved) = second.focus() {
                let again = third.focus()->0;
                assert(again@ == moved@);
                lemma_date_view_eq(again, moved);
            }
        },
    }
}


/// Index of the first day of `days` that comes after `date`, or the length.
pub open spec fn insertion_point(days: Seq<Date>, date: Date) -> int
    decreases days.len(),
{
    if days.len() == 0 {
        0
    } else if !date_leq()(days[0], date) {
        0
    } else {
        1 + insertion_point(days.drop_first(), date)
    }
}

proof fn lemma_insertion_point(days: Seq<Date>, date: Date)
    ensures
        0 <= insertion_point(days, date) <= days.len(),
        forall|i: int| 0 <= i < insertion_point(days, date) ==> date_leq()(#[trigger] days[i], date),
        insertion_point(days, date) < days.len() ==> !date_leq()(days[insertion_point(days, date)], date),
    decreases days.len(),
{
    if days.len() > 0 && date_leq()(days[0], date) {
        lemma_insertion_point(days.drop_first(), date);
        assert forall|i: int| 0 <= i < insertion_point(days, date) implies date_leq()(#[trigger] days[i], date) by {
            if i > 0 {
                assert(days[i] == days.drop_first()[i - 1]);
            }
        }
    }
}

/// Selecting a day twice in multiple mode gives back a sorted selection
/// without repeats that did not hold it: the day is added in calendar order,
/// then removed again.
pub proof fn lemma_multiple_toggle_twice(days: Seq<Date>, date: Date)
    requires
        sorted_by(days, date_leq()),
        !days.contains(date),
    ensures
        days.push(date).sort_by(date_leq()).contains(date),
        days.push(date).sort_by(date_leq()).filter(other_than(date)) == days,
{
    let leq = date_leq();
    lemma_date_leq_total();
    lemma_insertion_point(days, date);
    let p = insertion_point(days, date);
    let placed = days.take(p).push(date) + days.skip(p);
    assert(sorted_by(placed, leq)) by {
        assert forall|i: int, j: int| 0 <= i < j < placed.len() implies #[trigger] leq(placed[i], placed[j]) by {
            if j < p {
                assert(placed[i] == days[i] && placed[j] == days[j]);
            } else if j == p {
                assert(placed[i] == days[i]);
            } else if i < p {
                assert(placed[i] == days[i] && placed[j] == days[j - 1]);
                assert(leq(days[i], date));
                assert(!leq(days[p], date));
                assert(leq(date, days[p]));
                if j - 1 > p {
                    assert(leq(days[p], days[j - 1]));
                }
            } else if i == p {
                assert(placed[j] == days[j - 1]);
                assert(leq(date, days[p]));
                if j - 1 > p {
                    assert(leq(days[p], days[j - 1]));
                }
            } else {
                assert(placed[i] == days[i - 1] && placed[j] == days[j - 1]);
            }
        }
    }
    assert(days =~= days.take(p) + days.skip(p));
    vstd::seq_lib::lemma_multiset_commutative(days.take(p).push(date), days.skip(p));
    vstd::seq_lib::lemma_multiset_commutative(days.take(p), days.skip(p));
    assert(placed.to_multiset() == days.push(date).to_multiset());
    days.push(date).lemma_sort_by_ensures(leq);
    vstd::seq_lib::lemma_sorted_unique(placed, days.push(date).sort_by(leq), leq);
    assert(placed[p] == date);
    let keep = other_than(date);
    assert(placed =~= days.take(p) + (seq![date] + days.skip(p)));
    Seq::filter_distributes_over_add(days.take(p), seq![date] + days.skip(p), keep);
    Seq::filter_distributes_over_add(seq![date], days.skip(p), keep);
    assert(seq![date].filter(keep) =~= Seq::<Date>::empty()) by {
        reveal_with_fuel(Seq::filter, 2);
        assert(seq![date].drop_last() =~= Seq::<Date>::empty());
        assert(!keep(date));
    }
    assert(forall|i: int| 0 <= i < days.take(p).len() ==> keep(#[trigger] days.take(p)[i])) by {
        assert forall|i: int| 0 <= i < days.take(p).len() implies keep(#[trigger] days.take(p)[i]) by {
            assert(days.take(p)[i] == days[i]);
        }
    }
    assert(forall|i: int| 0 <= i < days.skip(p).len() ==> keep(#[trigger] days.skip(p)[i])) by {
        assert forall|i: int| 0 <= i < days.skip(p).len() implies keep(#[trigger] days.skip(p)[i]) by {
            assert(days.skip(p)[i] == days[p + i]);
        }
    }
    crate::seqs::lemma_filter_keeps_all(days.take(p), keep);
    crate::seqs::lemma_filter_keeps_all(days.skip(p), keep);
}



/// The days of a multiple selection after activating `date`: removed when
/// present, otherwise added in calendar order.
pub open spec fn toggled_days(days: Seq<Date>, date: Date) -> Seq<Date> {
    if days.contains(date) {
        days.filter(other_than(date))
    } else {
        days.push(date).sort_by(date_leq())
    }
}

/// Sorting a sorted sequence with one more day places that day at its
/// insertion point.
proof fn lemma_sorted_insert(days: Seq<Date>, date: Date)
    requires
        sorted_by(days, date_leq()),
    ensures
        days.push(date).sort_by(date_leq()) == days.take(insertion_point(days, date)).push(date) + days.skip(
            insertion_point(days, date),
        ),
        sorted_by(days.push(date).sort_by(date_leq()), date_leq()),
{
    let leq = date_leq();
    lemma_date_leq_total();
    lemma_insertion_point(days, date);
    let p = insertion_point(days, date);
    let placed = days.take(p).push(date) + days.skip(p);
    assert(sorted_by(placed, leq)) by {
        assert forall|i: int, j: int| 0 <= i < j < placed.len() implies #[trigger] leq(placed[i], placed[j]) by {
            if j < p {
                assert(placed[i] == days[i] && placed[j] == days[j]);
            } else if j == p {
                assert(placed[i] == days[i]);
            } else if i < p {
                assert(placed[i] == days[i] && placed[j] == days[j - 1]);
                assert(leq(days[i], date));
                assert(!leq(days[p], date));
                assert(leq(date, days[p]));
                if j - 1 > p {
                    assert(leq(days[p], days[j - 1]));
                }
            } else if i == p {
                assert(placed[j] == days[j - 1]);
                assert(leq(date, days[p]));
                if j - 1 > p {
                    assert(leq(days[p], days[j - 1]));
                }
            } else {
                assert(placed[i] == days[i - 1] && placed[j] == days[j - 1]);
            }
        }
    }
    assert(days =~= days.take(p) + days.skip(p));
    vstd::seq_lib::lemma_multiset_commutative(days.take(p).push(date), days.skip(p));
    vstd::seq_lib::lemma_multiset_commutative(days.take(p), days.skip(p));
    assert(placed.to_multiset() == days.push(date).to_multiset());
    days.push(date).lemma_sort_by_ensures(leq);
    vstd::seq_lib::lemma_sorted_unique(placed, days.push(date).sort_by(leq), leq);
}

/// Removing a day that a sorted selection without repeats holds leaves the
/// days before and after it.
proof fn lemma_sorted_remove(days: Seq<Date>, date: Date, p: int)
    requires
        days.no_duplicates(),
        0 <= p < days.len(),
        days[p] == date,
    ensures
        days.filter(other_than(date)) == days.take(p) + days.skip(p + 1),
{
    let keep = other_than(date);
    assert(days =~= days.take(p) + (seq![date] + days.skip(p + 1)));
    Seq::filter_distributes_over_add(days.take(p), seq![date] + days.skip(p + 1), keep);
    Seq::filter_distributes_over_add(seq![date], days.skip(p + 1), keep);
    assert(seq![date].filter(keep) =~= Seq::<Date>::empty()) by {
        reveal_with_fuel(Seq::filter, 2);
        assert(seq![date].drop_last() =~= Seq::<Date>::empty());
        assert(!keep(date));
    }
    assert forall|i: int| 0 <= i < days.take(p).len() implies keep(#[trigger] days.take(p)[i]) by {
        assert(days.take(p)[i] == days[i]);
    }
    assert forall|i: int| 0 <= i < days.skip(p + 1).len() implies keep(#[trigger] days.skip(p + 1)[i]) by {
        assert(days.skip(p + 1)[i] == days[p + 1 + i]);
    }
    crate::seqs::lemma_filter_keeps_all(days.take(p), keep);
    crate::seqs::lemma_filter_keeps_all(days.skip(p + 1), keep);
    assert(seq![date] + days.skip(p + 1) == seq![date] + days.skip(p + 1));
    assert((Seq::<Date>::empty() + days.skip(p + 1)) =~= days.skip(p + 1));
}

/// In multiple mode, activating a day on a sorted selection without repeats
/// gives a sorted selection without repeats that holds exactly the same days
/// except `date`, whose presence flips; activating the same day again gives
/// back the original selection.
pub proof fn lemma_multiple_toggle(days: Seq<Date>, date: Date)
    requires
        sorted_by(days, date_leq()),
        days.no_duplicates(),
    ensures
        sorted_by(toggled_days(days, date), date_leq()),
        toggled_days(days, date).no_duplicates(),
        toggled_days(days, date).contains(date) == !days.contains(date),
        forall|d: Date| d != date ==> (toggled_days(days, date).contains(d) <==> days.contains(d)),
        toggled_days(toggled_days(days, date), date) == days,
{
    let leq = date_leq();
    lemma_date_leq_total();
    if days.contains(date) {
        let p = choose|p: int| 0 <= p < days.len() && days[p] == date;
        lemma_sorted_remove(days, date, p);
        let removed = days.take(p) + days.skip(p + 1);
        assert forall|i: int| 0 <= i < removed.len() implies #[trigger] removed[i] == (if i < p {
            days[i]
        } else {
            days[i + 1]
        }) by {}
        assert(sorted_by(removed, leq)) by {
            assert forall|i: int, j: int| 0 <= i < j < removed.len() implies #[trigger] leq(removed[i], removed[j]) by {
                assert(removed[i] == (if i < p { days[i] } else { days[i + 1] }));
                assert(removed[j] == (if j < p { days[j] } else { days[j + 1] }));
            }
        }
        assert(removed.no_duplicates()) by {
            assert forall|i: int, j: int| 0 <= i < removed.len() && 0 <= j < removed.len() && i != j implies removed[i]
                != removed[j] by {
                assert(removed[i] == (if i < p { days[i] } else { days[i + 1] }));
                assert(removed[j] == (if j < p { days[j] } else { days[j + 1] }));
            }
        }
        assert(!removed.contains(date)) by {
            if removed.contains(date) {
                let k = choose|k: int| 0 <= k < removed.len() && removed[k] == date;
                assert(removed[k] == (if k < p { days[k] } else { days[k + 1] }));
            }
        }
        assert forall|d: Date| d != date implies (removed.contains(d) <==> days.contains(d)) by {
            if days.contains(d) {
                let k = choose|k: int| 0 <= k < days.len() && days[k] == d;
                if k < p {
                    assert(removed[k] == d);
                } else {
                    assert(k != p);
                    assert(removed[k - 1] == d);
                }
            }
            if removed.contains(d) {
                let k = choose|k: int| 0 <= k < removed.len() && removed[k] == d;
                assert(removed[k] == (if k < p { days[k] } else { days[k + 1] }));
            }
        }
        lemma_sorted_insert(removed, date);
        removed.push(date).lemma_sort_by_ensures(leq);
        assert(days =~= days.take(p) + (seq![date] + days.skip(p + 1)));
        vstd::seq_lib::lemma_multiset_commutative(days.take(p), seq![date] + days.skip(p + 1));
        vstd::seq_lib::lemma_multiset_commutative(seq![date], days.skip(p + 1));
        vstd::seq_lib::lemma_multiset_commutative(days.take(p), days.skip(p + 1));
        assert(removed.push(date) =~= removed + seq![date]);
        vstd::seq_lib::lemma_multiset_commutative(removed, seq![date]);
        assert(days.to_multiset() == removed.push(date).to_multiset());
        vstd::seq_lib::lemma_sorted_unique(days, removed.push(date).sort_by(leq), leq);
    } else {
        lemma_sorted_insert(days, date);
        lemma_insertion_point(days, date);
        let p = insertion_point(days, date);
        let placed = days.take(p).push(date) + days.skip(p);
        assert forall|i: int| 0 <= i < placed.len() implies #[trigger] placed[i] == (if i < p {
            days[i]
        } else if i == p {
            date
        } else {
            days[i - 1]
        }) by {}
        assert(placed.no_duplicates()) by {
            assert forall|i: int, j: int| 0 <= i < placed.len() && 0 <= j < placed.len() && i != j implies placed[i]
                != placed[j] by {
                assert(placed[i] == (if i < p { days[i] } else if i == p { date } else { days[i - 1] }));
                assert(placed[j] == (if j < p { days[j] } else if j == p { date } else { days[j - 1] }));
                if i == p {
                    assert(days.contains(placed[j]) || placed[j] == date);
                } else if j == p {
                    assert(days.contains(placed[i]) || placed[i] == date);
                }
            }
        }
        assert(placed[p] == date);
        assert forall|d: Date| d != date implies (placed.contains(d) <==> days.contains(d)) by {
            if days.contains(d) {
                let k = choose|k: int| 0 <= k < days.len() && days[k] == d;
                if k < p {
                    assert(placed[k] == d);
                } else {
                    assert(placed[k + 1] == d);
                }
            }
            if placed.contains(d) {
                let k = choose|k: int| 0 <= k < placed.len() && placed[k] == d;
                assert(placed[k] == (if k < p { days[k] } else if k == p { date } else { days[k - 1] }));
            }
        }
        lemma_multiple_toggle_twice(days, date);
    }
}

} // verus!
