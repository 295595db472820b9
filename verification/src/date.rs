//! Proleptic Gregorian dates between 0001-01-01 and 9999-12-31.
//!
//! Every `Date` and `Month` value is valid by construction: the constructors
//! reject impossible years, months and days, and the arithmetic helpers return
//! `None` instead of leaving the supported range.

use vstd::prelude::*;
use crate::text::{
    decimal, push_char, push_decimal, push_signed, push_signed_zero_padded, push_zero_padded,
    signed_decimal, signed_zero_padded, zero_padded,
};

verus! {

pub const MIN_YEAR: i32 = 1;

pub const MAX_YEAR: i32 = 9999;

/// Ordinal of 9999-12-31, the last supported day (days since 0001-01-01).
pub const MAX_ORDINAL: i32 = 3652058;

/// Mathematical model of a calendar day.
pub ghost struct DateModel {
    pub year: int,
    pub month: int,
    pub day: int,
}

/// Mathematical model of a calendar month.
pub ghost struct MonthModel {
    pub year: int,
    pub number: int,
}

pub open spec fn is_leap(year: int) -> bool {
    year % 4 == 0 && (year % 100 != 0 || year % 400 == 0)
}

pub open spec fn month_days(year: int, month: int) -> int {
    if month == 2 {
        if is_leap(year) {
            29
        } else {
            28
        }
    } else if month == 4 || month == 6 || month == 9 || month == 11 {
        30
    } else {
        31
    }
}

pub open spec fn year_in_range(year: int) -> bool {
    MIN_YEAR <= year <= MAX_YEAR
}

pub open spec fn year_length(year: int) -> int {
    if is_leap(year) {
        366
    } else {
        365
    }
}

/// Days between 0001-01-01 and January 1st of `year`.
pub open spec fn days_before_year(year: int) -> int {
    let p = year - 1;
    p * 365 + p / 4 - p / 100 + p / 400
}

/// Days between January 1st and the first day of `month` in `year`.
pub open spec fn days_before_month(year: int, month: int) -> int
    decreases month,
{
    if month <= 1 {
        0
    } else {
        days_before_month(year, month - 1) + month_days(year, month - 1)
    }
}

impl DateModel {
    pub open spec fn wf(self) -> bool {
        &&& year_in_range(self.year)
        &&& 1 <= self.month <= 12
        &&& 1 <= self.day <= month_days(self.year, self.month)
    }

    /// Zero-based day number since 0001-01-01.
    pub open spec fn ordinal(self) -> int {
        days_before_year(self.year) + days_before_month(self.year, self.month) + self.day - 1
    }

    /// Sunday-based weekday index: 0 is Sunday, 6 is Saturday.
    pub open spec fn weekday_index(self) -> int {
        (self.ordinal() % 7 + 1) % 7
    }

    /// Calendar order: by year, then month, then day.
    pub open spec fn before(self, other: DateModel) -> bool {
        ||| self.year < other.year
        ||| self.year == other.year && self.month < other.month
        ||| self.year == other.year && self.month == other.month && self.day < other.day
    }

    pub open spec fn month_of(self) -> MonthModel {
        MonthModel { year: self.year, number: self.month }
    }
}

impl MonthModel {
    pub open spec fn wf(self) -> bool {
        year_in_range(self.year) && 1 <= self.number <= 12
    }

    /// Months since January of year 1.
    pub open spec fn index(self) -> int {
        (self.year - 1) * 12 + self.number - 1
    }

    pub open spec fn days(self) -> int {
        month_days(self.year, self.number)
    }

    pub open spec fn first(self) -> DateModel {
        DateModel { year: self.year, month: self.number, day: 1 }
    }

    pub open spec fn last(self) -> DateModel {
        DateModel { year: self.year, month: self.number, day: self.days() }
    }

    pub open spec fn previous(self) -> Option<MonthModel> {
        if self.number > 1 {
            Some(MonthModel { year: self.year, number: self.number - 1 })
        } else if self.year > MIN_YEAR {
            Some(MonthModel { year: self.year - 1, number: 12 })
        } else {
            None
        }
    }

    pub open spec fn next(self) -> Option<MonthModel> {
        if self.number < 12 {
            Some(MonthModel { year: self.year, number: self.number + 1 })
        } else if self.year < MAX_YEAR {
            Some(MonthModel { year: self.year + 1, number: 1 })
        } else {
            None
        }
    }

    pub open spec fn contains(self, date: DateModel) -> bool {
        self.year == date.year && self.number == date.month
    }
}

pub open spec fn ordinal_in_range(n: int) -> bool {
    0 <= n <= MAX_ORDINAL
}

/// The valid date whose ordinal is `n` (unique by `lemma_ordinal_injective`).
pub open spec fn date_at(n: int) -> DateModel {
    choose|d: DateModel| d.wf() && d.ordinal() == n
}

/// Why a date or month could not be built.
#[derive(Debug, Clone, Copy, PartialEq, Eq, Structural)]
pub enum DateError {
    Year(i32),
    Month(u8),
    Day { year: i32, month: u8, day: u8 },
}

/// A supported calendar month.
#[derive(Debug, Clone, Copy, PartialEq, Eq, PartialOrd, Ord, Hash, Structural)]
pub struct Month {
    year: i32,
    number: u8,
}

/// A supported calendar day.
#[derive(Debug, Clone, Copy, PartialEq, Eq, PartialOrd, Ord, Hash, Structural)]
pub struct Date {
    year: i32,
    month: u8,
    day: u8,
}

/// Day of the week, Sunday first.
#[derive(Debug, Clone, Copy, PartialEq, Eq, Hash, Structural)]
pub enum Weekday {
    Sunday,
    Monday,
    Tuesday,
    Wednesday,
    Thursday,
    Friday,
    Saturday,
}

impl View for Month {
    type V = MonthModel;

    closed spec fn view(&self) -> MonthModel {
        MonthModel { year: self.year as int, number: self.number as int }
    }
}

impl View for Date {
    type V = DateModel;

    closed spec fn view(&self) -> DateModel {
        DateModel { year: self.year as int, month: self.month as int, day: self.day as int }
    }
}

pub fn is_leap_year(year: i32) -> (r: bool)
    ensures
        r == is_leap(year as int),
{
    year % 4 == 0 && (year % 100 != 0 || year % 400 == 0)
}

pub fn days_in_month(year: i32, month: u8) -> (r: u8)
    ensures
        r as int == month_days(year as int, month as int),
        28 <= r <= 31,
{
    if month == 2 {
        if is_leap_year(year) {
            29
        } else {
            28
        }
    } else if month == 4 || month == 6 || month == 9 || month == 11 {
        30
    } else {
        31
    }
}


proof fn lemma_div_step(x: int, k: int)
    requires
        x >= 0,
        k > 0,
    ensures
        (x + 1) / k - x / k == if (x + 1) % k == 0 { 1int } else { 0int },
{
    vstd::arithmetic::div_mod::lemma_fundamental_div_mod(x, k);
    vstd::arithmetic::div_mod::lemma_fundamental_div_mod(x + 1, k);
    assert(0 <= x % k < k) by {
        vstd::arithmetic::div_mod::lemma_mod_pos_bound(x, k);
    }
    assert(0 <= (x + 1) % k < k) by {
        vstd::arithmetic::div_mod::lemma_mod_pos_bound(x + 1, k);
    }
    assert(k * ((x + 1) / k) + (x + 1) % k == x + 1);
    assert(k * (x / k) + x % k == x);
    let q0 = x / k;
    let q1 = (x + 1) / k;
    assert(k * (q1 - q0) == 1 + x % k - (x + 1) % k) by (nonlinear_arith)
        requires
            k * q1 + (x + 1) % k == x + 1,
            k * q0 + x % k == x,
    ;
    if (x + 1) % k == 0 {
        assert(k * (q1 - q0) == 1 + x % k);
        assert(q1 - q0 == 1) by (nonlinear_arith)
            requires
                k * (q1 - q0) == 1 + x % k,
                0 <= x % k < k,
                k > 0,
        ;
    } else {
        assert(q1 - q0 == 0) by (nonlinear_arith)
            requires
                k * (q1 - q0) == 1 + x % k - (x + 1) % k,
                0 <= x % k < k,
                0 < (x + 1) % k < k,
                k > 0,
        ;
    }
}

/// Consecutive years are separated by the length of the earlier one.
pub proof fn lemma_days_before_next_year(year: int)
    requires
        year >= 1,
    ensures
        days_before_year(year + 1) == days_before_year(year) + year_length(year),
{
    let p = year - 1;
    lemma_div_step(p, 4);
    lemma_div_step(p, 100);
    lemma_div_step(p, 400);
    let a = year / 4 - p / 4;
    let b = year / 100 - p / 100;
    let c = year / 400 - p / 400;
    assert(year * 365 == p * 365 + 365) by (nonlinear_arith)
        requires
            p == year - 1,
    ;
    assert(year % 400 == 0 ==> year % 100 == 0) by {
        vstd::arithmetic::div_mod::lemma_mod_mod(year, 100, 4);
    }
    assert(year % 100 == 0 ==> year % 4 == 0) by {
        vstd::arithmetic::div_mod::lemma_mod_mod(year, 4, 25);
    }
    assert(days_before_year(year + 1) - days_before_year(year) == 365 + a - b + c);
}


/// Cumulative month lengths within one year.
pub proof fn lemma_month_table(year: int)
    ensures
        days_before_month(year, 1) == 0,
        days_before_month(year, 2) == 31,
        days_before_month(year, 3) == 31 + month_days(year, 2),
        days_before_month(year, 4) == 62 + month_days(year, 2),
        days_before_month(year, 5) == 92 + month_days(year, 2),
        days_before_month(year, 6) == 123 + month_days(year, 2),
        days_before_month(year, 7) == 153 + month_days(year, 2),
        days_before_month(year, 8) == 184 + month_days(year, 2),
        days_before_month(year, 9) == 215 + month_days(year, 2),
        days_before_month(year, 10) == 245 + month_days(year, 2),
        days_before_month(year, 11) == 276 + month_days(year, 2),
        days_before_month(year, 12) == 306 + month_days(year, 2),
        days_before_month(year, 13) == year_length(year),
{
    reveal_with_fuel(days_before_month, 13);
}

/// Month starts grow with the month number.
pub proof fn lemma_month_start_monotone(year: int, m1: int, m2: int)
    requires
        1 <= m1 <= m2 <= 13,
    ensures
        days_before_month(year, m1) <= days_before_month(year, m2),
        m1 < m2 ==> days_before_month(year, m1) + month_days(year, m1) <= days_before_month(year, m2),
    decreases m2 - m1,
{
    if m1 < m2 {
        lemma_month_start_monotone(year, m1, m2 - 1);
        assert(days_before_month(year, m2) == days_before_month(year, m2 - 1) + month_days(year, m2 - 1));
    }
}

/// Year starts grow with the year.
pub proof fn lemma_year_start_monotone(y1: int, y2: int)
    requires
        1 <= y1 <= y2,
    ensures
        days_before_year(y1) <= days_before_year(y2),
        y1 < y2 ==> days_before_year(y1) + year_length(y1) <= days_before_year(y2),
    decreases y2 - y1,
{
    if y1 < y2 {
        lemma_year_start_monotone(y1, y2 - 1);
        lemma_days_before_next_year(y2 - 1);
        lemma_days_before_next_year(y1);
    }
}

/// A valid date's ordinal lies inside its year and inside its month.
pub proof fn lemma_ordinal_bounds(d: DateModel)
    requires
        d.wf(),
    ensures
        days_before_year(d.year) <= d.ordinal() < days_before_year(d.year) + year_length(d.year),
        days_before_year(d.year) + days_before_month(d.year, d.month) <= d.ordinal(),
        d.ordinal() < days_before_year(d.year) + days_before_month(d.year, d.month + 1),
        0 <= d.ordinal() <= MAX_ORDINAL,
{
    lemma_month_table(d.year);
    lemma_month_start_monotone(d.year, d.month, d.month + 1);
    lemma_month_start_monotone(d.year, d.month + 1, 13);
    lemma_month_start_monotone(d.year, 1, d.month);
    lemma_year_start_monotone(1, d.year);
    lemma_year_start_monotone(d.year, 10000);
    assert(days_before_year(10000) == MAX_ORDINAL + 1);
    assert(days_before_year(1) == 0);
}

/// Calendar order and ordinal order agree on valid dates.
pub proof fn lemma_before_is_ordinal_order(a: DateModel, b: DateModel)
    requires
        a.wf(),
        b.wf(),
    ensures
        a.before(b) <==> a.ordinal() < b.ordinal(),
        a == b <==> a.ordinal() == b.ordinal(),
{
    lemma_ordinal_bounds(a);
    lemma_ordinal_bounds(b);
    if a.year < b.year {
        lemma_year_start_monotone(a.year, b.year);
    } else if b.year < a.year {
        lemma_year_start_monotone(b.year, a.year);
    } else if a.month < b.month {
        lemma_month_start_monotone(a.year, a.month + 1, b.month);
    } else if b.month < a.month {
        lemma_month_start_monotone(a.year, b.month + 1, a.month);
    }
}

/// Distinct valid dates have distinct ordinals.
pub proof fn lemma_ordinal_injective(a: DateModel, b: DateModel)
    requires
        a.wf(),
        b.wf(),
        a.ordinal() == b.ordinal(),
    ensures
        a == b,
{
    lemma_before_is_ordinal_order(a, b);
}

/// `date_at` picks the unique valid date with the given ordinal.
pub proof fn lemma_date_at(d: DateModel)
    requires
        d.wf(),
    ensures
        date_at(d.ordinal()) == d,
{
    let n = d.ordinal();
    let c = date_at(n);
    assert(c.wf() && c.ordinal() == n);
    lemma_ordinal_injective(c, d);
}


/// Month indices follow calendar order.
pub proof fn lemma_month_index_order(a: MonthModel, b: MonthModel)
    requires
        a.wf(),
        b.wf(),
    ensures
        (a.index() < b.index()) <==> (a.year < b.year || (a.year == b.year && a.number < b.number)),
        (a.index() == b.index()) <==> a == b,
{
    assert((a.index() < b.index()) <==> (a.year < b.year || (a.year == b.year && a.number < b.number))) by (nonlinear_arith)
        requires
            1 <= a.number <= 12,
            1 <= b.number <= 12,
    ;
    assert((a.index() == b.index()) <==> (a.year == b.year && a.number == b.number)) by (nonlinear_arith)
        requires
            1 <= a.number <= 12,
            1 <= b.number <= 12,
    ;
}

pub open spec fn month_opt_view(m: Option<Month>) -> Option<MonthModel> {
    match m {
        Some(m) => Some(m@),
        None => None,
    }
}

pub open spec fn date_opt_view(d: Option<Date>) -> Option<DateModel> {
    match d {
        Some(d) => Some(d@),
        None => None,
    }
}

/// Two dates are equal exactly when their models are equal.
pub proof fn lemma_date_view_eq(a: Date, b: Date)
    ensures
        (a@ == b@) <==> a == b,
{
}

/// Two months are equal exactly when their models are equal.
pub proof fn lemma_month_view_eq(a: Month, b: Month)
    ensures
        (a@ == b@) <==> a == b,
{
}

/// Ordinal of January 1st of a supported year.
fn year_start_ordinal(year: i32) -> (r: i32)
    requires
        year_in_range(year as int),
    ensures
        r as int == days_before_year(year as int),
        0 <= r <= MAX_ORDINAL,
{
    proof {
        lemma_year_start_monotone(1, year as int);
        lemma_year_start_monotone(year as int, 10000);
    }
    let previous_year = year - 1;
    assert(0 <= previous_year * 365 <= 9998 * 365) by (nonlinear_arith)
        requires
            0 <= previous_year <= 9998,
    ;
    previous_year * 365 + previous_year / 4 - previous_year / 100 + previous_year / 400
}

impl Month {
    #[verifier::type_invariant]
    spec fn inv(self) -> bool {
        self@.wf()
    }

    pub fn new(year: i32, number: u8) -> (r: Result<Month, DateError>)
        ensures
            match r {
                Ok(m) => m@ == (MonthModel { year: year as int, number: number as int }),
                Err(e) => if !year_in_range(year as int) {
                    e == DateError::Year(year)
                } else {
                    !(1 <= number <= 12) && e == DateError::Month(number)
                },
            },
            r is Ok <==> (MonthModel { year: year as int, number: number as int }).wf(),
    {
        if year < MIN_YEAR || year > MAX_YEAR {
            return Err(DateError::Year(year));
        }
        if number < 1 || number > 12 {
            return Err(DateError::Month(number));
        }
        Ok(Month { year, number })
    }

    pub fn year(self) -> (r: i32)
        ensures
            r as int == self@.year,
            self@.wf(),
    {
        proof {
            use_type_invariant(&self);
        }
        self.year
    }

    pub fn number(self) -> (r: u8)
        ensures
            r as int == self@.number,
            self@.wf(),
    {
        proof {
            use_type_invariant(&self);
        }
        self.number
    }

    pub fn days(self) -> (r: u8)
        ensures
            r as int == self@.days(),
            28 <= r <= 31,
            self@.wf(),
    {
        proof {
            use_type_invariant(&self);
        }
        days_in_month(self.year, self.number)
    }

    pub fn is_leap_year(self) -> (r: bool)
        ensures
            r == is_leap(self@.year),
    {
        is_leap_year(self.year)
    }

    pub fn previous(self) -> (r: Option<Month>)
        ensures
            month_opt_view(r) == self@.previous(),
    {
        proof {
            use_type_invariant(&self);
        }
        if self.number > 1 {
            Some(Month { year: self.year, number: self.number - 1 })
        } else if self.year > MIN_YEAR {
            Some(Month { year: self.year - 1, number: 12 })
        } else {
            None
        }
    }

    pub fn next(self) -> (r: Option<Month>)
        ensures
            month_opt_view(r) == self@.next(),
    {
        proof {
            use_type_invariant(&self);
        }
        if self.number < 12 {
            Some(Month { year: self.year, number: self.number + 1 })
        } else if self.year < MAX_YEAR {
            Some(Month { year: self.year + 1, number: 1 })
        } else {
            None
        }
    }

    pub fn contains(self, date: Date) -> (r: bool)
        ensures
            r == self@.contains(date@),
    {
        self.year == date.year && self.number == date.month
    }

    pub fn first(self) -> (r: Date)
        ensures
            r@ == self@.first(),
    {
        proof {
            use_type_invariant(&self);
        }
        Date { year: self.year, month: self.number, day: 1 }
    }

    pub fn last(self) -> (r: Date)
        ensures
            r@ == self@.last(),
    {
        proof {
            use_type_invariant(&self);
        }
        Date { year: self.year, month: self.number, day: self.days() }
    }

    /// Dates displayed by a fixed six-week, Sunday-first calendar.
    pub fn visible_dates(self) -> (r: [Option<Date>; 42])
        ensures
            forall|cell: int| 0 <= cell < 42 ==> date_opt_view(#[trigger] r@[cell]) == visible_cell(self@, cell),
    {
        proof {
            use_type_invariant(&self);
        }
        let mut dates: [Option<Date>; 42] = [None; 42];
        let leading = self.first().weekday().index_from_sunday() as usize;
        let current_days = self.days() as usize;
        let previous = self.previous();
        let next = self.next();
        let mut cell: usize = 0;
        while cell < 42
            invariant
                self@.wf(),
                0 <= cell <= 42,
                leading as int == self@.first().weekday_index(),
                0 <= leading < 7,
                current_days as int == self@.days(),
                28 <= current_days <= 31,
                month_opt_view(previous) == self@.previous(),
                month_opt_view(next) == self@.next(),
                forall|c: int| 0 <= c < cell ==> date_opt_view(#[trigger] dates@[c]) == visible_cell(self@, c),
            decreases 42 - cell,
        {
            let date = if cell < leading {
                match previous {
                    Some(month) => {
                        let days = month.days();
                        proof {
                            assert(month@.wf());
                        }
                        let day = days - (leading - cell) as u8 + 1;
                        Some(Date { year: month.year(), month: month.number(), day })
                    },
                    None => None,
                }
            } else {
                let day = cell - leading + 1;
                if day <= current_days {
                    Some(Date { year: self.year, month: self.number, day: day as u8 })
                } else {
                    match next {
                        Some(month) => {
                            let days = month.days();
                            Some(Date { year: month.year(), month: month.number(), day: (day - current_days) as u8 })
                        },
                        None => None,
                    }
                }
            };
            dates[cell] = date;
            cell = cell + 1;
        }
        dates
    }

    /// Whether `self` comes before `other` in calendar order.
    pub fn is_before(self, other: Month) -> (r: bool)
        ensures
            r == (self@.index() < other@.index()),
    {
        proof {
            use_type_invariant(&self);
            use_type_invariant(&other);
            lemma_month_index_order(self@, other@);
        }
        self.year < other.year || (self.year == other.year && self.number < other.number)
    }
}

impl Date {
    #[verifier::type_invariant]
    spec fn inv(self) -> bool {
        self@.wf()
    }

    pub fn new(year: i32, month: u8, day: u8) -> (r: Result<Date, DateError>)
        ensures
            match r {
                Ok(d) => d@ == (DateModel { year: year as int, month: month as int, day: day as int }),
                Err(e) => if !year_in_range(year as int) {
                    e == DateError::Year(year)
                } else if !(1 <= month <= 12) {
                    e == DateError::Month(month)
                } else {
                    e == (DateError::Day { year, month, day })
                },
            },
            r is Ok <==> (DateModel { year: year as int, month: month as int, day: day as int }).wf(),
    {
        if year < MIN_YEAR || year > MAX_YEAR {
            return Err(DateError::Year(year));
        }
        if month < 1 || month > 12 {
            return Err(DateError::Month(month));
        }
        if day < 1 || day > days_in_month(year, month) {
            return Err(DateError::Day { year, month, day });
        }
        Ok(Date { year, month, day })
    }

    pub fn year(self) -> (r: i32)
        ensures
            r as int == self@.year,
            self@.wf(),
    {
        proof {
            use_type_invariant(&self);
        }
        self.year
    }

    pub fn month_number(self) -> (r: u8)
        ensures
            r as int == self@.month,
            self@.wf(),
    {
        proof {
            use_type_invariant(&self);
        }
        self.month
    }

    pub fn day(self) -> (r: u8)
        ensures
            r as int == self@.day,
            self@.wf(),
    {
        proof {
            use_type_invariant(&self);
        }
        self.day
    }

    pub fn month(self) -> (r: Month)
        ensures
            r@ == self@.month_of(),
            self@.wf(),
    {
        proof {
            use_type_invariant(&self);
        }
        Month { year: self.year, number: self.month }
    }

    /// Zero-based day number since 0001-01-01.
    pub fn ordinal(self) -> (r: i32)
        ensures
            r as int == self@.ordinal(),
            0 <= r <= MAX_ORDINAL,
            self@.wf(),
    {
        proof {
            use_type_invariant(&self);
            lemma_ordinal_bounds(self@);
            lemma_month_table(self.year as int);
        }
        let mut days = year_start_ordinal(self.year);
        let mut month: u8 = 1;
        while month < self.month
            invariant
                self@.wf(),
                1 <= month <= self.month,
                days as int == days_before_year(self.year as int) + days_before_month(self.year as int, month as int),
                days_before_year(self.year as int) + days_before_month(self.year as int, self.month as int) <= MAX_ORDINAL,
            decreases self.month - month,
        {
            proof {
                lemma_month_start_monotone(self.year as int, month as int + 1, self.month as int);
            }
            days = days + days_in_month(self.year, month) as i32;
            month = month + 1;
        }
        days + self.day as i32 - 1
    }

    pub fn weekday(self) -> (r: Weekday)
        ensures
            r.index() == self@.weekday_index(),
    {
        let ordinal = self.ordinal();
        Weekday::from_sunday_index(((ordinal % 7 + 1) % 7) as u8)
    }

    pub fn checked_add_days(self, days: i32) -> (r: Option<Date>)
        ensures
            r is Some <==> ordinal_in_range(self@.ordinal() + days),
            r matches Some(d) ==> d@.ordinal() == self@.ordinal() + days,
    {
        let ordinal = self.ordinal();
        match ordinal.checked_add(days) {
            Some(target) => date_from_ordinal(target),
            None => None,
        }
    }

    pub fn checked_add_months(self, months: i32) -> (r: Option<Date>)
        ensures
            date_opt_view(r) == add_months(self@, months as int),
    {
        proof {
            use_type_invariant(&self);
        }
        assert(0 <= (self.year - 1) * 12 <= 9998 * 12) by (nonlinear_arith)
            requires
                1 <= self.year <= 9999,
        ;
        let base = (self.year - 1) * 12 + (self.month as i32 - 1);
        let absolute = match base.checked_add(months) {
            Some(absolute) => absolute,
            None => return None,
        };
        if absolute < 0 || absolute >= MAX_YEAR * 12 {
            return None;
        }
        let year = absolute / 12 + 1;
        let month = (absolute % 12 + 1) as u8;
        let limit = days_in_month(year, month);
        let day = if self.day <= limit {
            self.day
        } else {
            limit
        };
        Some(Date { year, month, day })
    }

    pub fn checked_add_years(self, years: i32) -> (r: Option<Date>)
        ensures
            date_opt_view(r) == add_years(self@, years as int),
    {
        proof {
            use_type_invariant(&self);
        }
        let year = match self.year.checked_add(years) {
            Some(year) => year,
            None => return None,
        };
        if year < MIN_YEAR || year > MAX_YEAR {
            return None;
        }
        let limit = days_in_month(year, self.month);
        let day = if self.day <= limit {
            self.day
        } else {
            limit
        };
        Some(Date { year, month: self.month, day })
    }

    pub fn iso_week(self) -> (r: u8)
        ensures
            r as int == iso_week_of(self@),
            1 <= r <= 53,
    {
        let monday_index = (self.weekday().index_from_sunday() + 6) % 7;
        let thursday = match self.checked_add_days(3 - monday_index as i32) {
            Some(thursday) => thursday,
            None => self,
        };
        let ordinal = thursday.ordinal();
        let start = year_start_ordinal(thursday.year());
        proof {
            let target = self@.ordinal() + 3 - monday_index;
            if ordinal_in_range(target) {
                lemma_date_at(thursday@);
            }
            lemma_ordinal_bounds(thursday@);
        }
        ((ordinal - start) / 7 + 1) as u8
    }

    /// Whether `self` comes before `other` in calendar order.
    pub fn is_before(self, other: Date) -> (r: bool)
        ensures
            r == self@.before(other@),
    {
        self.year < other.year || (self.year == other.year && (self.month < other.month || (
        self.month == other.month && self.day < other.day)))
    }
}

impl Weekday {
    pub open spec fn index(self) -> int {
        match self {
            Weekday::Sunday => 0,
            Weekday::Monday => 1,
            Weekday::Tuesday => 2,
            Weekday::Wednesday => 3,
            Weekday::Thursday => 4,
            Weekday::Friday => 5,
            Weekday::Saturday => 6,
        }
    }

    pub fn index_from_sunday(self) -> (r: u8)
        ensures
            r as int == self.index(),
    {
        match self {
            Weekday::Sunday => 0,
            Weekday::Monday => 1,
            Weekday::Tuesday => 2,
            Weekday::Wednesday => 3,
            Weekday::Thursday => 4,
            Weekday::Friday => 5,
            Weekday::Saturday => 6,
        }
    }

    fn from_sunday_index(index: u8) -> (r: Weekday)
        requires
            index < 7,
        ensures
            r.index() == index,
    {
        match index {
            0 => Weekday::Sunday,
            1 => Weekday::Monday,
            2 => Weekday::Tuesday,
            3 => Weekday::Wednesday,
            4 => Weekday::Thursday,
            5 => Weekday::Friday,
            _ => Weekday::Saturday,
        }
    }
}

/// The same day `months` months later, clamped to the length of the target
/// month; `None` outside the supported years.
pub open spec fn add_months(date: DateModel, months: int) -> Option<DateModel> {
    let absolute = date.month_of().index() + months;
    let year = absolute / 12 + 1;
    let month = absolute % 12 + 1;
    if 0 <= absolute < MAX_YEAR * 12 {
        Some(DateModel {
            year,
            month,
            day: if date.day <= month_days(year, month) {
                date.day
            } else {
                month_days(year, month)
            },
        })
    } else {
        None
    }
}

/// The same day `years` years later, clamped to the length of the target
/// month; `None` outside the supported years.
pub open spec fn add_years(date: DateModel, years: int) -> Option<DateModel> {
    let year = date.year + years;
    if year_in_range(year) {
        Some(DateModel {
            year,
            month: date.month,
            day: if date.day <= month_days(year, date.month) {
                date.day
            } else {
                month_days(year, date.month)
            },
        })
    } else {
        None
    }
}

/// ISO 8601 week number of a date: the week of its Thursday, counted from the
/// first week whose Thursday falls in that Thursday's year. If that Thursday
/// lies beyond the supported range, the date itself stands in for it.
pub open spec fn iso_week_of(d: DateModel) -> int {
    let monday_index = (d.weekday_index() + 6) % 7;
    let target = d.ordinal() + 3 - monday_index;
    let thursday = if ordinal_in_range(target) {
        date_at(target)
    } else {
        d
    };
    (thursday.ordinal() - days_before_year(thursday.year)) / 7 + 1
}


/// Ordinal 0 (January 1st of year 1) is a Monday, so `ordinal % 7` counts
/// days from Monday; the Sunday-based weekday agrees with it.
proof fn lemma_monday_index(d: DateModel)
    requires
        d.ordinal() >= 0,
    ensures
        (d.weekday_index() + 6) % 7 == d.ordinal() % 7,
{
}

/// The ordinal of a supported date lies in the year `year` exactly when the
/// date's year is `year`.
proof fn lemma_ordinal_in_year(t: DateModel, year: int)
    requires
        t.wf(),
        year_in_range(year),
        days_before_year(year) <= t.ordinal() < days_before_year(year) + 365,
    ensures
        t.year == year,
{
    lemma_ordinal_bounds(t);
    if t.year < year {
        lemma_year_start_monotone(t.year, year);
    } else if t.year > year {
        lemma_year_start_monotone(year, t.year);
    }
}

/// ISO 8601 week one: a date whose Monday-to-Sunday week holds January 4th
/// of a year is in week 1 (of that year). `thursday` is the Thursday of the
/// date's week.
pub proof fn lemma_iso_week_one(d: DateModel, thursday: DateModel, year: int)
    requires
        d.wf(),
        thursday.wf(),
        year_in_range(year),
        thursday.ordinal() == d.ordinal() - d.ordinal() % 7 + 3,
        d.ordinal() - d.ordinal() % 7 <= days_before_year(year) + 3 <= d.ordinal() - d.ordinal() % 7 + 6,
    ensures
        iso_week_of(d) == 1,
{
    lemma_ordinal_bounds(d);
    lemma_ordinal_bounds(thursday);
    lemma_monday_index(d);
    lemma_date_at(thursday);
    lemma_ordinal_in_year(thursday, year);
}

/// The week number read off the Thursday of the date's week.
proof fn lemma_iso_week_via(d: DateModel, thursday: DateModel)
    requires
        d.wf(),
        thursday.wf(),
        thursday.ordinal() == d.ordinal() - d.ordinal() % 7 + 3,
    ensures
        iso_week_of(d) == (thursday.ordinal() - days_before_year(thursday.year)) / 7 + 1,
        days_before_year(thursday.year) <= thursday.ordinal() < days_before_year(thursday.year) + year_length(
            thursday.year,
        ),
{
    lemma_ordinal_bounds(d);
    lemma_ordinal_bounds(thursday);
    lemma_monday_index(d);
    lemma_date_at(thursday);
}

proof fn lemma_week_step(od: int, oe: int, ot: int, ou: int)
    requires
        oe == od + 7,
        ot == od - od % 7 + 3,
        ou == oe - oe % 7 + 3,
    ensures
        ou == ot + 7,
{
}

/// ISO 8601 numbering: the week after a date's week has the next number,
/// unless it starts a new ISO year and is week 1. `t` and `u` are the
/// Thursdays of the two weeks.
#[verifier::spinoff_prover]
#[verifier::rlimit(60)]
pub proof fn lemma_iso_week_next(d: DateModel, e: DateModel, t: DateModel, u: DateModel)
    requires
        d.wf(),
        e.wf(),
        t.wf(),
        u.wf(),
        e.ordinal() == d.ordinal() + 7,
        t.ordinal() == d.ordinal() - d.ordinal() % 7 + 3,
        u.ordinal() == e.ordinal() - e.ordinal() % 7 + 3,
    ensures
        iso_week_of(e) == iso_week_of(d) + 1 || iso_week_of(e) == 1,
        t.year == u.year ==> iso_week_of(e) == iso_week_of(d) + 1,
{
    lemma_iso_week_via(d, t);
    lemma_iso_week_via(e, u);
    lemma_week_step(d.ordinal(), e.ordinal(), t.ordinal(), u.ordinal());
    let tu = t.ordinal();
    let uo = u.ordinal();
    let st = days_before_year(t.year);
    let su = days_before_year(u.year);
    if t.year == u.year {
        assert((uo - su) / 7 == (tu - st) / 7 + 1);
    } else {
        if u.year < t.year {
            lemma_year_start_monotone(u.year, t.year);
            assert(false);
        }
        lemma_year_start_monotone(t.year, u.year);
        assert(uo - su < 7);
        assert((uo - su) / 7 == 0);
    }
}


/// Gregorian month lengths: thirty days for April, June, September and
/// November, February 29 in leap years and 28 otherwise, and 31 for the rest;
/// leap years are those divisible by 4 except centuries not divisible by 400.
pub proof fn lemma_gregorian_month_lengths(year: int)
    ensures
        month_days(year, 1) == 31,
        month_days(year, 3) == 31,
        month_days(year, 4) == 30,
        month_days(year, 5) == 31,
        month_days(year, 6) == 30,
        month_days(year, 7) == 31,
        month_days(year, 8) == 31,
        month_days(year, 9) == 30,
        month_days(year, 10) == 31,
        month_days(year, 11) == 30,
        month_days(year, 12) == 31,
        month_days(year, 2) == 29 || month_days(year, 2) == 28,
        is_leap(2000) && is_leap(2024) && !is_leap(1900) && !is_leap(2023) && !is_leap(2100),
        (month_days(year, 2) == 29) == (year % 400 == 0 || (year % 4 == 0 && year % 100 != 0)),
{
}

/// January 1st of year 1 is a Monday (Sunday-based index 1), and January
/// 1st, 2000 a Saturday; with each next day on the next weekday, this fixes
/// every weekday.
pub proof fn lemma_weekday_anchors()
    ensures
        (DateModel { year: 1, month: 1, day: 1 }).weekday_index() == 1,
        (DateModel { year: 2000, month: 1, day: 1 }).weekday_index() == 6,
{
    assert(1999int / 4 == 499 && 1999int / 100 == 19 && 1999int / 400 == 4);
    assert(days_before_year(2000) == 730119);
    assert(days_before_year(1) == 0);
    assert(days_before_month(2000, 1) == 0);
}


/// Adding months moves to the month that many months later (counting across
/// years) and keeps the day, or the last day of that month when it is
/// shorter; the result is a valid date, and nothing comes back only outside
/// the supported years.
pub proof fn lemma_add_months_law(date: DateModel, months: int)
    requires
        date.wf(),
    ensures
        match add_months(date, months) {
            Some(r) => {
                &&& r.wf()
                &&& r.month_of().index() == date.month_of().index() + months
                &&& r.day <= date.day
                &&& (r.day == date.day || r.day == r.month_of().days())
                &&& date.day <= r.month_of().days() ==> r.day == date.day
            },
            None => !(0 <= date.month_of().index() + months < MAX_YEAR * 12),
        },
{
}

/// Adding years keeps month and day, clamping February 29th to the 28th in
/// a common year; nothing comes back outside the supported years.
pub proof fn lemma_add_years_law(date: DateModel, years: int)
    requires
        date.wf(),
    ensures
        match add_years(date, years) {
            Some(r) => {
                &&& r.wf()
                &&& r.year == date.year + years
                &&& r.month == date.month
                &&& (r.day == date.day || (date.month == 2 && date.day == 29 && r.day == 28 && !is_leap(r.year)))
            },
            None => !year_in_range(date.year + years),
        },
{
}

/// The English names of the twelve months, in order, and the two-letter
/// weekday names.
pub proof fn lemma_month_names()
    ensures
        month_name_of(1) == "January"@,
        month_name_of(2) == "February"@,
        month_name_of(3) == "March"@,
        month_name_of(4) == "April"@,
        month_name_of(5) == "May"@,
        month_name_of(6) == "June"@,
        month_name_of(7) == "July"@,
        month_name_of(8) == "August"@,
        month_name_of(9) == "September"@,
        month_name_of(10) == "October"@,
        month_name_of(11) == "November"@,
        month_name_of(12) == "December"@,
        (Weekday::Sunday).short_name_of() == "Su"@,
        (Weekday::Monday).short_name_of() == "Mo"@,
        (Weekday::Tuesday).short_name_of() == "Tu"@,
        (Weekday::Wednesday).short_name_of() == "We"@,
        (Weekday::Thursday).short_name_of() == "Th"@,
        (Weekday::Friday).short_name_of() == "Fr"@,
        (Weekday::Saturday).short_name_of() == "Sa"@,
{
}

/// Cell `cell` of the fixed six-week, Sunday-first grid of `month`.
pub open spec fn visible_cell(month: MonthModel, cell: int) -> Option<DateModel> {
    let leading = month.first().weekday_index();
    if cell < leading {
        match month.previous() {
            Some(p) => Some(DateModel { year: p.year, month: p.number, day: p.days() - (leading - cell) + 1 }),
            None => None,
        }
    } else {
        let day = cell - leading + 1;
        if day <= month.days() {
            Some(DateModel { year: month.year, month: month.number, day })
        } else {
            match month.next() {
                Some(n) => Some(DateModel { year: n.year, month: n.number, day: day - month.days() }),
                None => None,
            }
        }
    }
}

/// The valid date with the given ordinal, if it is in range.
pub fn date_from_ordinal(ordinal: i32) -> (r: Option<Date>)
    ensures
        r is Some <==> ordinal_in_range(ordinal as int),
        r matches Some(d) ==> d@.ordinal() == ordinal,
{
    if ordinal < 0 || ordinal > MAX_ORDINAL {
        return None;
    }
    proof {
        lemma_year_start_monotone(1, 10000);
        assert(days_before_year(10000) == MAX_ORDINAL + 1);
        assert(days_before_year(1) == 0);
    }
    let mut low: i32 = MIN_YEAR;
    let mut high: i32 = MAX_YEAR;
    while low < high
        invariant
            1 <= low <= high <= 9999,
            0 <= ordinal <= MAX_ORDINAL,
            days_before_year(low as int) <= ordinal,
            ordinal < days_before_year(high as int + 1),
        decreases high - low,
    {
        let middle = low + (high - low + 1) / 2;
        let start = year_start_ordinal(middle);
        if start <= ordinal {
            low = middle;
        } else {
            high = middle - 1;
        }
    }
    let year = low;
    proof {
        lemma_days_before_next_year(year as int);
        lemma_month_table(year as int);
    }
    let mut remaining = ordinal - year_start_ordinal(year);
    let mut month: u8 = 1;
    while remaining >= days_in_month(year, month) as i32
        invariant
            year_in_range(year as int),
            1 <= month <= 12,
            0 <= remaining,
            remaining as int + days_before_month(year as int, month as int) == ordinal - days_before_year(year as int),
            ordinal - days_before_year(year as int) < days_before_month(year as int, 13),
        decreases 12 - month,
    {
        proof {
            lemma_month_start_monotone(year as int, month as int + 1, 13);
        }
        remaining = remaining - days_in_month(year, month) as i32;
        month = month + 1;
    }
    proof {
        lemma_month_start_monotone(year as int, month as int + 1, 13);
    }
    Some(Date { year, month, day: (remaining + 1) as u8 })
}


/// English name of month `number` (1 is January).
pub open spec fn month_name_of(number: int) -> Seq<char> {
    if number == 1 {
        "January"@
    } else if number == 2 {
        "February"@
    } else if number == 3 {
        "March"@
    } else if number == 4 {
        "April"@
    } else if number == 5 {
        "May"@
    } else if number == 6 {
        "June"@
    } else if number == 7 {
        "July"@
    } else if number == 8 {
        "August"@
    } else if number == 9 {
        "September"@
    } else if number == 10 {
        "October"@
    } else if number == 11 {
        "November"@
    } else {
        "December"@
    }
}

pub fn month_name(number: u8) -> (r: &'static str)
    requires
        1 <= number <= 12,
    ensures
        r@ == month_name_of(number as int),
{
    if number == 1 {
        "January"
    } else if number == 2 {
        "February"
    } else if number == 3 {
        "March"
    } else if number == 4 {
        "April"
    } else if number == 5 {
        "May"
    } else if number == 6 {
        "June"
    } else if number == 7 {
        "July"
    } else if number == 8 {
        "August"
    } else if number == 9 {
        "September"
    } else if number == 10 {
        "October"
    } else if number == 11 {
        "November"
    } else {
        "December"
    }
}

/// `YYYY-MM-DD`.
pub open spec fn iso_text(date: DateModel) -> Seq<char> {
    zero_padded(date.year as nat, 4) + seq!['-'] + zero_padded(date.month as nat, 2) + seq!['-']
        + zero_padded(date.day as nat, 2)
}

impl Date {
    /// The date as `YYYY-MM-DD`.
    pub fn to_string(&self) -> (r: String)
        ensures
            r@ == iso_text(self@),
    {
        proof {
            use_type_invariant(self);
        }
        let mut text = String::new();
        push_zero_padded(&mut text, self.year as u64, 4);
        push_char(&mut text, '-');
        push_zero_padded(&mut text, self.month as u64, 2);
        push_char(&mut text, '-');
        push_zero_padded(&mut text, self.day as u64, 2);
        assert(text@ =~= iso_text(self@));
        text
    }
}

impl Month {
    /// The month as `<Name> <year>`, such as `September 2024`.
    pub fn to_string(&self) -> (r: String)
        ensures
            r@ == month_name_of(self@.number) + seq![' '] + decimal(self@.year as nat),
    {
        proof {
            use_type_invariant(self);
        }
        let mut text = String::from_str(month_name(self.number));
        push_char(&mut text, ' ');
        push_decimal(&mut text, self.year as u64);
        text
    }
}

impl Weekday {
    pub open spec fn short_name_of(self) -> Seq<char> {
        match self {
            Weekday::Sunday => "Su"@,
            Weekday::Monday => "Mo"@,
            Weekday::Tuesday => "Tu"@,
            Weekday::Wednesday => "We"@,
            Weekday::Thursday => "Th"@,
            Weekday::Friday => "Fr"@,
            Weekday::Saturday => "Sa"@,
        }
    }

    pub fn short_name(self) -> (r: &'static str)
        ensures
            r@ == self.short_name_of(),
    {
        match self {
            Weekday::Sunday => "Su",
            Weekday::Monday => "Mo",
            Weekday::Tuesday => "Tu",
            Weekday::Wednesday => "We",
            Weekday::Thursday => "Th",
            Weekday::Friday => "Fr",
            Weekday::Saturday => "Sa",
        }
    }
}

/// The seven weekdays, Sunday first.
pub fn weekdays() -> (r: [Weekday; 7])
    ensures
        forall|i: int| 0 <= i < 7 ==> (#[trigger] r@[i]).index() == i,
{
    [
        Weekday::Sunday,
        Weekday::Monday,
        Weekday::Tuesday,
        Weekday::Wednesday,
        Weekday::Thursday,
        Weekday::Friday,
        Weekday::Saturday,
    ]
}

impl DateError {
    /// Human-readable description of the rejected input.
    pub fn to_string(&self) -> (r: String)
        ensures
            r@ == match *self {
                DateError::Year(year) => "year "@ + signed_decimal(year as int) + " is outside 1..=9999"@,
                DateError::Month(month) => "month "@ + decimal(month as nat) + " is outside 1..=12"@,
                DateError::Day { year, month, day } => "day "@ + decimal(day as nat) + " does not exist in "@
                    + signed_zero_padded(year as int, 4) + seq!['-'] + zero_padded(month as nat, 2),
            },
    {
        match self {
            DateError::Year(year) => {
                let mut text = String::from_str("year ");
                push_signed(&mut text, *year as i64);
                text.append(" is outside 1..=9999");
                text
            },
            DateError::Month(month) => {
                let mut text = String::from_str("month ");
                push_decimal(&mut text, *month as u64);
                text.append(" is outside 1..=12");
                text
            },
            DateError::Day { year, month, day } => {
                let mut text = String::from_str("day ");
                push_decimal(&mut text, *day as u64);
                text.append(" does not exist in ");
                push_signed_zero_padded(&mut text, *year as i64, 4);
                push_char(&mut text, '-');
                push_zero_padded(&mut text, *month as u64, 2);
                text
            },
        }
    }
}


/// Moving a date forward by `n` days and back again by `n` days returns the
/// same date.
pub proof fn lemma_add_days_round_trip(date: Date, moved: Date, back: Date, n: int)
    requires
        date@.wf(),
        moved@.wf(),
        back@.wf(),
        moved@.ordinal() == date@.ordinal() + n,
        back@.ordinal() == moved@.ordinal() - n,
    ensures
        back == date,
{
    lemma_ordinal_injective(back@, date@);
    lemma_date_view_eq(back, date);
}

/// The day after a date falls on the next weekday, Saturday wrapping to
/// Sunday.
pub proof fn lemma_next_day_weekday(date: DateModel, next: DateModel)
    requires
        next.ordinal() == date.ordinal() + 1,
    ensures
        next.weekday_index() == (date.weekday_index() + 1) % 7,
{
    let o = date.ordinal();
    assert(((o + 1) % 7 + 1) % 7 == ((o % 7 + 1) % 7 + 1) % 7) by (nonlinear_arith);
}

/// The month after a month's next month steps back to it, and the other way
/// round.
pub proof fn lemma_month_steps_invert(month: MonthModel)
    requires
        month.wf(),
    ensures
        month.next() matches Some(n) ==> n.previous() == Some(month),
        month.previous() matches Some(p) ==> p.next() == Some(month),
{
}

} // verus!
