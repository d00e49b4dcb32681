//! Dates of the proleptic Gregorian calendar.
//!
//! The calendar itself is stated here as a handful of spec functions. The
//! executable answers come from `chrono`, and the functions that ask it are
//! the only unproved part of this module.

use vstd::prelude::*;

verus! {

/// The earliest year that a [`CalendarDate`] can hold.
pub const MIN_YEAR: i32 = -262_143;

/// The latest year that a [`CalendarDate`] can hold.
pub const MAX_YEAR: i32 = 262_142;

/// A year, a month and a day as mathematical integers: what a
/// [`CalendarDate`] stands for.
pub struct Ymd {
    pub year: int,
    pub month: int,
    pub day: int,
}

/// Leap years are the multiples of 4, but of the multiples of 100 only the
/// multiples of 400. Year 0 is the year before year 1, and so on backwards.
pub open spec fn is_leap_year(year: int) -> bool {
    year % 4 == 0 && (year % 100 != 0 || year % 400 == 0)
}

/// How many days the month has in that year.
pub open spec fn days_in_month(year: int, month: int) -> int {
    if month == 2 {
        if is_leap_year(year) {
            29
        } else {
            28
        }
    } else if month == 4 || month == 6 || month == 9 || month == 11 {
        30
    } else {
        31
    }
}

/// Whether the calendar has this day, and the year is one that a
/// [`CalendarDate`] can hold.
pub open spec fn valid_ymd(d: Ymd) -> bool {
    &&& MIN_YEAR <= d.year <= MAX_YEAR
    &&& 1 <= d.month <= 12
    &&& 1 <= d.day <= days_in_month(d.year, d.month)
}

/// The days of the years from year 1 up to, but without, `year`; negative for
/// a `year` before year 1.
pub open spec fn days_before_year(year: int) -> int {
    let past = year - 1;
    365 * past + past / 4 - past / 100 + past / 400
}

/// The days of the months of `year` that come before `month`.
pub open spec fn days_before_month(year: int, month: int) -> int
    decreases month,
{
    if month <= 1 {
        0
    } else {
        days_before_month(year, month - 1) + days_in_month(year, month - 1)
    }
}

/// The number of the day when the days are counted one by one, with
/// 1 January of year 1 as day 1.
pub open spec fn day_number(d: Ymd) -> int {
    days_before_year(d.year) + days_before_month(d.year, d.month) + d.day
}

/// A day of the week.
#[derive(Clone, Copy, Debug, PartialEq, Eq, Structural)]
pub enum Weekday {
    Mon,
    Tue,
    Wed,
    Thu,
    Fri,
    Sat,
    Sun,
}

impl Weekday {
    /// The weekday that comes `offset` days after a Monday, for an `offset`
    /// from 0 to 6.
    pub open spec fn after_monday(offset: int) -> Weekday {
        if offset == 0 {
            Weekday::Mon
        } else if offset == 1 {
            Weekday::Tue
        } else if offset == 2 {
            Weekday::Wed
        } else if offset == 3 {
            Weekday::Thu
        } else if offset == 4 {
            Weekday::Fri
        } else if offset == 5 {
            Weekday::Sat
        } else {
            Weekday::Sun
        }
    }
}

/// The weekday of a date. Day 1 is a Monday, and the week has seven days.
pub open spec fn weekday_of(d: Ymd) -> Weekday {
    Weekday::after_monday((day_number(d) - 1) % 7)
}

/// The day that follows `d` in the calendar.
pub open spec fn next_day(d: Ymd) -> Ymd {
    if d.day < days_in_month(d.year, d.month) {
        Ymd { year: d.year, month: d.month, day: d.day + 1 }
    } else if d.month < 12 {
        Ymd { year: d.year, month: d.month + 1, day: 1 }
    } else {
        Ymd { year: d.year + 1, month: 1, day: 1 }
    }
}

/// The weekday that follows `weekday`.
pub open spec fn next_weekday(weekday: Weekday) -> Weekday {
    match weekday {
        Weekday::Mon => Weekday::Tue,
        Weekday::Tue => Weekday::Wed,
        Weekday::Wed => Weekday::Thu,
        Weekday::Thu => Weekday::Fri,
        Weekday::Fri => Weekday::Sat,
        Weekday::Sat => Weekday::Sun,
        Weekday::Sun => Weekday::Mon,
    }
}

/// The days are counted one by one: from each day of the calendar to the
/// next, over the ends of months and years too, the day number goes up by
/// one and the weekday moves on by one.
pub proof fn lemma_days_are_counted_one_by_one(d: Ymd)
    requires
        1 <= d.month <= 12,
        1 <= d.day <= days_in_month(d.year, d.month),
    ensures
        day_number(next_day(d)) == day_number(d) + 1,
        weekday_of(next_day(d)) == next_weekday(weekday_of(d)),
{
    reveal_with_fuel(days_before_month, 13);
    if d.day == days_in_month(d.year, d.month) && d.month == 12 {
        assert(days_before_month(d.year, 12) + 31 == if is_leap_year(d.year) {
            366int
        } else {
            365int
        });
        assert(days_before_year(d.year + 1) - days_before_year(d.year) == if is_leap_year(d.year) {
            366int
        } else {
            365int
        });
    }
}

/// The count starts on 1 January of year 1, which is day 1 and a Monday.
pub proof fn lemma_day_one_is_a_monday()
    ensures
        day_number(Ymd { year: 1, month: 1, day: 1 }) == 1,
        weekday_of(Ymd { year: 1, month: 1, day: 1 }) == Weekday::Mon,
{
}

/// A date that the calendar has, without a time of day.
#[derive(Clone, Copy, Debug, PartialEq, Eq, Structural)]
pub struct CalendarDate {
    year: i32,
    month: u32,
    day: u32,
}

impl View for CalendarDate {
    type V = Ymd;

    closed spec fn view(&self) -> Ymd {
        Ymd { year: self.year as int, month: self.month as int, day: self.day as int }
    }
}

/// `chrono::NaiveDate::from_ymd_opt`, asked only whether it makes a date.
/// Taken on trust: it makes one exactly for the days that the proleptic
/// Gregorian calendar has, in the years from `MIN_YEAR` to `MAX_YEAR`.
#[verifier::external_body]
fn calendar_has(year: i32, month: u32, day: u32) -> (has: bool)
    ensures
        has == valid_ymd(Ymd { year: year as int, month: month as int, day: day as int }),
{
    chrono::NaiveDate::from_ymd_opt(year, month, day).is_some()
}

/// `chrono::Datelike::weekday` of the `NaiveDate` with these numbers. Taken
/// on trust: it is the weekday of that day in the proleptic Gregorian
/// calendar, in which 1 January of year 1 is a Monday.
#[verifier::external_body]
fn weekday_in_calendar(year: i32, month: u32, day: u32) -> (weekday: Weekday)
    requires
        valid_ymd(Ymd { year: year as int, month: month as int, day: day as int }),
    ensures
        weekday == weekday_of(Ymd { year: year as int, month: month as int, day: day as int }),
{
    let date = chrono::NaiveDate::from_ymd_opt(year, month, day).unwrap();
    match chrono::Datelike::weekday(&date) {
        chrono::Weekday::Mon => Weekday::Mon,
        chrono::Weekday::Tue => Weekday::Tue,
        chrono::Weekday::Wed => Weekday::Wed,
        chrono::Weekday::Thu => Weekday::Thu,
        chrono::Weekday::Fri => Weekday::Fri,
        chrono::Weekday::Sat => Weekday::Sat,
        chrono::Weekday::Sun => Weekday::Sun,
    }
}

/// `chrono::Datelike::num_days_from_ce` of the `NaiveDate` with these
/// numbers. Taken on trust: it counts the days of the proleptic Gregorian
/// calendar, with 1 January of year 1 as day 1.
#[verifier::external_body]
fn day_number_in_calendar(year: i32, month: u32, day: u32) -> (number: i32)
    requires
        valid_ymd(Ymd { year: year as int, month: month as int, day: day as int }),
    ensures
        number == day_number(Ymd { year: year as int, month: month as int, day: day as int }),
{
    let date = chrono::NaiveDate::from_ymd_opt(year, month, day).unwrap();
    chrono::Datelike::num_days_from_ce(&date)
}

impl CalendarDate {
    /// Every `CalendarDate` is a day that the calendar has.
    #[verifier::type_invariant]
    pub open spec fn is_valid(&self) -> bool {
        valid_ymd(self@)
    }

    /// The date with this year, month and day, if the calendar has it.
    pub fn new(year: i32, month: u32, day: u32) -> (made: Option<CalendarDate>)
        ensures
            made is Some <==> valid_ymd(
                Ymd { year: year as int, month: month as int, day: day as int },
            ),
            made matches Some(date) ==> date@ == (Ymd {
                year: year as int,
                month: month as int,
                day: day as int,
            }),
    {
        if calendar_has(year, month, day) {
            Some(CalendarDate { year, month, day })
        } else {
            None
        }
    }

    /// The year, from `MIN_YEAR` to `MAX_YEAR`.
    pub fn year(&self) -> (year: i32)
        ensures
            year == self@.year,
            MIN_YEAR <= year <= MAX_YEAR,
    {
        proof {
            use_type_invariant(self);
        }
        self.year
    }

    /// The month, from 1 to 12.
    pub fn month(&self) -> (month: u32)
        ensures
            month == self@.month,
            1 <= month <= 12,
    {
        proof {
            use_type_invariant(self);
        }
        self.month
    }

    /// The day of the month, from 1.
    pub fn day(&self) -> (day: u32)
        ensures
            day == self@.day,
            1 <= day <= days_in_month(self@.year, self@.month),
    {
        proof {
            use_type_invariant(self);
        }
        self.day
    }

    /// The weekday that the date falls on.
    pub fn weekday(&self) -> (weekday: Weekday)
        ensures
            weekday == weekday_of(self@),
    {
        proof {
            use_type_invariant(self);
        }
        weekday_in_calendar(self.year, self.month, self.day)
    }

    /// The number of the date when the days are counted from 1 January of
    /// year 1, which is day 1.
    pub fn day_number(&self) -> (number: i32)
        ensures
            number == day_number(self@),
    {
        proof {
            use_type_invariant(self);
        }
        day_number_in_calendar(self.year, self.month, self.day)
    }
}

} // verus!
