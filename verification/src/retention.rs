//! The retention rules: which dated archives are kept as of "now".
//!
//! Three rules, and an archive is kept when any of them holds. The first of
//! every month is kept for good. Of the month that "now" falls in, the
//! Mondays are kept. And whatever is dated within the last seven days is
//! kept.

use crate::calendar::{day_number, weekday_of, CalendarDate, Weekday, Ymd};
use vstd::prelude::*;

verus! {

/// How many days back the recent archives reach. An archive dated exactly
/// this many days before "now" is no longer recent.
pub const RECENT_DAYS: i32 = 7;

/// The first rule: the date is the first day of its month.
pub open spec fn starts_month(d: Ymd) -> bool {
    d.day == 1
}

/// One half of the second rule: the month has the same number as the month
/// of `now`. The years are not compared.
pub open spec fn in_month_of(d: Ymd, now: Ymd) -> bool {
    d.month == now.month
}

/// The other half of the second rule: the date falls on a Monday.
pub open spec fn on_monday(d: Ymd) -> bool {
    weekday_of(d) == Weekday::Mon
}

/// The third rule: the date comes after the day that lies `RECENT_DAYS` days
/// before `now`. A date after `now` is recent too.
pub open spec fn in_last_week(d: Ymd, now: Ymd) -> bool {
    day_number(now) - RECENT_DAYS < day_number(d)
}

/// The verdict on an archive dated `d` as of `now`: kept when any of the
/// three rules holds.
pub open spec fn should_keep(d: Ymd, now: Ymd) -> bool {
    ||| starts_month(d)
    ||| in_month_of(d, now) && on_monday(d)
    ||| in_last_week(d, now)
}

/// Whether the date is the first day of its month.
pub fn is_start_of_month(d: &CalendarDate) -> (first: bool)
    ensures
        first == starts_month(d@),
{
    d.day() == 1
}

/// Whether the date lies in a month with the number of the month of `now`.
pub fn is_in_current_month(d: &CalendarDate, now: &CalendarDate) -> (same: bool)
    ensures
        same == in_month_of(d@, now@),
{
    now.month() == d.month()
}

/// Whether the date falls on a Monday.
pub fn is_monday(d: &CalendarDate) -> (monday: bool)
    ensures
        monday == on_monday(d@),
{
    d.weekday() == Weekday::Mon
}

/// Whether the date comes after the day that lies `RECENT_DAYS` days before
/// `now`.
pub fn is_last_week(d: &CalendarDate, now: &CalendarDate) -> (recent: bool)
    ensures
        recent == in_last_week(d@, now@),
{
    let last_week: i64 = now.day_number() as i64 - RECENT_DAYS as i64;
    last_week < d.day_number() as i64
}

/// The verdict on an archive dated `d` as of `now`. It depends on the two
/// dates and on nothing else, so the same pair gets the same verdict every
/// time.
pub fn keep(d: &CalendarDate, now: &CalendarDate) -> (kept: bool)
    ensures
        kept == should_keep(d@, now@),
{
    if is_start_of_month(d) {
        true
    } else if is_in_current_month(d, now) && is_monday(d) {
        true
    } else {
        is_last_week(d, now)
    }
}

/// The verdict is a function of the two dates: the same date as of the same
/// "now" gets the same verdict, whenever and however often it is asked for.
pub proof fn lemma_same_dates_same_verdict(d: Ymd, now: Ymd, again: Ymd, now_again: Ymd)
    requires
        d == again,
        now == now_again,
    ensures
        should_keep(d, now) == should_keep(again, now_again),
{
}

/// The verdict is the union of the three rules, no more and no less: what
/// one rule keeps, no other rule takes away, and what no rule keeps is not
/// kept.
pub proof fn lemma_verdict_is_the_union_of_the_rules(d: Ymd, now: Ymd)
    ensures
        should_keep(d, now) == (starts_month(d) || (in_month_of(d, now) && on_monday(d))
            || in_last_week(d, now)),
        starts_month(d) ==> should_keep(d, now),
        in_month_of(d, now) && on_monday(d) ==> should_keep(d, now),
        in_last_week(d, now) ==> should_keep(d, now),
{
}

/// The first day of a month is kept, whatever its weekday and however long
/// ago it was.
pub proof fn lemma_month_start_is_kept(d: Ymd, now: Ymd)
    requires
        d.day == 1,
    ensures
        should_keep(d, now),
{
}

/// In the month of `now`, a day that is neither a Monday nor the first of
/// the month, and that lies `RECENT_DAYS` days back or more, is not kept.
pub proof fn lemma_weekly_thinning(d: Ymd, now: Ymd)
    requires
        d.month == now.month,
        weekday_of(d) != Weekday::Mon,
        d.day != 1,
        day_number(d) <= day_number(now) - RECENT_DAYS,
    ensures
        !should_keep(d, now),
{
}

/// A date less than `RECENT_DAYS` days back is kept, also in another month
/// than that of `now` and on any weekday.
pub proof fn lemma_recent_is_kept(d: Ymd, now: Ymd)
    requires
        day_number(now) - RECENT_DAYS < day_number(d),
    ensures
        should_keep(d, now),
{
}

} // verus!
