//! Dates of the proleptic Gregorian calendar and local clock times counted
//! in seconds.
//!
//! A local date and time is held as the number of seconds since
//! 1970-01-01 00:00:00 on the same clock (no time zone attached). Dates come
//! from, and are checked by, `chrono`.

use chrono::Datelike;
use vstd::prelude::*;

use crate::clock::{hms_fits, hms_seconds, split_spec, split_total_seconds, total_seconds, SECONDS_PER_DAY};

verus! {

/// The earliest year that `chrono` represents.
pub const CALENDAR_MIN_YEAR: i32 = -262143;

/// The latest year that `chrono` represents.
pub const CALENDAR_MAX_YEAR: i32 = 262142;

/// Offset of Japan Standard Time from UTC, in seconds.
pub const JST_OFFSET_SECONDS: i64 = 32400;

/// A calendar date.
#[derive(Clone, Copy, Debug, PartialEq, Eq, Structural)]
pub struct CivilDate {
    pub year: i32,
    pub month: u32,
    pub day: u32,
}

/// A calendar date with a time of day.
#[derive(Clone, Copy, Debug, PartialEq, Eq, Structural)]
pub struct CivilDateTime {
    pub date: CivilDate,
    pub hour: u32,
    pub minute: u32,
    pub second: u32,
}

/// Whether `year` is a leap year of the Gregorian calendar.
pub open spec fn is_leap_year(year: int) -> bool {
    year % 4 == 0 && (year % 100 != 0 || year % 400 == 0)
}

/// The number of days of `month` in `year`.
pub open spec fn days_in_month(year: int, month: int) -> int {
    if month == 2 {
        if is_leap_year(year) {
            29
        } else {
            28
        }
    } else if month == 4 || month == 6 || month == 9 || month == 11 {
        30
    } else {
        31
    }
}

/// Whether `year`-`month`-`day` is a date of the calendar.
pub open spec fn is_valid_date(year: int, month: int, day: int) -> bool {
    &&& 1 <= month <= 12
    &&& 1 <= day <= days_in_month(year, month)
}

/// Whether `year` lies in the range of years that `chrono` represents.
pub open spec fn in_calendar_range(year: int) -> bool {
    CALENDAR_MIN_YEAR <= year <= CALENDAR_MAX_YEAR
}

/// The days of `year` before the first day of `month`.
pub open spec fn days_before_month(year: int, month: int) -> int {
    let common: int = if month <= 1 {
        0
    } else if month == 2 {
        31
    } else if month == 3 {
        59
    } else if month == 4 {
        90
    } else if month == 5 {
        120
    } else if month == 6 {
        151
    } else if month == 7 {
        181
    } else if month == 8 {
        212
    } else if month == 9 {
        243
    } else if month == 10 {
        273
    } else if month == 11 {
        304
    } else {
        334
    };
    if month > 2 && is_leap_year(year) {
        common + 1
    } else {
        common
    }
}

/// The leap years from year 1 up to, not including, `year` (counted
/// negatively for years before 1).
pub open spec fn leap_years_before(year: int) -> int {
    (year - 1) / 4 - (year - 1) / 100 + (year - 1) / 400
}

/// The days from 1970-01-01 to the first day of `year`.
pub open spec fn days_before_year(year: int) -> int {
    365 * (year - 1970) + leap_years_before(year) - leap_years_before(1970)
}

/// The number of the day `year`-`month`-`day`, 1970-01-01 being day 0.
pub open spec fn epoch_day(year: int, month: int, day: int) -> int {
    days_before_year(year) + days_before_month(year, month) + day - 1
}

/// The number of `date`, 1970-01-01 being day 0.
pub open spec fn epoch_day_of(date: CivilDate) -> int {
    epoch_day(date.year as int, date.month as int, date.day as int)
}

/// The number of the first day that `chrono` represents.
pub open spec fn min_epoch_day() -> int {
    epoch_day(CALENDAR_MIN_YEAR as int, 1, 1)
}

/// The number of the last day that `chrono` represents.
pub open spec fn max_epoch_day() -> int {
    epoch_day(CALENDAR_MAX_YEAR as int, 12, 31)
}

/// Whether `date` is a date that `chrono` represents.
pub open spec fn is_calendar_date(date: CivilDate) -> bool {
    &&& in_calendar_range(date.year as int)
    &&& is_valid_date(date.year as int, date.month as int, date.day as int)
}

/// Whether `dt` is a date that `chrono` represents with a time of day in range.
pub open spec fn is_calendar_date_time(dt: CivilDateTime) -> bool {
    &&& is_calendar_date(dt.date)
    &&& dt.hour < 24
    &&& dt.minute < 60
    &&& dt.second < 60
}

/// The local seconds since 1970-01-01 00:00:00 of `dt`.
pub open spec fn local_seconds_of(dt: CivilDateTime) -> int {
    epoch_day_of(dt.date) * 86400 + hms_seconds(dt.hour as int, dt.minute as int, dt.second as int)
}

/// Whether a shift of `days` whole days can be built as a `chrono` duration.
pub open spec fn day_shift_fits(days: int) -> bool {
    -(i64::MAX / 1000) <= days * 86400 <= i64::MAX / 1000
}

/// `chrono::NaiveDate::from_ymd_opt` followed by `NaiveDate::to_epoch_days`.
/// Claimed: the date exists exactly when its year is in `chrono`'s range and
/// the month and day make a date of the proleptic Gregorian calendar; its
/// number is then the count of days since 1970-01-01.
#[verifier::external_body]
fn epoch_day_of_ymd(year: i32, month: u32, day: u32) -> (days: Option<i32>)
    ensures
        days is Some <==> (in_calendar_range(year as int) && is_valid_date(year as int, month as int, day as int)),
        days matches Some(n) ==> n == epoch_day(year as int, month as int, day as int),
{
    match chrono::NaiveDate::from_ymd_opt(year, month, day) {
        Some(date) => Some(date.to_epoch_days()),
        None => None,
    }
}

/// `chrono::NaiveDate::from_epoch_days`, the date read back through
/// `Datelike::{year, month, day}`. Claimed: a date comes back exactly when
/// the day number lies between those of `chrono`'s first and last day, and
/// it is then the calendar date of that number.
#[verifier::external_body]
fn date_of_epoch_day(days: i32) -> (date: Option<CivilDate>)
    ensures
        date is Some <==> min_epoch_day() <= days <= max_epoch_day(),
        date matches Some(d) ==> is_calendar_date(d) && epoch_day_of(d) == days,
{
    match chrono::NaiveDate::from_epoch_days(days) {
        Some(date) => Some(CivilDate { year: date.year(), month: date.month(), day: date.day() }),
        None => None,
    }
}

/// The calendar date and time of day at `local` seconds since
/// 1970-01-01 00:00:00; `None` when the day lies outside `chrono`'s range.
pub fn civil_from_local_seconds(local: i64) -> (dt: Option<CivilDateTime>)
    ensures
        dt is Some <==> min_epoch_day() <= (local as int) / 86400 <= max_epoch_day(),
        dt matches Some(d) ==> is_calendar_date_time(d) && local_seconds_of(d) == local,
{
    proof {
        lemma_epoch_range_fits_i32();
    }
    let split = split_total_seconds(local);
    if split.day_offset < i32::MIN as i64 || split.day_offset > i32::MAX as i64 {
        return None;
    }
    match date_of_epoch_day(split.day_offset as i32) {
        Some(date) => Some(
            CivilDateTime {
                date,
                hour: split.hour as u32,
                minute: split.minute as u32,
                second: split.second as u32,
            },
        ),
        None => None,
    }
}

/// The local time of a sunset on `year`-`month`-`day` given as hours,
/// minutes and seconds after that day's midnight, as local seconds since
/// 1970-01-01 00:00:00.
///
/// Whole days in the clock time move the date: the sunset falls on the day
/// that many days later (earlier, if negative), which must be a day that
/// `chrono` represents. `None` when the date does not exist or the moved day
/// is out of range.
pub fn normalize_sunset_naive_datetime(
    year: i16,
    month: u8,
    day: u8,
    sunset_hms: (i64, i64, i64),
) -> (local: Option<i64>)
    requires
        hms_fits(sunset_hms.0 as int, sunset_hms.1 as int, sunset_hms.2 as int),
        day_shift_fits(hms_seconds(sunset_hms.0 as int, sunset_hms.1 as int, sunset_hms.2 as int) / 86400),
    ensures
        ({
            let total = hms_seconds(sunset_hms.0 as int, sunset_hms.1 as int, sunset_hms.2 as int);
            let shift = split_spec(total).0;
            let start = epoch_day(year as int, month as int, day as int);
            &&& local is Some <==> (is_valid_date(year as int, month as int, day as int) && (shift == 0
                || min_epoch_day() <= start + shift <= max_epoch_day()))
            &&& local matches Some(t) ==> t == start * 86400 + total
        }),
{
    proof {
        lemma_epoch_range_fits_i32();
    }
    let total = total_seconds(sunset_hms.0, sunset_hms.1, sunset_hms.2);
    let split = split_total_seconds(total);
    let start = match epoch_day_of_ymd(year as i32, month as u32, day as u32) {
        Some(d) => d,
        None => {
            return None;
        },
    };
    let mut sunset_day: i64 = start as i64;
    if split.day_offset != 0 {
        proof {
            assert(-(i64::MAX / 1000) <= split.day_offset * 86400 <= i64::MAX / 1000);
            assert(-(i64::MAX / 86400000) - 1 <= split.day_offset <= i64::MAX / 86400000 + 1)
                by (nonlinear_arith)
                requires
                    -(i64::MAX / 1000) <= split.day_offset * 86400 <= i64::MAX / 1000,
            {
            }
        }
        let shifted = start as i64 + split.day_offset;
        if shifted < i32::MIN as i64 || shifted > i32::MAX as i64 {
            return None;
        }
        if date_of_epoch_day(shifted as i32).is_none() {
            return None;
        }
        sunset_day = shifted;
    }
    proof {
        assert(min_epoch_day() <= sunset_day <= max_epoch_day());
    }
    Some(sunset_day * SECONDS_PER_DAY + total_seconds(split.hour, split.minute, split.second))
}

/// The UNIX time of the local Japan Standard Time `local` (seconds since
/// 1970-01-01 00:00:00 on the JST clock): nine hours earlier. `None` when
/// the UTC day falls outside `chrono`'s range.
pub fn jst_unix_time(local: i64) -> (unix: Option<i64>)
    requires
        i64::MIN + JST_OFFSET_SECONDS <= local,
    ensures
        unix is Some <==> min_epoch_day() <= (local - 32400) / 86400 <= max_epoch_day(),
        unix matches Some(u) ==> u == local - 32400,
{
    let unix = local - JST_OFFSET_SECONDS;
    match civil_from_local_seconds(unix) {
        Some(_) => Some(unix),
        None => None,
    }
}

/// The day numbers of `chrono`'s range fit in `i32`.
proof fn lemma_epoch_range_fits_i32()
    ensures
        i32::MIN < min_epoch_day() < 0 < max_epoch_day() < i32::MAX,
{
    assert(min_epoch_day() == -96465292);
    assert(max_epoch_day() == 95026236);
}

/// Counting multiples of `d` up to `y` gains one exactly at multiples of `d`.
proof fn lemma_floor_div_step(y: int, d: int)
    requires
        d > 0,
    ensures
        y / d - (y - 1) / d == (if y % d == 0 { 1int } else { 0int }),
{
    let q = y / d;
    let r = y % d;
    assert(y == q * d + r && 0 <= r < d) by (nonlinear_arith)
        requires
            d > 0,
            q == y / d,
            r == y % d,
    {
    }
    if r == 0 {
        assert((y - 1) / d == q - 1) by (nonlinear_arith)
            requires
                d > 0,
                y == q * d,
        {
        }
    } else {
        assert((y - 1) / d == q) by (nonlinear_arith)
            requires
                d > 0,
                y == q * d + r,
                1 <= r < d,
        {
        }
    }
}

/// Multiples of 100 are multiples of 4, and multiples of 400 of 100.
proof fn lemma_century_divisibility(y: int)
    ensures
        y % 100 == 0 ==> y % 4 == 0,
        y % 400 == 0 ==> y % 100 == 0,
{
    if y % 100 == 0 {
        let q = y / 100;
        assert(y == q * 100) by (nonlinear_arith)
            requires
                q == y / 100,
                y % 100 == 0,
        {
        }
        assert(y % 4 == 0) by (nonlinear_arith)
            requires
                y == q * 100,
        {
        }
    }
    if y % 400 == 0 {
        let q = y / 400;
        assert(y == q * 400) by (nonlinear_arith)
            requires
                q == y / 400,
                y % 400 == 0,
        {
        }
        assert(y % 100 == 0) by (nonlinear_arith)
            requires
                y == q * 400,
        {
        }
    }
}

/// The number of days of one year.
pub open spec fn days_in_year(year: int) -> int {
    if is_leap_year(year) {
        366
    } else {
        365
    }
}

/// One year on, the first day lies `days_in_year` days later.
proof fn lemma_days_before_next_year(year: int)
    ensures
        days_before_year(year + 1) == days_before_year(year) + days_in_year(year),
{
    lemma_floor_div_step(year, 4);
    lemma_floor_div_step(year, 100);
    lemma_floor_div_step(year, 400);
    lemma_century_divisibility(year);
}

/// First days of later years come later, by at least 365 days a year.
proof fn lemma_days_before_year_increasing(a: int, b: int)
    requires
        a <= b,
    ensures
        days_before_year(b) - days_before_year(a) >= 365 * (b - a),
    decreases b - a,
{
    if a < b {
        lemma_days_before_year_increasing(a, b - 1);
        lemma_days_before_next_year(b - 1);
    }
}

/// The days of a date before it within its year are fewer than the year has.
proof fn lemma_day_of_year_bounds(year: int, month: int, day: int)
    requires
        is_valid_date(year, month, day),
    ensures
        0 <= days_before_month(year, month) + day - 1 < days_in_year(year),
{
}

/// Within a year, later dates have greater numbers.
proof fn lemma_day_of_year_increasing(year: int, m1: int, d1: int, m2: int, d2: int)
    requires
        is_valid_date(year, m1, d1),
        is_valid_date(year, m2, d2),
        m1 < m2 || (m1 == m2 && d1 < d2),
    ensures
        days_before_month(year, m1) + d1 < days_before_month(year, m2) + d2,
{
}

/// Between two dates, the earlier in calendar order has the smaller number.
proof fn lemma_epoch_day_increasing(a: CivilDate, b: CivilDate)
    requires
        is_valid_date(a.year as int, a.month as int, a.day as int),
        is_valid_date(b.year as int, b.month as int, b.day as int),
        a.year < b.year || (a.year == b.year && (a.month < b.month || (a.month == b.month
            && a.day < b.day))),
    ensures
        epoch_day_of(a) < epoch_day_of(b),
{
    if a.year < b.year {
        lemma_day_of_year_bounds(a.year as int, a.month as int, a.day as int);
        lemma_day_of_year_bounds(b.year as int, b.month as int, b.day as int);
        lemma_days_before_next_year(a.year as int);
        lemma_days_before_year_increasing(a.year + 1, b.year as int);
    } else {
        lemma_day_of_year_increasing(
            a.year as int,
            a.month as int,
            a.day as int,
            b.month as int,
            b.day as int,
        );
    }
}

/// Two dates of the calendar with the same number are the same date.
pub proof fn law_epoch_day_injective(a: CivilDate, b: CivilDate)
    requires
        is_valid_date(a.year as int, a.month as int, a.day as int),
        is_valid_date(b.year as int, b.month as int, b.day as int),
        epoch_day_of(a) == epoch_day_of(b),
    ensures
        a == b,
{
    if a.year < b.year || (a.year == b.year && (a.month < b.month || (a.month == b.month && a.day
        < b.day))) {
        lemma_epoch_day_increasing(a, b);
    } else if b.year < a.year || (a.year == b.year && (b.month < a.month || (a.month == b.month
        && b.day < a.day))) {
        lemma_epoch_day_increasing(b, a);
    }
}

/// Every date that `chrono` represents has a number between those of its
/// first and last day.
pub proof fn law_calendar_dates_in_range(date: CivilDate)
    requires
        is_calendar_date(date),
    ensures
        min_epoch_day() <= epoch_day_of(date) <= max_epoch_day(),
{
    let first = CivilDate { year: CALENDAR_MIN_YEAR, month: 1, day: 1 };
    let last = CivilDate { year: CALENDAR_MAX_YEAR, month: 12, day: 31 };
    if date != first {
        lemma_epoch_day_increasing(first, date);
    }
    if date != last {
        lemma_epoch_day_increasing(date, last);
    }
}

/// A date and time of day that `chrono` represents is found again from its
/// local seconds: those seconds fall on a day in range, and no other date
/// and time in range has the same seconds.
pub proof fn law_local_seconds_round_trip(dt: CivilDateTime, other: CivilDateTime)
    requires
        is_calendar_date_time(dt),
        is_calendar_date_time(other),
    ensures
        min_epoch_day() <= local_seconds_of(dt) / 86400 <= max_epoch_day(),
        local_seconds_of(other) == local_seconds_of(dt) ==> other == dt,
{
    law_calendar_dates_in_range(dt.date);
    let h = hms_seconds(dt.hour as int, dt.minute as int, dt.second as int);
    let h2 = hms_seconds(other.hour as int, other.minute as int, other.second as int);
    crate::clock::law_split_inverts_hms(dt.hour as int, dt.minute as int, dt.second as int);
    crate::clock::law_split_inverts_hms(other.hour as int, other.minute as int, other.second as int);
    crate::clock::law_split_shifts_by_days(h, epoch_day_of(dt.date));
    crate::clock::law_split_shifts_by_days(h2, epoch_day_of(other.date));
    assert(local_seconds_of(dt) == h + epoch_day_of(dt.date) * 86400);
    assert(local_seconds_of(other) == h2 + epoch_day_of(other.date) * 86400);
    if local_seconds_of(other) == local_seconds_of(dt) {
        law_epoch_day_injective(dt.date, other.date);
    }
}

/// The local time that `normalize_sunset_naive_datetime` gives for a
/// sunset clock time `total` (seconds after midnight of day number `start`)
/// lies on the day `start` moved by the whole days of `total`, at the time
/// of day of `total`.
pub proof fn law_sunset_keeps_time_of_day(start: int, total: int)
    ensures
        split_spec(start * 86400 + total).0 == start + split_spec(total).0,
        split_spec(start * 86400 + total).1 == split_spec(total).1,
        split_spec(start * 86400 + total).2 == split_spec(total).2,
        split_spec(start * 86400 + total).3 == split_spec(total).3,
{
    crate::clock::law_split_shifts_by_days(total, start);
    assert(start * 86400 + total == total + start * 86400);
}
} // verus!
