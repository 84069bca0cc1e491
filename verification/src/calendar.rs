//! Calendar days.
//!
//! A date is the number of days since 1970-01-01 (`i32`), so that dates order
//! and subtract as integers. Text forms and Unix timestamps are converted by
//! the `chrono` crate; weekdays and day boundaries are plain arithmetic.

use crate::text::{trim, trimmed};
use vstd::prelude::*;

verus! {

/// Seconds in one day.
pub const SECONDS_PER_DAY: i64 = 86_400;

/// The first day of the calendar: 1 January of the year -262143.
pub const FIRST_DAY: i32 = -96_465_292;

/// The last day of the calendar: 31 December of the year 262142.
pub const LAST_DAY: i32 = 95_026_236;

/// Whether `day` is a day of the calendar, which spans the years that
/// `chrono` can hold.
pub open spec fn in_calendar(day: int) -> bool {
    FIRST_DAY <= day <= LAST_DAY
}

/// The `year-month-day` text of day number `day`.
pub uninterp spec fn iso_date_text(day: int) -> Seq<char>;

/// The day number that `chrono` reads from a `year-month-day` text, if any.
pub uninterp spec fn parsed_iso_date(text: Seq<char>) -> Option<int>;

/// `chrono::NaiveDate::parse_from_str` with the pattern `%Y-%m-%d`, followed
/// by `to_epoch_days`: the outcome depends on the text alone and is named
/// `parsed_iso_date`.
#[verifier::external_body]
fn read_iso_date(text: &str) -> (r: Option<i32>)
    ensures
        match r {
            Some(day) => parsed_iso_date(text@) == Some(day as int),
            None => parsed_iso_date(text@) is None,
        },
{
    chrono::NaiveDate::parse_from_str(text, "%Y-%m-%d").ok().map(|d| d.to_epoch_days())
}

/// `chrono::NaiveDate::from_epoch_days` followed by `format` with the pattern
/// `%Y-%m-%d`: `chrono` has a date exactly for the days from its first date,
/// 1 January -262143, to its last, 31 December 262142; the text of a day
/// depends on the day alone and is named `iso_date_text`.
#[verifier::external_body]
fn write_iso_date(day: i32) -> (r: Option<String>)
    ensures
        match r {
            Some(s) => in_calendar(day as int) && s@ == iso_date_text(day as int),
            None => !in_calendar(day as int),
        },
{
    chrono::NaiveDate::from_epoch_days(day).map(|d| d.format("%Y-%m-%d").to_string())
}

/// `chrono::DateTime::from_timestamp` with no nanoseconds, followed by
/// `date_naive` and `to_epoch_days`: the day is the timestamp divided by the
/// seconds of a day, rounded down, and exists exactly when that day lies
/// between the first and the last date of `chrono`.
#[verifier::external_body]
fn timestamp_to_day(ts: i64) -> (r: Option<i32>)
    ensures
        r == day_of_timestamp(ts as int),
{
    chrono::DateTime::from_timestamp(ts, 0).map(|t| t.date_naive().to_epoch_days())
}

/// The calendar day on which the Unix timestamp `ts` falls (UTC).
pub open spec fn day_of_timestamp(ts: int) -> Option<i32> {
    let day = ts / 86_400;
    if in_calendar(day) {
        Some(day as i32)
    } else {
        None
    }
}

/// First second of `day`.
pub open spec fn day_start(day: int) -> int {
    day * 86_400
}

/// Last second of `day`.
pub open spec fn day_end(day: int) -> int {
    day * 86_400 + 86_399
}

/// Whether `day` is one of Monday to Friday. Day 0 was a Thursday.
pub open spec fn is_weekday(day: int) -> bool {
    (day + 3) % 7 < 5
}

/// Number of weekdays among the days `first..=last`.
pub open spec fn weekdays_between(first: int, last: int) -> nat
    decreases last - first + 1,
{
    if last < first {
        0
    } else {
        weekdays_between(first, last - 1) + if is_weekday(last) { 1nat } else { 0nat }
    }
}

/// Reads a `year-month-day` date, ignoring surrounding white space.
pub fn parse_date(text: &str) -> (r: Option<i32>)
    ensures
        match r {
            Some(day) => parsed_iso_date(trimmed(text@)) == Some(day as int),
            None => parsed_iso_date(trimmed(text@)) is None,
        },
{
    let t = trim(text);
    read_iso_date(t.as_str())
}

/// Writes `day` as `year-month-day`; `None` when the calendar has no such day.
pub fn format_date(day: i32) -> (r: Option<String>)
    ensures
        match r {
            Some(s) => in_calendar(day as int) && s@ == iso_date_text(day as int),
            None => !in_calendar(day as int),
        },
{
    write_iso_date(day)
}

/// The day on which a Unix timestamp falls; `None` when the calendar has no
/// such day.
pub fn timestamp_day(ts: i64) -> (r: Option<i32>)
    ensures
        r == day_of_timestamp(ts as int),
{
    timestamp_to_day(ts)
}

/// Unix timestamp of the first second of `day`.
pub fn start_of_day(day: i32) -> (ts: i64)
    ensures
        ts == day_start(day as int),
{
    (day as i64) * SECONDS_PER_DAY
}

/// Unix timestamp of the last second of `day`.
pub fn end_of_day(day: i32) -> (ts: i64)
    ensures
        ts == day_end(day as int),
{
    (day as i64) * SECONDS_PER_DAY + (SECONDS_PER_DAY - 1)
}

/// Whether `day` is one of Monday to Friday.
pub fn weekday(day: i32) -> (r: bool)
    ensures
        r == is_weekday(day as int),
{
    // 2_147_483_653 is a multiple of seven, so the remainder is that of `day + 3`.
    let shifted: i64 = day as i64 + 2_147_483_653 + 3;
    shifted % 7 < 5
}

/// The day `days` before `today`, or the earliest day that an `i32` holds.
pub fn lookback_start(today: i32, days: u32) -> (r: i32)
    ensures
        r == if today - days < i32::MIN { i32::MIN as int } else { today - days },
{
    let wide: i64 = today as i64 - days as i64;
    if wide < i32::MIN as i64 {
        i32::MIN
    } else {
        wide as i32
    }
}

} // verus!
