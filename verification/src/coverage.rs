//! The coverage analyzer: how completely the stored prices of a security
//! cover the weekdays of a window.

use crate::calendar::{is_weekday, weekday, weekdays_between};
use crate::price::{PriceRecord, PriceSeries};
use vstd::prelude::*;

verus! {

/// One percent, in millionths of a percent.
pub const PERCENT: i64 = 1_000_000;

/// How well a security is covered.
#[derive(Clone, Copy, Debug, PartialEq, Eq, Structural)]
pub enum CoverageStatus {
    /// At least 95 percent of the weekdays have a price.
    Complete,
    /// At least 50 percent have one.
    Partial,
    /// Fewer have one.
    Missing,
}

/// The coverage of one security over a window.
#[derive(Clone, Copy, Debug, PartialEq, Eq)]
pub struct Completeness {
    /// Weekdays in the window.
    pub total_days: u64,
    /// Weekdays in the window without a price.
    pub missing_days: u64,
    /// Share of the weekdays with a price, in millionths of a percent, rounded down.
    pub coverage_percent: i64,
    pub status: CoverageStatus,
}

/// Number of weekdays among the days `first..=last` that are not in `dates`.
pub open spec fn missing_between(dates: Set<int>, first: int, last: int) -> nat
    decreases last - first + 1,
{
    if last < first {
        0
    } else {
        missing_between(dates, first, last - 1) + if is_weekday(last) && !dates.contains(last) {
            1nat
        } else {
            0nat
        }
    }
}

/// `(total - missing) / total * 100`, in millionths of a percent, rounded
/// down; zero where `total` is zero.
pub open spec fn percent_of(total: int, missing: int) -> int {
    if total <= 0 {
        0
    } else {
        (total - missing) * 100_000_000 / total
    }
}

/// The status for a coverage given in millionths of a percent.
pub open spec fn status_of(percent: int) -> CoverageStatus {
    if percent >= 95_000_000 {
        CoverageStatus::Complete
    } else if percent >= 50_000_000 {
        CoverageStatus::Partial
    } else {
        CoverageStatus::Missing
    }
}

/// The coverage that the price dates `dates` give over the days `first..=last`.
pub open spec fn completeness_of(dates: Set<int>, first: int, last: int) -> Completeness {
    let total = weekdays_between(first, last);
    let missing = missing_between(dates, first, last);
    Completeness {
        total_days: total as u64,
        missing_days: missing as u64,
        coverage_percent: percent_of(total as int, missing as int) as i64,
        status: status_of(percent_of(total as int, missing as int)),
    }
}

/// No more weekdays are missing than there are, and no more than days.
pub proof fn lemma_missing_bounds(dates: Set<int>, first: int, last: int)
    ensures
        missing_between(dates, first, last) <= weekdays_between(first, last),
        first <= last + 1 ==> weekdays_between(first, last) <= last - first + 1,
        last < first ==> weekdays_between(first, last) == 0,
    decreases last - first + 1,
{
    if last >= first {
        lemma_missing_bounds(dates, first, last - 1);
    }
}

/// A coverage lies between zero and a hundred percent.
pub proof fn lemma_percent_bounds(total: int, missing: int)
    requires
        0 <= missing <= total,
    ensures
        0 <= percent_of(total, missing) <= 100_000_000,
{
    if total > 0 {
        let covered = total - missing;
        assert(0 <= covered * 100_000_000 / total <= 100_000_000) by (nonlinear_arith)
            requires
                0 <= covered <= total,
                total > 0,
        ;
    }
}

/// The coverage of `series` over the days `window_start..=today`.
pub fn completeness(series: &PriceSeries, window_start: i32, today: i32) -> (r: Completeness)
    ensures
        r == completeness_of(series@.dom(), window_start as int, today as int),
        r.missing_days <= r.total_days <= 0x1_0000_0000,
        0 <= r.coverage_percent <= 100_000_000,
{
    let mut total: u64 = 0;
    let mut missing: u64 = 0;
    let mut day: i64 = window_start as i64;
    let ghost dates = series@.dom();
    while day <= today as i64
        invariant
            window_start <= day <= today + 1 || (today < window_start && day == window_start),
            dates == series@.dom(),
            total == weekdays_between(window_start as int, day - 1),
            missing == missing_between(dates, window_start as int, day - 1),
            missing <= total <= day - window_start,
        decreases today - day + 1,
    {
        let d: i32 = day as i32;
        if weekday(d) {
            total = total + 1;
            if !series.contains_date(d) {
                missing = missing + 1;
            }
        }
        day = day + 1;
    }
    proof {
        lemma_percent_bounds(total as int, missing as int);
    }
    let percent: i64 = if total == 0 {
        0
    } else {
        (((total - missing) as u128 * 100_000_000) / (total as u128)) as i64
    };
    let status = if percent >= 95 * PERCENT {
        CoverageStatus::Complete
    } else if percent >= 50 * PERCENT {
        CoverageStatus::Partial
    } else {
        CoverageStatus::Missing
    };
    Completeness { total_days: total, missing_days: missing, coverage_percent: percent, status }
}

/// A price for a weekday of the window that had none takes one day off the
/// missing days.
pub proof fn lemma_one_day_less_missing(dates: Set<int>, first: int, last: int, day: int)
    requires
        first <= day <= last,
        is_weekday(day),
        !dates.contains(day),
    ensures
        missing_between(dates.insert(day), first, last) + 1 == missing_between(dates, first, last),
    decreases last - first + 1,
{
    if day == last {
        lemma_same_missing(dates, dates.insert(day), first, last - 1);
    } else {
        lemma_one_day_less_missing(dates, first, last - 1, day);
    }
}

/// Two sets of dates that agree on the days `first..=last` miss the same days.
pub proof fn lemma_same_missing(a: Set<int>, b: Set<int>, first: int, last: int)
    requires
        forall|d: int| first <= d <= last ==> a.contains(d) == b.contains(d),
    ensures
        missing_between(a, first, last) == missing_between(b, first, last),
    decreases last - first + 1,
{
    if last >= first {
        lemma_same_missing(a, b, first, last - 1);
    }
}

/// Coverage grows with the price dates: a price record for a weekday of the
/// window that had none raises the number of covered weekdays by one, never
/// lowers the coverage percent, and raises it whenever the window has at most
/// a hundred million weekdays (so that one weekday is at least a millionth of
/// a percent).
pub proof fn law_coverage_grows_with_prices(
    series: Map<int, PriceRecord>,
    record: PriceRecord,
    first: int,
    last: int,
)
    requires
        first <= record.date <= last,
        is_weekday(record.date as int),
        !series.dom().contains(record.date as int),
    ensures
        missing_between(series.insert(record.date as int, record).dom(), first, last) + 1
            == missing_between(series.dom(), first, last),
        percent_of(
            weekdays_between(first, last) as int,
            missing_between(series.insert(record.date as int, record).dom(), first, last) as int,
        ) >= percent_of(
            weekdays_between(first, last) as int,
            missing_between(series.dom(), first, last) as int,
        ),
        weekdays_between(first, last) <= 100_000_000 ==> percent_of(
            weekdays_between(first, last) as int,
            missing_between(series.insert(record.date as int, record).dom(), first, last) as int,
        ) > percent_of(
            weekdays_between(first, last) as int,
            missing_between(series.dom(), first, last) as int,
        ),
{
    let dates = series.dom();
    lemma_one_day_less_missing(dates, first, last, record.date as int);
    lemma_missing_bounds(dates, first, last);
    let total = weekdays_between(first, last) as int;
    let covered = total - missing_between(dates, first, last);
    assert((covered + 1) * 100_000_000 / total >= covered * 100_000_000 / total) by (nonlinear_arith)
        requires
            total > 0,
            covered >= 0,
    ;
    if total <= 100_000_000 {
        assert((covered + 1) * 100_000_000 / total > covered * 100_000_000 / total) by (nonlinear_arith)
            requires
                0 < total <= 100_000_000,
                covered >= 0,
        ;
    }
}

} // verus!
