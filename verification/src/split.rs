//! Stock splits: the ratio of an event, the cumulative factor of a list of
//! events, and the adjustment of prices by it.

use crate::number::{
    as_i32, as_i64, decimal_value, integer_value, mul_div, parse_decimal_chars, parse_i32, scaled,
};
use crate::price::PriceRecord;
use crate::text::{chars_of, find_char, index_of, string_of, trim, trimmed};
use vstd::prelude::*;

verus! {

/// A stock split: on `date`, every share became `numerator / denominator` shares.
#[derive(Clone, Copy, Debug, PartialEq, Eq)]
pub struct SplitEvent {
    pub date: i32,
    pub numerator: i64,
    pub denominator: i64,
}

impl SplitEvent {
    /// Whether both parts of the ratio are at least one.
    pub open spec fn well_formed(&self) -> bool {
        self.numerator >= 1 && self.denominator >= 1
    }

    /// The numerator that counts: that of a well-formed ratio, else one.
    pub open spec fn effective_numerator(&self) -> int {
        if self.well_formed() {
            self.numerator as int
        } else {
            1
        }
    }

    /// The denominator that counts: that of a well-formed ratio, else one.
    pub open spec fn effective_denominator(&self) -> int {
        if self.well_formed() {
            self.denominator as int
        } else {
            1
        }
    }

    /// The event with the given ratio, or with the ratio 1:1 where a part of
    /// the given ratio is not positive.
    pub fn new(date: i32, numerator: i64, denominator: i64) -> (r: SplitEvent)
        ensures
            r.well_formed(),
            r.date == date,
            r.numerator == (if numerator >= 1 && denominator >= 1 { numerator } else { 1 }),
            r.denominator == (if numerator >= 1 && denominator >= 1 { denominator } else { 1 }),
    {
        if numerator >= 1 && denominator >= 1 {
            SplitEvent { date, numerator, denominator }
        } else {
            SplitEvent { date, numerator: 1, denominator: 1 }
        }
    }
}

/// Product of the numerators of the splits dated strictly after `date`.
pub open spec fn factor_numerator(splits: Seq<SplitEvent>, date: int) -> int
    decreases splits.len(),
{
    if splits.len() == 0 {
        1
    } else if splits.last().date > date {
        factor_numerator(splits.drop_last(), date) * splits.last().effective_numerator()
    } else {
        factor_numerator(splits.drop_last(), date)
    }
}

/// Product of the denominators of the splits dated strictly after `date`.
pub open spec fn factor_denominator(splits: Seq<SplitEvent>, date: int) -> int
    decreases splits.len(),
{
    if splits.len() == 0 {
        1
    } else if splits.last().date > date {
        factor_denominator(splits.drop_last(), date) * splits.last().effective_denominator()
    } else {
        factor_denominator(splits.drop_last(), date)
    }
}

/// Whether the cumulative factor for `date` can be held in two `i64`.
pub open spec fn factor_fits(splits: Seq<SplitEvent>, date: int) -> bool {
    factor_numerator(splits, date) <= i64::MAX && factor_denominator(splits, date) <= i64::MAX
}

/// `amount`, quoted on `date`, multiplied by the ratio of every split dated
/// strictly after `date`, rounded toward zero; `None` when the factor or the
/// result cannot be held.
pub open spec fn adjusted_amount(amount: int, date: int, splits: Seq<SplitEvent>) -> Option<i64> {
    if factor_fits(splits, date) {
        as_i64(
            Some(scaled(amount, factor_numerator(splits, date), factor_denominator(splits, date))),
        )
    } else {
        None
    }
}

/// `adjusted_amount` of an amount that may be absent.
pub open spec fn adjusted_field(field: Option<i64>, date: int, splits: Seq<SplitEvent>) -> Option<
    i64,
> {
    match field {
        Some(v) => adjusted_amount(v as int, date, splits),
        None => None,
    }
}

/// Whether close, open, high and low of `r` can all be adjusted.
pub open spec fn adjustable(r: PriceRecord, splits: Seq<SplitEvent>) -> bool {
    &&& adjusted_amount(r.close as int, r.date as int, splits) is Some
    &&& r.open is Some ==> adjusted_field(r.open, r.date as int, splits) is Some
    &&& r.high is Some ==> adjusted_field(r.high, r.date as int, splits) is Some
    &&& r.low is Some ==> adjusted_field(r.low, r.date as int, splits) is Some
}

/// `r` with close, open, high and low adjusted for the splits after its date.
pub open spec fn adjusted_record(r: PriceRecord, splits: Seq<SplitEvent>) -> PriceRecord {
    PriceRecord {
        close: adjusted_amount(r.close as int, r.date as int, splits).unwrap(),
        open: adjusted_field(r.open, r.date as int, splits),
        high: adjusted_field(r.high, r.date as int, splits),
        low: adjusted_field(r.low, r.date as int, splits),
        ..r
    }
}

/// Both parts of a cumulative factor are at least one.
pub proof fn lemma_factor_positive(splits: Seq<SplitEvent>, date: int)
    ensures
        factor_numerator(splits, date) >= 1,
        factor_denominator(splits, date) >= 1,
    decreases splits.len(),
{
    if splits.len() > 0 {
        lemma_factor_positive(splits.drop_last(), date);
        let a = factor_numerator(splits.drop_last(), date);
        let b = factor_denominator(splits.drop_last(), date);
        let n = splits.last().effective_numerator();
        let d = splits.last().effective_denominator();
        assert(a * n >= 1) by (nonlinear_arith)
            requires
                a >= 1,
                n >= 1,
        ;
        assert(b * d >= 1) by (nonlinear_arith)
            requires
                b >= 1,
                d >= 1,
        ;
    }
}

/// The factor of the first `k` splits never exceeds that of all of them.
pub proof fn lemma_factor_prefix(splits: Seq<SplitEvent>, date: int, k: int)
    requires
        0 <= k <= splits.len(),
    ensures
        factor_numerator(splits.take(k), date) <= factor_numerator(splits, date),
        factor_denominator(splits.take(k), date) <= factor_denominator(splits, date),
    decreases splits.len() - k,
{
    if k == splits.len() {
        assert(splits.take(k) == splits);
    } else {
        lemma_factor_prefix(splits, date, k + 1);
        assert(splits.take(k + 1).drop_last() == splits.take(k));
        lemma_factor_positive(splits.take(k), date);
        let a = factor_numerator(splits.take(k), date);
        let b = factor_denominator(splits.take(k), date);
        let n = splits[k].effective_numerator();
        let d = splits[k].effective_denominator();
        assert(a * n >= a) by (nonlinear_arith)
            requires
                a >= 1,
                n >= 1,
        ;
        assert(b * d >= b) by (nonlinear_arith)
            requires
                b >= 1,
                d >= 1,
        ;
    }
}

/// The cumulative factor for a price quoted on `date`: numerator and
/// denominator of the product of the ratios of all splits dated after it.
pub fn cumulative_factor(splits: &Vec<SplitEvent>, date: i32) -> (r: Option<(i64, i64)>)
    ensures
        match r {
            Some((n, d)) => factor_fits(splits@, date as int) && n == factor_numerator(
                splits@,
                date as int,
            ) && d == factor_denominator(splits@, date as int) && n >= 1 && d >= 1,
            None => !factor_fits(splits@, date as int),
        },
{
    let mut num: i64 = 1;
    let mut den: i64 = 1;
    let mut i: usize = 0;
    while i < splits.len()
        invariant
            i <= splits.len(),
            num == factor_numerator(splits@.take(i as int), date as int),
            den == factor_denominator(splits@.take(i as int), date as int),
            num >= 1,
            den >= 1,
        decreases splits.len() - i,
    {
        let s = splits[i];
        proof {
            assert(splits@.take(i + 1).drop_last() == splits@.take(i as int));
            lemma_factor_positive(splits@.take(i + 1), date as int);
            lemma_factor_prefix(splits@, date as int, i + 1);
        }
        if s.date > date && s.numerator >= 1 && s.denominator >= 1 {
            match (mul_div(num, s.numerator, 1), mul_div(den, s.denominator, 1)) {
                (Some(n), Some(d)) => {
                    num = n;
                    den = d;
                },
                _ => {
                    return None;
                },
            }
        }
        i += 1;
    }
    assert(splits@.take(splits.len() as int) == splits@);
    Some((num, den))
}

/// The price that was quoted on `date`, given `close` as the provider reports
/// it today: `close` multiplied by the ratio of every split after `date`.
pub fn split_unadjusted_close(close: i64, date: i32, splits: &Vec<SplitEvent>) -> (r: Option<i64>)
    ensures
        r == adjusted_amount(close as int, date as int, splits@),
{
    match cumulative_factor(splits, date) {
        Some((n, d)) => mul_div(close, n, d),
        None => None,
    }
}

/// `field` multiplied by `num / den`; the flag tells whether the result could be held.
fn adjust_field(field: Option<i64>, num: i64, den: i64) -> (r: (Option<i64>, bool))
    requires
        den >= 1,
    ensures
        r.0 == match field {
            Some(v) => as_i64(Some(scaled(v as int, num as int, den as int))),
            None => None,
        },
        r.1 == (field is Some ==> r.0 is Some),
{
    match field {
        Some(v) => {
            let adjusted = mul_div(v, num, den);
            (adjusted, adjusted.is_some())
        },
        None => (None, true),
    }
}

/// Adjusts close, open, high and low of one record for the splits after its
/// date; `None` when one of them cannot be held.
pub fn adjust_record(record: PriceRecord, splits: &Vec<SplitEvent>) -> (r: Option<PriceRecord>)
    ensures
        r == (if adjustable(record, splits@) {
            Some(adjusted_record(record, splits@))
        } else {
            None::<PriceRecord>
        }),
{
    match cumulative_factor(splits, record.date) {
        None => None,
        Some((n, d)) => {
            let close = mul_div(record.close, n, d);
            let (open, open_ok) = adjust_field(record.open, n, d);
            let (high, high_ok) = adjust_field(record.high, n, d);
            let (low, low_ok) = adjust_field(record.low, n, d);
            match close {
                Some(c) => {
                    if open_ok && high_ok && low_ok {
                        Some(
                            PriceRecord {
                                symbol: record.symbol,
                                date: record.date,
                                close: c,
                                open,
                                high,
                                low,
                                volume: record.volume,
                                adjusted_close: record.adjusted_close,
                                split_unadjusted_close: record.split_unadjusted_close,
                                source: record.source,
                            },
                        )
                    } else {
                        None
                    }
                },
                None => None,
            }
        },
    }
}

/// Forward-adjusts a price series: every record's close, open, high and low
/// are multiplied by the ratios of all splits dated after the record. The
/// order of the records is kept. `None` when a record cannot be adjusted.
pub fn forward_adjust(series: Vec<PriceRecord>, splits: &Vec<SplitEvent>) -> (r: Option<
    Vec<PriceRecord>,
>)
    ensures
        match r {
            Some(out) => out@.len() == series@.len() && forall|i: int|
                0 <= i < series@.len() ==> adjustable(#[trigger] series@[i], splits@) && out@[i]
                    == adjusted_record(series@[i], splits@),
            None => exists|i: int| 0 <= i < series@.len() && !adjustable(#[trigger] series@[i], splits@),
        },
{
    let mut out: Vec<PriceRecord> = Vec::new();
    let ghost all = series@;
    for record in it: series
        invariant
            it.seq() == all,
            out@.len() == it.index(),
            forall|i: int|
                0 <= i < it.index() ==> adjustable(#[trigger] all[i], splits@) && out@[i]
                    == adjusted_record(all[i], splits@),
    {
        match adjust_record(record, splits) {
            Some(adjusted) => {
                out.push(adjusted);
            },
            None => {
                return None;
            },
        }
    }
    Some(out)
}

/// Without splits, adjustment changes nothing: every record comes back
/// field for field.
pub proof fn law_no_splits_no_change(r: PriceRecord)
    ensures
        adjustable(r, Seq::<SplitEvent>::empty()),
        adjusted_record(r, Seq::<SplitEvent>::empty()) == r,
{
    assert(factor_fits(Seq::<SplitEvent>::empty(), r.date as int));
}

/// Without splits, a whole series comes back unchanged.
pub proof fn law_no_splits_same_series(series: Seq<PriceRecord>)
    ensures
        series.map_values(|r: PriceRecord| adjusted_record(r, Seq::<SplitEvent>::empty())) == series,
{
}

/// The factor of a single split: its ratio for a date before the split, one
/// for a date on or after it.
pub proof fn lemma_single_split_factor(split: SplitEvent, date: int)
    ensures
        factor_numerator(seq![split], date) == (if split.date > date {
            split.effective_numerator()
        } else {
            1
        }),
        factor_denominator(seq![split], date) == (if split.date > date {
            split.effective_denominator()
        } else {
            1
        }),
{
    let s = seq![split];
    assert(factor_numerator(s.drop_last(), date) == 1);
    assert(factor_denominator(s.drop_last(), date) == 1);
}

/// A single split of ratio 2:1 dated `split_date` doubles the close of every
/// record dated before it, and leaves a record dated on or after it unchanged
/// field for field. (A close whose double an `i64` cannot hold is not
/// adjusted at all.)
pub proof fn law_two_for_one_split(r: PriceRecord, split_date: i32)
    requires
        i64::MIN <= 2 * r.close <= i64::MAX,
    ensures
        r.date < split_date ==> adjusted_amount(
            r.close as int,
            r.date as int,
            seq![SplitEvent { date: split_date, numerator: 2, denominator: 1 }],
        ) == Some((2 * r.close) as i64),
        r.date >= split_date ==> adjustable(
            r,
            seq![SplitEvent { date: split_date, numerator: 2, denominator: 1 }],
        ) && adjusted_record(r, seq![SplitEvent { date: split_date, numerator: 2, denominator: 1 }])
            == r,
{
    let split = SplitEvent { date: split_date, numerator: 2, denominator: 1 };
    lemma_single_split_factor(split, r.date as int);
    if r.date < split_date {
        assert(scaled(r.close as int, 2, 1) == 2 * r.close);
    }
}

/// Reconstructing the close that was quoted is the same computation as
/// forward adjustment: for any splits, the reconstructed close of a record is
/// the close that adjustment gives it; and with a single split after the
/// record's date it is the provider's close multiplied by the split's ratio.
pub proof fn law_unadjusted_close_is_forward_adjustment(
    r: PriceRecord,
    splits: Seq<SplitEvent>,
    split: SplitEvent,
)
    ensures
        adjustable(r, splits) ==> adjusted_amount(r.close as int, r.date as int, splits) == Some(
            adjusted_record(r, splits).close,
        ),
        split.well_formed() && r.date < split.date ==> adjusted_amount(
            r.close as int,
            r.date as int,
            seq![split],
        ) == as_i64(Some(scaled(r.close as int, split.numerator as int, split.denominator as int))),
        split.well_formed() && r.date < split.date && split.denominator == 1 && i64::MIN <= r.close
            * split.numerator <= i64::MAX ==> adjusted_amount(
            r.close as int,
            r.date as int,
            seq![split],
        ) == Some((r.close * split.numerator) as i64),
{
    lemma_single_split_factor(split, r.date as int);
}

/// The ratio that a well-formed pair of parts denotes, else 1:1.
pub open spec fn ratio_or_unit(numerator: Option<i32>, denominator: Option<i32>) -> (int, int) {
    match (numerator, denominator) {
        (Some(n), Some(d)) => if n >= 1 && d >= 1 {
            (n as int, d as int)
        } else {
            (1, 1)
        },
        _ => (1, 1),
    }
}

/// The ratio that a decimal factor, in millionths, stands for: a factor above
/// one is `round(factor) : 1`, a factor between zero and one is
/// `1 : round(1 / factor)`, halves rounded up; anything else is 1:1.
pub open spec fn ratio_of_factor(factor: Option<i64>) -> (int, int) {
    match factor {
        Some(v) => if v > 1_000_000 {
            ((v + 500_000) / 1_000_000, 1)
        } else if v > 0 {
            (1, (2_000_000 + v) / (2 * v))
        } else {
            (1, 1)
        },
        None => (1, 1),
    }
}

/// The ratio that a ratio text denotes. Surrounding white space is ignored.
/// `numerator:denominator` with two whole numbers of at least one is that
/// ratio; a text without a colon is read as a decimal factor; every other text
/// is 1:1.
pub open spec fn ratio_components(text: Seq<char>) -> (int, int) {
    let t = trimmed(text);
    let colon = index_of(t, ':');
    if colon < t.len() {
        ratio_or_unit(
            as_i32(integer_value(trimmed(t.take(colon)))),
            as_i32(integer_value(trimmed(t.skip(colon + 1)))),
        )
    } else {
        ratio_of_factor(as_i64(decimal_value(t)))
    }
}

/// The ratio for a pair of parts as read from a file.
pub fn ratio_from_parts(numerator: Option<i32>, denominator: Option<i32>) -> (r: (i64, i64))
    ensures
        (r.0 as int, r.1 as int) == ratio_or_unit(numerator, denominator),
        r.0 >= 1,
        r.1 >= 1,
{
    match (numerator, denominator) {
        (Some(n), Some(d)) => {
            if n >= 1 && d >= 1 {
                (n as i64, d as i64)
            } else {
                (1, 1)
            }
        },
        _ => (1, 1),
    }
}

/// The ratio for a decimal factor given in millionths.
pub fn ratio_from_factor(factor: Option<i64>) -> (r: (i64, i64))
    ensures
        (r.0 as int, r.1 as int) == ratio_of_factor(factor),
        r.0 >= 1,
        r.1 >= 1,
{
    match factor {
        Some(v) => {
            if v > 1_000_000 {
                let wide: u64 = v as u64 + 500_000;
                ((wide / 1_000_000) as i64, 1)
            } else if v > 0 {
                let x: u64 = v as u64;
                assert(1 <= (2_000_000 + x) / (2 * x) <= 2_000_001) by (nonlinear_arith)
                    requires
                        0 < x <= 1_000_000,
                ;
                (1, ((2_000_000 + x) / (2 * x)) as i64)
            } else {
                (1, 1)
            }
        },
        None => (1, 1),
    }
}

/// Reads a split ratio from text; a text that denotes no ratio gives 1:1.
pub fn parse_ratio_components(ratio: &str) -> (r: (i64, i64))
    ensures
        (r.0 as int, r.1 as int) == ratio_components(ratio@),
        r.0 >= 1,
        r.1 >= 1,
{
    let t = trim(ratio);
    let v = chars_of(t.as_str());
    let colon = find_char(&v, ':');
    if colon < v.len() {
        let left = string_of(&v, 0, colon);
        let right = string_of(&v, colon + 1, v.len());
        let left_trimmed = trim(left.as_str());
        let right_trimmed = trim(right.as_str());
        ratio_from_parts(parse_i32(left_trimmed.as_str()), parse_i32(right_trimmed.as_str()))
    } else {
        ratio_from_factor(parse_decimal_chars(&v))
    }
}

} // verus!
