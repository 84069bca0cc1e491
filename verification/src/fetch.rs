//! The remote history fetcher: the request window for a date range, and the
//! reading of a decoded chart response into price records, dividends and
//! split events.

use crate::calendar::{
    day_end, day_of_timestamp, day_start, end_of_day, start_of_day, timestamp_day,
};
use crate::number::{append_text, i64_to_string, int_text};
use crate::order::{ascending, sort_by_key, sorted};
use crate::price::{rows_of, PriceRecord, PriceRow};
use crate::split::{adjusted_amount, split_unadjusted_close, SplitEvent};
use vstd::prelude::*;

verus! {

/// Why a fetch gave no history.
#[derive(Clone, Copy, Debug, PartialEq, Eq, Structural)]
pub enum FetchError {
    /// No request address could be made for the symbol.
    InvalidUrl,
    /// The request could not be sent or its answer could not be read.
    Transport,
    /// The provider does not serve the market of the security.
    Restricted,
    /// The answer had an empty body.
    EmptyBody,
    /// The answer did not have a success status.
    BadStatus,
    /// The body is not JSON of the expected shape.
    InvalidJson,
    /// The response holds no result.
    MissingResult,
    /// The result holds no indicators.
    MissingIndicators,
    /// The indicators hold no quote.
    MissingQuote,
}

/// One quote block of a chart response: a column per kind of price, a value
/// per timestamp. Amounts are in millionths.
#[derive(Clone, Debug, PartialEq, Eq)]
pub struct ChartQuote {
    pub open: Option<Vec<Option<i64>>>,
    pub high: Option<Vec<Option<i64>>>,
    pub low: Option<Vec<Option<i64>>>,
    pub close: Option<Vec<Option<i64>>>,
    pub volume: Option<Vec<Option<i64>>>,
}

#[derive(Clone, Debug, PartialEq, Eq)]
pub struct ChartAdjClose {
    pub adjclose: Option<Vec<Option<i64>>>,
}

#[derive(Clone, Debug, PartialEq, Eq)]
pub struct ChartIndicators {
    pub quote: Option<Vec<ChartQuote>>,
    pub adjclose: Option<Vec<ChartAdjClose>>,
}

/// A dividend as the provider reports it: a timestamp and an amount in millionths.
#[derive(Clone, Copy, Debug, PartialEq, Eq)]
pub struct ChartDividend {
    pub date: i64,
    pub amount: i64,
}

/// A split as the provider reports it: a timestamp, and both parts of the
/// ratio in millionths.
#[derive(Clone, Copy, Debug, PartialEq, Eq)]
pub struct ChartSplit {
    pub date: i64,
    pub numerator: i64,
    pub denominator: i64,
}

#[derive(Clone, Debug, PartialEq, Eq)]
pub struct ChartEvents {
    pub dividends: Option<Vec<ChartDividend>>,
    pub splits: Option<Vec<ChartSplit>>,
}

#[derive(Clone, Debug, PartialEq, Eq)]
pub struct ChartResult {
    pub timestamp: Option<Vec<i64>>,
    pub indicators: Option<ChartIndicators>,
    pub events: Option<ChartEvents>,
}

#[derive(Clone, Debug, PartialEq, Eq)]
pub struct ChartData {
    pub result: Option<Vec<ChartResult>>,
}

/// A decoded chart response.
#[derive(Clone, Debug, PartialEq, Eq)]
pub struct ChartResponse {
    pub chart: Option<ChartData>,
}

/// A dividend with its ex-date as a calendar day.
#[derive(Clone, Copy, Debug, PartialEq, Eq)]
pub struct RawDividend {
    pub ex_date: i32,
    pub amount: i64,
}

/// The columns of a quote, each empty where the response has none.
pub struct QuoteColumns {
    pub close: Vec<Option<i64>>,
    pub open: Vec<Option<i64>>,
    pub high: Vec<Option<i64>>,
    pub low: Vec<Option<i64>>,
    pub volume: Vec<Option<i64>>,
    pub adjusted_close: Vec<Option<i64>>,
}

/// The columns of a quote as sequences.
pub ghost struct Columns {
    pub close: Seq<Option<i64>>,
    pub open: Seq<Option<i64>>,
    pub high: Seq<Option<i64>>,
    pub low: Seq<Option<i64>>,
    pub volume: Seq<Option<i64>>,
    pub adjusted_close: Seq<Option<i64>>,
}

impl View for QuoteColumns {
    type V = Columns;

    open spec fn view(&self) -> Columns {
        Columns {
            close: self.close@,
            open: self.open@,
            high: self.high@,
            low: self.low@,
            volume: self.volume@,
            adjusted_close: self.adjusted_close@,
        }
    }
}

/// What a fetch yields.
pub struct FetchedHistory {
    /// One record per timestamp that falls in the requested range and has a close.
    pub records: Vec<PriceRecord>,
    /// The dividends in the requested range, newest first, one per ex-date.
    pub dividends: Vec<RawDividend>,
    /// The split events of the response, oldest first.
    pub splits: Vec<SplitEvent>,
}

/// The bounds, as Unix timestamps, of the request for the days `start..=end`:
/// from the first second of `start` to the last second of `end`, and at least
/// one second long.
pub open spec fn request_window(start: int, end: int) -> (int, int) {
    (
        day_start(start),
        if day_end(end) >= day_start(start) + 1 {
            day_end(end)
        } else {
            day_start(start) + 1
        },
    )
}

/// The request window for the days `start..=end`.
pub fn chart_window(start: i32, end: i32) -> (r: (i64, i64))
    ensures
        (r.0 as int, r.1 as int) == request_window(start as int, end as int),
{
    let first = start_of_day(start);
    let last = end_of_day(end);
    if last >= first + 1 {
        (first, last)
    } else {
        (first, first + 1)
    }
}

/// Judges an answer before its body is decoded.
pub fn check_body(status_is_success: bool, body_len: usize) -> (r: Result<(), FetchError>)
    ensures
        r == (if body_len == 0 {
            Err::<(), FetchError>(FetchError::EmptyBody)
        } else if !status_is_success {
            Err::<(), FetchError>(FetchError::BadStatus)
        } else {
            Ok::<(), FetchError>(())
        }),
{
    if body_len == 0 {
        Err(FetchError::EmptyBody)
    } else if !status_is_success {
        Err(FetchError::BadStatus)
    } else {
        Ok(())
    }
}

/// The ratio that a provider's pair of parts, in millionths, stands for:
/// whole parts are taken as whole numbers, other positive parts as they are
/// (the quotient is the same), and a pair with a part below one millionth is 1:1.
pub open spec fn provider_ratio(numerator: int, denominator: int) -> (int, int) {
    if numerator >= 1 && denominator >= 1 {
        if numerator % 1_000_000 == 0 && denominator % 1_000_000 == 0 {
            (numerator / 1_000_000, denominator / 1_000_000)
        } else {
            (numerator, denominator)
        }
    } else {
        (1, 1)
    }
}

/// The split event that a provider's split stands for, if its timestamp is a day.
pub open spec fn provider_split(s: ChartSplit) -> Option<SplitEvent> {
    match day_of_timestamp(s.date as int) {
        Some(day) => Some(
            SplitEvent {
                date: day,
                numerator: provider_ratio(s.numerator as int, s.denominator as int).0 as i64,
                denominator: provider_ratio(s.numerator as int, s.denominator as int).1 as i64,
            },
        ),
        None => None,
    }
}

/// The split events of a response, oldest first.
pub open spec fn provider_splits(raw: Seq<ChartSplit>) -> Seq<SplitEvent> {
    sorted(raw.filter_map(|s: ChartSplit| provider_split(s)))
}

/// The dividend that a provider's dividend stands for, if it falls in `start..=end`.
pub open spec fn provider_dividend(d: ChartDividend, start: int, end: int) -> Option<RawDividend> {
    match day_of_timestamp(d.date as int) {
        Some(day) => if start <= day <= end {
            Some(RawDividend { ex_date: day, amount: d.amount })
        } else {
            None
        },
        None => None,
    }
}

/// Whether `list` holds an entry with the ex-date `date`.
pub open spec fn has_ex_date(list: Seq<RawDividend>, date: int) -> bool {
    exists|k: int| 0 <= k < list.len() && (#[trigger] list[k]).ex_date == date
}

/// Whether no entry before `list[i]` has its ex-date.
pub open spec fn first_of_ex_date(list: Seq<RawDividend>, i: int) -> bool {
    forall|j: int| 0 <= j < i ==> (#[trigger] list[j]).ex_date != list[i].ex_date
}

/// Whether `e` is in `list` the first entry of its ex-date.
pub open spec fn comes_first_in(list: Seq<RawDividend>, e: RawDividend) -> bool {
    exists|i: int| 0 <= i < list.len() && #[trigger] list[i] == e && first_of_ex_date(list, i)
}

/// Whether the ex-dates of `list` strictly decrease.
pub open spec fn newest_ex_date_first(list: Seq<RawDividend>) -> bool {
    forall|i: int, j: int| 0 <= i < j < list.len() ==> list[i].ex_date > list[j].ex_date
}

/// Whether `out` is `input` collapsed by ex-date: newest first, an entry for
/// every ex-date of `input`, and each entry the first of its ex-date in `input`.
pub open spec fn is_collapsed(out: Seq<RawDividend>, input: Seq<RawDividend>) -> bool {
    &&& newest_ex_date_first(out)
    &&& forall|i: int| 0 <= i < input.len() ==> has_ex_date(out, (#[trigger] input[i]).ex_date as int)
    &&& forall|k: int| 0 <= k < out.len() ==> comes_first_in(input, #[trigger] out[k])
}

/// The value of a column at `idx`, absent beyond the column's end.
pub open spec fn value_at(column: Seq<Option<i64>>, idx: int) -> Option<i64> {
    if 0 <= idx < column.len() {
        column[idx]
    } else {
        None
    }
}

/// The record for the timestamp at `idx`: none unless the timestamp is a day
/// of `start..=end` with a close. The close that was quoted on the day is
/// reconstructed from the splits after it.
pub open spec fn row_at(
    symbol: Seq<char>,
    ts: i64,
    idx: int,
    columns: Columns,
    splits: Seq<SplitEvent>,
    start: int,
    end: int,
) -> Option<PriceRow> {
    match (day_of_timestamp(ts as int), value_at(columns.close, idx)) {
        (Some(day), Some(close)) => if start <= day <= end {
            Some(
                PriceRow {
                    symbol,
                    date: day,
                    close,
                    open: value_at(columns.open, idx),
                    high: value_at(columns.high, idx),
                    low: value_at(columns.low, idx),
                    volume: value_at(columns.volume, idx),
                    adjusted_close: value_at(columns.adjusted_close, idx),
                    split_unadjusted_close: adjusted_amount(close as int, day as int, splits),
                    source: "yahoo_finance"@,
                },
            )
        } else {
            None
        },
        _ => None,
    }
}

/// The records for the first `n` timestamps, in order.
pub open spec fn chart_rows(
    symbol: Seq<char>,
    timestamps: Seq<i64>,
    n: int,
    columns: Columns,
    splits: Seq<SplitEvent>,
    start: int,
    end: int,
) -> Seq<PriceRow>
    decreases n,
{
    if n <= 0 {
        Seq::empty()
    } else {
        let head = chart_rows(symbol, timestamps, n - 1, columns, splits, start, end);
        match row_at(symbol, timestamps[n - 1], n - 1, columns, splits, start, end) {
            Some(row) => head.push(row),
            None => head,
        }
    }
}

fn column_value(column: &Vec<Option<i64>>, idx: usize) -> (r: Option<i64>)
    ensures
        r == value_at(column@, idx as int),
{
    if idx < column.len() {
        column[idx]
    } else {
        None
    }
}

/// Reads the price records out of the columns of a quote.
pub fn chart_records(
    symbol: &str,
    timestamps: &Vec<i64>,
    columns: &QuoteColumns,
    splits: &Vec<SplitEvent>,
    start: i32,
    end: i32,
) -> (r: Vec<PriceRecord>)
    ensures
        rows_of(r@) == chart_rows(
            symbol@,
            timestamps@,
            timestamps@.len() as int,
            columns@,
            splits@,
            start as int,
            end as int,
        ),
{
    let mut out: Vec<PriceRecord> = Vec::new();
    let mut idx: usize = 0;
    while idx < timestamps.len()
        invariant
            idx <= timestamps.len(),
            rows_of(out@) == chart_rows(
                symbol@,
                timestamps@,
                idx as int,
                columns@,
                splits@,
                start as int,
                end as int,
            ),
        decreases timestamps.len() - idx,
    {
        let ts = timestamps[idx];
        match (timestamp_day(ts), column_value(&columns.close, idx)) {
            (Some(day), Some(close)) => {
                if start <= day && day <= end {
                    let record = PriceRecord {
                        symbol: symbol.to_owned(),
                        date: day,
                        close,
                        open: column_value(&columns.open, idx),
                        high: column_value(&columns.high, idx),
                        low: column_value(&columns.low, idx),
                        volume: column_value(&columns.volume, idx),
                        adjusted_close: column_value(&columns.adjusted_close, idx),
                        split_unadjusted_close: split_unadjusted_close(close, day, splits),
                        source: "yahoo_finance".to_owned(),
                    };
                    out.push(record);
                }
            },
            _ => {},
        }
        idx += 1;
    }
    out
}

/// The ratio for a provider's pair of parts.
pub fn ratio_from_provider(numerator: i64, denominator: i64) -> (r: (i64, i64))
    ensures
        (r.0 as int, r.1 as int) == provider_ratio(numerator as int, denominator as int),
        r.0 >= 1,
        r.1 >= 1,
{
    if numerator >= 1 && denominator >= 1 {
        let n: u64 = numerator as u64;
        let d: u64 = denominator as u64;
        if n % 1_000_000 == 0 && d % 1_000_000 == 0 {
            ((n / 1_000_000) as i64, (d / 1_000_000) as i64)
        } else {
            (numerator, denominator)
        }
    } else {
        (1, 1)
    }
}

/// The split events of a response, oldest first; events of one day keep
/// their order.
pub fn chart_splits(raw: &Vec<ChartSplit>) -> (r: Vec<SplitEvent>)
    ensures
        r@ == provider_splits(raw@),
        ascending(r@),
{
    let mut events: Vec<SplitEvent> = Vec::new();
    let ghost read = |s: ChartSplit| provider_split(s);
    let mut i: usize = 0;
    while i < raw.len()
        invariant
            i <= raw.len(),
            read == (|s: ChartSplit| provider_split(s)),
            events@ == raw@.take(i as int).filter_map(read),
        decreases raw.len() - i,
    {
        let s = raw[i];
        proof {
            assert(raw@.take(i + 1).drop_last() == raw@.take(i as int));
        }
        match timestamp_day(s.date) {
            Some(day) => {
                let ratio = ratio_from_provider(s.numerator, s.denominator);
                let e = SplitEvent { date: day, numerator: ratio.0, denominator: ratio.1 };
                events.push(e);
            },
            None => {},
        }
        i += 1;
    }
    assert(raw@.take(raw.len() as int) == raw@);
    sort_by_key(events)
}

/// Collapses a list of dividends by ex-date: newest first, and of several
/// entries of one ex-date only the first.
pub fn collapse_dividends(input: &Vec<RawDividend>) -> (out: Vec<RawDividend>)
    ensures
        is_collapsed(out@, input@),
{
    let mut out: Vec<RawDividend> = Vec::new();
    let mut i: usize = 0;
    while i < input.len()
        invariant
            i <= input.len(),
            is_collapsed(out@, input@.take(i as int)),
        decreases input.len() - i,
    {
        let d = input[i];
        let ghost before = out@;
        let ghost seen = input@.take(i as int);
        let ghost next = input@.take(i + 1);
        let n = out.len();
        let mut p: usize = 0;
        while p < n && out[p].ex_date > d.ex_date
            invariant
                p <= n == out.len(),
                out@ == before,
                forall|j: int| 0 <= j < p ==> (#[trigger] out@[j]).ex_date > d.ex_date,
            decreases n - p,
        {
            p += 1;
        }
        if p < n && out[p].ex_date == d.ex_date {
            proof {
                assert forall|k: int| 0 <= k < before.len() implies comes_first_in(
                    next,
                    #[trigger] before[k],
                ) by {
                    let w = choose|w: int|
                        0 <= w < seen.len() && #[trigger] seen[w] == before[k] && first_of_ex_date(
                            seen,
                            w,
                        );
                    assert(next[w] == before[k]);
                }
            }
        } else {
            out.insert(p, d);
            proof {
                let after = out@;
                assert forall|k: int| 0 <= k < next.len() implies has_ex_date(
                    after,
                    (#[trigger] next[k]).ex_date as int,
                ) by {
                    if k < i {
                        let w = choose|w: int|
                            0 <= w < before.len() && (#[trigger] before[w]).ex_date
                                == seen[k].ex_date;
                        let w2 = if w < p { w } else { w + 1 };
                        assert(after[w2] == before[w]);
                    } else {
                        assert(after[p as int] == d);
                    }
                }
                assert forall|k: int| 0 <= k < after.len() implies comes_first_in(
                    next,
                    #[trigger] after[k],
                ) by {
                    if k == p {
                        assert forall|j: int| 0 <= j < i implies (#[trigger] next[j]).ex_date
                            != next[i as int].ex_date by {
                        }
                    } else {
                        let x = if k < p { k } else { k - 1 };
                        let w = choose|w: int|
                            0 <= w < seen.len() && #[trigger] seen[w] == before[x]
                                && first_of_ex_date(seen, w);
                        assert forall|j: int| 0 <= j < w implies (#[trigger] next[j]).ex_date
                            != next[w].ex_date by {
                        }
                    }
                }
            }
        }
        i += 1;
    }
    assert(input@.take(input.len() as int) == input@);
    out
}

/// The dividends of a response that fall in `start..=end`, in response order.
pub open spec fn dividends_in_range(raw: Seq<ChartDividend>, start: int, end: int) -> Seq<
    RawDividend,
> {
    raw.filter_map(|d: ChartDividend| provider_dividend(d, start, end))
}

/// The dividends of a response that fall in `start..=end`, newest first and
/// one per ex-date.
pub fn chart_dividends(raw: &Vec<ChartDividend>, start: i32, end: i32) -> (r: Vec<RawDividend>)
    ensures
        is_collapsed(r@, dividends_in_range(raw@, start as int, end as int)),
{
    let mut kept: Vec<RawDividend> = Vec::new();
    let ghost read = |d: ChartDividend| provider_dividend(d, start as int, end as int);
    let mut i: usize = 0;
    while i < raw.len()
        invariant
            i <= raw.len(),
            read == (|d: ChartDividend| provider_dividend(d, start as int, end as int)),
            kept@ == raw@.take(i as int).filter_map(read),
        decreases raw.len() - i,
    {
        let d = raw[i];
        proof {
            assert(raw@.take(i + 1).drop_last() == raw@.take(i as int));
        }
        match timestamp_day(d.date) {
            Some(day) => {
                if start <= day && day <= end {
                    let e = RawDividend { ex_date: day, amount: d.amount };
                    kept.push(e);
                }
            },
            None => {},
        }
        i += 1;
    }
    assert(raw@.take(raw.len() as int) == raw@);
    collapse_dividends(&kept)
}

/// The column, or an empty one where the response has none.
pub open spec fn column_or_empty(column: Option<Vec<Option<i64>>>) -> Seq<Option<i64>> {
    match column {
        Some(v) => v@,
        None => Seq::empty(),
    }
}

/// The result that counts: the last one of the response.
pub open spec fn last_result(response: ChartResponse) -> Option<ChartResult> {
    match response.chart {
        Some(ChartData { result: Some(results) }) => if results@.len() > 0 {
            Some(results@.last())
        } else {
            None
        },
        _ => None,
    }
}

/// The quote that counts: the last one of the indicators.
pub open spec fn last_quote(indicators: ChartIndicators) -> Option<ChartQuote> {
    match indicators.quote {
        Some(quotes) => if quotes@.len() > 0 {
            Some(quotes@.last())
        } else {
            None
        },
        None => None,
    }
}

/// The adjusted closes that count: those of the last block, if any.
pub open spec fn last_adjusted_closes(indicators: ChartIndicators) -> Seq<Option<i64>> {
    match indicators.adjclose {
        Some(blocks) => if blocks@.len() > 0 {
            column_or_empty(blocks@.last().adjclose)
        } else {
            Seq::empty()
        },
        None => Seq::empty(),
    }
}

/// The columns that a response's indicators hold.
pub open spec fn columns_of(indicators: ChartIndicators) -> Columns {
    let quote = last_quote(indicators).unwrap();
    Columns {
        close: column_or_empty(quote.close),
        open: column_or_empty(quote.open),
        high: column_or_empty(quote.high),
        low: column_or_empty(quote.low),
        volume: column_or_empty(quote.volume),
        adjusted_close: last_adjusted_closes(indicators),
    }
}

/// The timestamps of a result.
pub open spec fn timestamps_of(result: ChartResult) -> Seq<i64> {
    match result.timestamp {
        Some(v) => v@,
        None => Seq::empty(),
    }
}

/// The splits that a result reports.
pub open spec fn raw_splits(result: ChartResult) -> Seq<ChartSplit> {
    match result.events {
        Some(ChartEvents { splits: Some(v), .. }) => v@,
        _ => Seq::empty(),
    }
}

/// The dividends that a result reports.
pub open spec fn raw_dividends(result: ChartResult) -> Seq<ChartDividend> {
    match result.events {
        Some(ChartEvents { dividends: Some(v), .. }) => v@,
        _ => Seq::empty(),
    }
}

/// The part of the expected shape that a response lacks, if any.
pub open spec fn missing_piece(response: ChartResponse) -> Option<FetchError> {
    match last_result(response) {
        None => Some(FetchError::MissingResult),
        Some(result) => match result.indicators {
            None => Some(FetchError::MissingIndicators),
            Some(indicators) => if last_quote(indicators) is None {
                Some(FetchError::MissingQuote)
            } else {
                None
            },
        },
    }
}

/// Whether `history` is what a complete `response` yields for `symbol` and
/// the days `start..=end`.
pub open spec fn is_history_of(
    history: FetchedHistory,
    response: ChartResponse,
    symbol: Seq<char>,
    start: int,
    end: int,
) -> bool {
    let result = last_result(response).unwrap();
    let timestamps = timestamps_of(result);
    &&& history.splits@ == provider_splits(raw_splits(result))
    &&& rows_of(history.records@) == chart_rows(
        symbol,
        timestamps,
        timestamps.len() as int,
        columns_of(result.indicators.unwrap()),
        history.splits@,
        start,
        end,
    )
    &&& is_collapsed(history.dividends@, dividends_in_range(raw_dividends(result), start, end))
}

fn take_column(column: Option<Vec<Option<i64>>>) -> (r: Vec<Option<i64>>)
    ensures
        r@ == column_or_empty(column),
{
    match column {
        Some(v) => v,
        None => Vec::new(),
    }
}

/// Reads a decoded chart response: the price records of the days
/// `start..=end`, labelled with `symbol`, the dividends of those days, and the
/// split events. A response without result, indicators or quote is an error.
pub fn extract_history(response: ChartResponse, symbol: &str, start: i32, end: i32) -> (r: Result<
    FetchedHistory,
    FetchError,
>)
    ensures
        match r {
            Ok(history) => missing_piece(response) is None && is_history_of(
                history,
                response,
                symbol@,
                start as int,
                end as int,
            ),
            Err(e) => missing_piece(response) == Some(e),
        },
{
    let mut results = match response.chart {
        Some(ChartData { result: Some(results) }) => results,
        _ => {
            return Err(FetchError::MissingResult);
        },
    };
    let result = match results.pop() {
        Some(result) => result,
        None => {
            return Err(FetchError::MissingResult);
        },
    };
    let timestamps = match result.timestamp {
        Some(v) => v,
        None => Vec::new(),
    };
    let (splits, dividends) = match result.events {
        Some(events) => {
            let splits = match events.splits {
                Some(v) => chart_splits(&v),
                None => chart_splits(&Vec::new()),
            };
            let dividends = match events.dividends {
                Some(v) => chart_dividends(&v, start, end),
                None => chart_dividends(&Vec::new(), start, end),
            };
            (splits, dividends)
        },
        None => (chart_splits(&Vec::new()), chart_dividends(&Vec::new(), start, end)),
    };
    let indicators = match result.indicators {
        Some(indicators) => indicators,
        None => {
            return Err(FetchError::MissingIndicators);
        },
    };
    let mut quotes = match indicators.quote {
        Some(quotes) => quotes,
        None => {
            return Err(FetchError::MissingQuote);
        },
    };
    let quote = match quotes.pop() {
        Some(quote) => quote,
        None => {
            return Err(FetchError::MissingQuote);
        },
    };
    let adjusted_close = match indicators.adjclose {
        Some(mut blocks) => match blocks.pop() {
            Some(block) => take_column(block.adjclose),
            None => Vec::new(),
        },
        None => Vec::new(),
    };
    let columns = QuoteColumns {
        close: take_column(quote.close),
        open: take_column(quote.open),
        high: take_column(quote.high),
        low: take_column(quote.low),
        volume: take_column(quote.volume),
        adjusted_close,
    };
    let records = chart_records(symbol, &timestamps, &columns, &splits, start, end);
    Ok(FetchedHistory { records, dividends, splits })
}

/// Longest input, in characters, that is handed to the address builder.
pub const MAX_URL_INPUT: usize = 65_536;

/// The address that the `url` crate makes of the address `base` and one more
/// query pair; none where `base` is no absolute address.
pub uninterp spec fn url_with_pair(base: Seq<char>, name: Seq<char>, value: Seq<char>) -> Option<
    Seq<char>,
>;

/// `url::Url::parse`, then `query_pairs_mut` with one `append_pair`, then the
/// address as text: the outcome depends on the three texts alone and is named
/// `url_with_pair`. Inputs are kept short, far below the length at which the
/// crate gives up.
#[verifier::external_body]
fn append_query_pair(base: &str, name: &str, value: &str) -> (r: Option<String>)
    requires
        base@.len() + name@.len() + value@.len() <= MAX_URL_INPUT,
    ensures
        match r {
            Some(s) => url_with_pair(base@, name@, value@) == Some(s@),
            None => url_with_pair(base@, name@, value@) is None,
        },
{
    let mut url = url::Url::parse(base).ok()?;
    url.query_pairs_mut().append_pair(name, value);
    Some(String::from(url))
}

/// One more query pair on an address that may have failed already; an address
/// too long to be handed on fails.
pub open spec fn with_pair(address: Option<Seq<char>>, name: Seq<char>, value: Seq<char>) -> Option<
    Seq<char>,
> {
    match address {
        Some(a) => if a.len() + name.len() + value.len() <= MAX_URL_INPUT {
            url_with_pair(a, name, value)
        } else {
            None
        },
        None => None,
    }
}

/// The address of the chart request for `symbol` and the days `start..=end`:
/// the chart endpoint for the symbol, with the bounds of the request window,
/// the daily interval, dividend and split events, and the adjusted close.
pub open spec fn chart_address(symbol: Seq<char>, start: int, end: int) -> Option<Seq<char>> {
    with_pair(
        with_pair(
            with_pair(
                with_pair(
                    with_pair(
                        Some("https://query1.finance.yahoo.com/v8/finance/chart/"@ + symbol),
                        "period1"@,
                        int_text(request_window(start, end).0),
                    ),
                    "period2"@,
                    int_text(request_window(start, end).1),
                ),
                "interval"@,
                "1d"@,
            ),
            "events"@,
            "div,splits"@,
        ),
        "includeAdjustedClose"@,
        "true"@,
    )
}

/// Appends one query pair to an address that may have failed already.
fn add_pair(address: Option<String>, name: &str, value: &str) -> (r: Option<String>)
    ensures
        match r {
            Some(s) => with_pair(
                match address {
                    Some(a) => Some(a@),
                    None => None,
                },
                name@,
                value@,
            ) == Some(s@),
            None => with_pair(
                match address {
                    Some(a) => Some(a@),
                    None => None,
                },
                name@,
                value@,
            ) is None,
        },
{
    match address {
        None => None,
        Some(a) => {
            let la = a.as_str().unicode_len();
            let ln = name.unicode_len();
            let lv = value.unicode_len();
            if la <= MAX_URL_INPUT && ln <= MAX_URL_INPUT && lv <= MAX_URL_INPUT && la + ln + lv
                <= MAX_URL_INPUT {
                append_query_pair(a.as_str(), name, value)
            } else {
                None
            }
        },
    }
}

/// The address of the chart request for `symbol` and the days `start..=end`;
/// `None` where no address can be made.
pub fn chart_url(symbol: &str, start: i32, end: i32) -> (r: Option<String>)
    ensures
        match r {
            Some(s) => chart_address(symbol@, start as int, end as int) == Some(s@),
            None => chart_address(symbol@, start as int, end as int) is None,
        },
{
    let (period1, period2) = chart_window(start, end);
    let mut base = String::new();
    append_text(&mut base, "https://query1.finance.yahoo.com/v8/finance/chart/");
    append_text(&mut base, symbol);
    let p1 = i64_to_string(period1);
    let p2 = i64_to_string(period2);
    let a1 = add_pair(Some(base), "period1", p1.as_str());
    let a2 = add_pair(a1, "period2", p2.as_str());
    let a3 = add_pair(a2, "interval", "1d");
    let a4 = add_pair(a3, "events", "div,splits");
    add_pair(a4, "includeAdjustedClose", "true")
}

} // verus!
