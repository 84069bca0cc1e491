//! The coverage report and the readiness statistics of a portfolio.

use crate::actions::SplitRecord;
use crate::calendar::{parse_date, parsed_iso_date};
use crate::coverage::{completeness, completeness_of, Completeness, CoverageStatus};
use crate::position::Transaction;
use crate::price::{is_newest_date, is_oldest_date, PriceRecord, PriceSeries};
use crate::store::{series_of, PriceStore};
use crate::symbol::{get_exchange_and_symbol, resolved};
use crate::text::{same_text, trim, trimmed};
use vstd::prelude::*;

verus! {

/// A symbol of the portfolio with what its transactions say of it.
#[derive(Clone, Debug, PartialEq, Eq)]
pub struct TrackedSymbol {
    pub ticker: String,
    pub exchange: String,
    pub currency: String,
    pub earliest_transaction: i32,
}

/// What a tracked symbol holds, with its texts as character sequences.
pub ghost struct TrackedRow {
    pub ticker: Seq<char>,
    pub exchange: Seq<char>,
    pub currency: Seq<char>,
    pub earliest_transaction: i32,
}

impl View for TrackedSymbol {
    type V = TrackedRow;

    open spec fn view(&self) -> TrackedRow {
        TrackedRow {
            ticker: self.ticker@,
            exchange: self.exchange@,
            currency: self.currency@,
            earliest_transaction: self.earliest_transaction,
        }
    }
}

/// The rows of a list of tracked symbols.
pub open spec fn tracked_rows(list: Seq<TrackedSymbol>) -> Seq<TrackedRow> {
    list.map_values(|t: TrackedSymbol| t@)
}

/// The split rows stored for one symbol.
#[derive(Clone, Debug, PartialEq, Eq)]
pub struct SymbolSplits {
    pub symbol: String,
    pub records: Vec<SplitRecord>,
}

/// One entry of the coverage report.
#[derive(Clone, Debug, PartialEq, Eq)]
pub struct CoverageRecord {
    pub ticker: String,
    pub exchange: String,
    pub currency: String,
    pub earliest_transaction: i32,
    pub earliest_price: Option<i32>,
    pub latest_price: Option<i32>,
    pub total_days: u64,
    pub missing_days: u64,
    /// In millionths of a percent.
    pub coverage_percent: i64,
    pub split_count: usize,
    pub last_split: Option<i32>,
    pub status: CoverageStatus,
}

/// What a coverage record holds, with its texts as character sequences.
pub ghost struct CoverageRow {
    pub symbol: TrackedRow,
    pub earliest_price: Option<i32>,
    pub latest_price: Option<i32>,
    pub completeness: Completeness,
    pub split_count: usize,
    pub last_split: Option<i32>,
}

impl View for CoverageRecord {
    type V = CoverageRow;

    open spec fn view(&self) -> CoverageRow {
        CoverageRow {
            symbol: TrackedRow {
                ticker: self.ticker@,
                exchange: self.exchange@,
                currency: self.currency@,
                earliest_transaction: self.earliest_transaction,
            },
            earliest_price: self.earliest_price,
            latest_price: self.latest_price,
            completeness: Completeness {
                total_days: self.total_days,
                missing_days: self.missing_days,
                coverage_percent: self.coverage_percent,
                status: self.status,
            },
            split_count: self.split_count,
            last_split: self.last_split,
        }
    }
}

/// The date of a transaction that counts for the report: its stock is not
/// blank, its date can be read, and the date is `window_start` or later.
pub open spec fn counted_date(t: Transaction, window_start: int) -> Option<i32> {
    if trimmed(t.stock@).len() == 0 {
        None
    } else {
        match parsed_iso_date(trimmed(t.date@)) {
            Some(d) => if d >= window_start {
                Some(d as i32)
            } else {
                None
            },
            None => None,
        }
    }
}

/// The exchange shown for a ticker: the one it names, else `UNKNOWN`.
pub open spec fn exchange_label(stock: Seq<char>) -> Seq<char> {
    match resolved(stock).0 {
        Some(e) => e,
        None => "UNKNOWN"@,
    }
}

/// Place of the first row for `ticker`, or the number of rows where there is none.
pub open spec fn first_row(rows: Seq<TrackedRow>, ticker: Seq<char>) -> int
    decreases rows.len(),
{
    if rows.len() == 0 || rows[0].ticker == ticker {
        0
    } else {
        1 + first_row(rows.drop_first(), ticker)
    }
}

/// The rows after one more transaction: a transaction that counts either
/// opens the row of its stock, with its currency, or lowers the earliest
/// transaction date of that row to its own.
pub open spec fn tracked_step(rows: Seq<TrackedRow>, t: Transaction, window_start: int) -> Seq<
    TrackedRow,
> {
    match counted_date(t, window_start) {
        None => rows,
        Some(d) => {
            let k = first_row(rows, t.stock@);
            if 0 <= k < rows.len() {
                if d < rows[k].earliest_transaction {
                    rows.update(k, TrackedRow { earliest_transaction: d, ..rows[k] })
                } else {
                    rows
                }
            } else {
                rows.push(
                    TrackedRow {
                        ticker: t.stock@,
                        exchange: exchange_label(t.stock@),
                        currency: t.currency@,
                        earliest_transaction: d,
                    },
                )
            }
        },
    }
}

/// The symbols that the transactions speak of, in the order of their first
/// transaction that counts, each with its exchange, the currency of that first
/// transaction, and the earliest date of its transactions that count.
pub open spec fn tracked_of(transactions: Seq<Transaction>, window_start: int) -> Seq<TrackedRow>
    decreases transactions.len(),
{
    if transactions.len() == 0 {
        Seq::empty()
    } else {
        tracked_step(
            tracked_of(transactions.drop_last(), window_start),
            transactions.last(),
            window_start,
        )
    }
}

proof fn lemma_first_row(rows: Seq<TrackedRow>, ticker: Seq<char>, k: int)
    requires
        0 <= k <= rows.len(),
        forall|j: int| 0 <= j < k ==> (#[trigger] rows[j]).ticker != ticker,
        k == rows.len() || rows[k].ticker == ticker,
    ensures
        first_row(rows, ticker) == k,
    decreases rows.len(),
{
    if rows.len() == 0 || rows[0].ticker == ticker {
    } else {
        let rest = rows.drop_first();
        lemma_first_row(rest, ticker, k - 1);
    }
}

/// The date of a transaction that counts for the report.
pub fn transaction_date_in_window(t: &Transaction, window_start: i32) -> (r: Option<i32>)
    ensures
        r == counted_date(*t, window_start as int),
{
    let stock = trim(t.stock.as_str());
    if stock.as_str().unicode_len() == 0 {
        return None;
    }
    match parse_date(t.date.as_str()) {
        Some(d) => {
            if d >= window_start {
                Some(d)
            } else {
                None
            }
        },
        None => None,
    }
}

/// The symbols that the transactions dated `window_start` or later speak of.
pub fn tracked_symbols(transactions: &Vec<Transaction>, window_start: i32) -> (r: Vec<
    TrackedSymbol,
>)
    ensures
        tracked_rows(r@) == tracked_of(transactions@, window_start as int),
{
    let mut out: Vec<TrackedSymbol> = Vec::new();
    let mut i: usize = 0;
    while i < transactions.len()
        invariant
            i <= transactions.len(),
            tracked_rows(out@) == tracked_of(transactions@.take(i as int), window_start as int),
        decreases transactions.len() - i,
    {
        let t = &transactions[i];
        proof {
            assert(transactions@.take(i + 1).drop_last() == transactions@.take(i as int));
        }
        match transaction_date_in_window(t, window_start) {
            None => {},
            Some(d) => {
                let ghost rows = tracked_rows(out@);
                let mut k: usize = 0;
                while k < out.len() && !same_text(out[k].ticker.as_str(), t.stock.as_str())
                    invariant
                        k <= out.len(),
                        rows == tracked_rows(out@),
                        forall|j: int| 0 <= j < k ==> (#[trigger] rows[j]).ticker != t.stock@,
                    decreases out.len() - k,
                {
                    k += 1;
                }
                proof {
                    lemma_first_row(rows, t.stock@, k as int);
                }
                if k < out.len() {
                    if d < out[k].earliest_transaction {
                        let old = out.remove(k);
                        let updated = TrackedSymbol {
                            ticker: old.ticker,
                            exchange: old.exchange,
                            currency: old.currency,
                            earliest_transaction: d,
                        };
                        out.insert(k, updated);
                    }
                } else {
                    let (exchange, _) = get_exchange_and_symbol(t.stock.as_str());
                    let label = match exchange {
                        Some(e) => e,
                        None => "UNKNOWN".to_owned(),
                    };
                    let entry = TrackedSymbol {
                        ticker: t.stock.clone(),
                        exchange: label,
                        currency: t.currency.clone(),
                        earliest_transaction: d,
                    };
                    out.push(entry);
                }
            },
        }
        i += 1;
    }
    assert(transactions@.take(transactions.len() as int) == transactions@);
    out
}

/// The newest date among `records`.
pub open spec fn latest_split(records: Seq<SplitRecord>) -> Option<i32>
    decreases records.len(),
{
    if records.len() == 0 {
        None
    } else {
        match latest_split(records.drop_last()) {
            Some(d) => if d >= records.last().date {
                Some(d)
            } else {
                Some(records.last().date)
            },
            None => Some(records.last().date),
        }
    }
}

/// Place of the first split list for `ticker`, or the number of lists where
/// there is none.
pub open spec fn first_splits(splits: Seq<SymbolSplits>, ticker: Seq<char>) -> int
    decreases splits.len(),
{
    if splits.len() == 0 || splits[0].symbol@ == ticker {
        0
    } else {
        1 + first_splits(splits.drop_first(), ticker)
    }
}

/// Number of splits stored for `ticker`.
pub open spec fn split_count_of(splits: Seq<SymbolSplits>, ticker: Seq<char>) -> usize {
    let k = first_splits(splits, ticker);
    if 0 <= k < splits.len() {
        splits[k].records@.len() as usize
    } else {
        0
    }
}

/// Date of the newest split stored for `ticker`.
pub open spec fn last_split_of(splits: Seq<SymbolSplits>, ticker: Seq<char>) -> Option<i32> {
    let k = first_splits(splits, ticker);
    if 0 <= k < splits.len() {
        latest_split(splits[k].records@)
    } else {
        None
    }
}

/// The coverage shown for a symbol with the prices `series`. Where
/// completeness is asked for, it is that of the price dates over the window;
/// else a symbol with a price counts as complete, and one without as missing.
pub open spec fn shown_completeness(
    series: Map<int, PriceRecord>,
    window_start: int,
    today: int,
    include_completeness: bool,
) -> Completeness {
    if include_completeness {
        completeness_of(series.dom(), window_start, today)
    } else if series.dom() =~= Set::<int>::empty() {
        Completeness {
            total_days: 0,
            missing_days: 0,
            coverage_percent: 0,
            status: CoverageStatus::Missing,
        }
    } else {
        Completeness {
            total_days: 0,
            missing_days: 0,
            coverage_percent: 100_000_000,
            status: CoverageStatus::Complete,
        }
    }
}

/// Whether `row` is the report entry of `symbol`.
pub open spec fn is_coverage_of(
    row: CoverageRow,
    symbol: TrackedRow,
    store: Map<Seq<char>, Map<int, PriceRecord>>,
    splits: Seq<SymbolSplits>,
    window_start: int,
    today: int,
    include_completeness: bool,
) -> bool {
    let series = series_of(store, symbol.ticker);
    &&& row.symbol == symbol
    &&& is_oldest_date(series, row.earliest_price)
    &&& is_newest_date(series, row.latest_price)
    &&& row.completeness == shown_completeness(series, window_start, today, include_completeness)
    &&& row.split_count == split_count_of(splits, symbol.ticker)
    &&& row.last_split == last_split_of(splits, symbol.ticker)
}

proof fn lemma_first_splits(splits: Seq<SymbolSplits>, ticker: Seq<char>, k: int)
    requires
        0 <= k <= splits.len(),
        forall|j: int| 0 <= j < k ==> (#[trigger] splits[j]).symbol@ != ticker,
        k == splits.len() || splits[k].symbol@ == ticker,
    ensures
        first_splits(splits, ticker) == k,
    decreases splits.len(),
{
    if splits.len() == 0 || splits[0].symbol@ == ticker {
    } else {
        let rest = splits.drop_first();
        lemma_first_splits(rest, ticker, k - 1);
    }
}

/// The date of the newest of `records`.
pub fn newest_split_date(records: &Vec<SplitRecord>) -> (r: Option<i32>)
    ensures
        r == latest_split(records@),
{
    let mut best: Option<i32> = None;
    let mut i: usize = 0;
    while i < records.len()
        invariant
            i <= records.len(),
            best == latest_split(records@.take(i as int)),
        decreases records.len() - i,
    {
        assert(records@.take(i + 1).drop_last() == records@.take(i as int));
        let d = records[i].date;
        best = match best {
            Some(b) => if b >= d {
                Some(b)
            } else {
                Some(d)
            },
            None => Some(d),
        };
        i += 1;
    }
    assert(records@.take(records.len() as int) == records@);
    best
}

/// Number and newest date of the splits stored for `ticker`.
pub fn split_summary(splits: &Vec<SymbolSplits>, ticker: &str) -> (r: (usize, Option<i32>))
    ensures
        r.0 == split_count_of(splits@, ticker@),
        r.1 == last_split_of(splits@, ticker@),
{
    let mut k: usize = 0;
    while k < splits.len() && !same_text(splits[k].symbol.as_str(), ticker)
        invariant
            k <= splits.len(),
            forall|j: int| 0 <= j < k ==> (#[trigger] splits@[j]).symbol@ != ticker@,
        decreases splits.len() - k,
    {
        k += 1;
    }
    proof {
        lemma_first_splits(splits@, ticker@, k as int);
    }
    if k < splits.len() {
        (splits[k].records.len(), newest_split_date(&splits[k].records))
    } else {
        (0, None)
    }
}

/// The coverage shown for a symbol with the prices of `series`.
pub fn coverage_of_series(
    series: &PriceSeries,
    window_start: i32,
    today: i32,
    include_completeness: bool,
) -> (r: Completeness)
    ensures
        r == shown_completeness(series@, window_start as int, today as int, include_completeness),
{
    if include_completeness {
        completeness(series, window_start, today)
    } else {
        match series.latest_date() {
            Some(_) => Completeness {
                total_days: 0,
                missing_days: 0,
                coverage_percent: 100_000_000,
                status: CoverageStatus::Complete,
            },
            None => Completeness {
                total_days: 0,
                missing_days: 0,
                coverage_percent: 0,
                status: CoverageStatus::Missing,
            },
        }
    }
}

/// The coverage report: one entry for every symbol that the transactions
/// dated `window_start` or later speak of, in the order of `tracked_of`, with
/// the oldest and newest stored price date, the coverage of the weekdays of
/// `window_start..=today`, and the number and newest date of its splits.
pub fn get_data_coverage(
    transactions: &Vec<Transaction>,
    store: &PriceStore,
    splits: &Vec<SymbolSplits>,
    window_start: i32,
    today: i32,
    include_completeness: bool,
) -> (r: Vec<CoverageRecord>)
    ensures
        r@.len() == tracked_of(transactions@, window_start as int).len(),
        forall|i: int|
            0 <= i < r@.len() ==> is_coverage_of(
                (#[trigger] r@[i])@,
                tracked_of(transactions@, window_start as int)[i],
                store@,
                splits@,
                window_start as int,
                today as int,
                include_completeness,
            ),
{
    let symbols = tracked_symbols(transactions, window_start);
    let ghost rows = tracked_of(transactions@, window_start as int);
    let mut out: Vec<CoverageRecord> = Vec::new();
    let empty = PriceSeries::new();
    for symbol in it: symbols
        invariant
            rows == tracked_of(transactions@, window_start as int),
            tracked_rows(it.seq()) == rows,
            it.seq().len() == rows.len(),
            empty@ == Map::<int, PriceRecord>::empty(),
            out@.len() == it.index(),
            forall|i: int|
                0 <= i < out@.len() ==> is_coverage_of(
                    (#[trigger] out@[i])@,
                    rows[i],
                    store@,
                    splits@,
                    window_start as int,
                    today as int,
                    include_completeness,
                ),
    {
        let series = match store.get(symbol.ticker.as_str()) {
            Some(series) => series,
            None => &empty,
        };
        let shown = coverage_of_series(series, window_start, today, include_completeness);
        let (split_count, last_split) = split_summary(splits, symbol.ticker.as_str());
        let record = CoverageRecord {
            earliest_price: series.earliest_date(),
            latest_price: series.latest_date(),
            ticker: symbol.ticker,
            exchange: symbol.exchange,
            currency: symbol.currency,
            earliest_transaction: symbol.earliest_transaction,
            total_days: shown.total_days,
            missing_days: shown.missing_days,
            coverage_percent: shown.coverage_percent,
            split_count,
            last_split,
            status: shown.status,
        };
        out.push(record);
    }
    out
}

/// The readiness of the stored data at a glance.
#[derive(Clone, Copy, Debug, PartialEq, Eq)]
pub struct DataReadinessStats {
    /// Number of different stocks named by the transactions.
    pub total_stocks: usize,
    /// Number of report entries with complete coverage.
    pub complete_data: usize,
    /// Number of report entries with partial coverage.
    pub partial_data: usize,
    /// Number of report entries with missing coverage.
    pub missing_data: usize,
    /// Number of stored price records.
    pub total_price_records: u128,
    /// Oldest stored price date.
    pub oldest_date: Option<i32>,
    /// Newest stored price date.
    pub newest_date: Option<i32>,
}

/// Whether some transaction names the stock `s`.
pub open spec fn names_stock(transactions: Seq<Transaction>, s: Seq<char>) -> bool {
    exists|i: int| 0 <= i < transactions.len() && (#[trigger] transactions[i]).stock@ == s
}

/// The stocks that the transactions name.
pub open spec fn stock_set(transactions: Seq<Transaction>) -> Set<Seq<char>> {
    Set::new(|s: Seq<char>| names_stock(transactions, s))
}

/// The test for a report entry with the given status.
pub open spec fn has_status(status: CoverageStatus) -> spec_fn(CoverageRecord) -> bool {
    |c: CoverageRecord| c.status == status
}

/// Number of different stocks that the transactions name.
pub fn distinct_stocks(transactions: &Vec<Transaction>) -> (n: usize)
    ensures
        stock_set(transactions@).finite(),
        n == stock_set(transactions@).len(),
{
    let mut seen: Vec<String> = Vec::new();
    let ghost mut names: Seq<Seq<char>> = Seq::empty();
    let mut i: usize = 0;
    while i < transactions.len()
        invariant
            i <= transactions.len(),
            names == crate::text::texts(seen@),
            names.no_duplicates(),
            names.to_set() =~= stock_set(transactions@.take(i as int)),
        decreases transactions.len() - i,
    {
        let stock = &transactions[i].stock;
        let mut k: usize = 0;
        while k < seen.len() && !same_text(seen[k].as_str(), stock.as_str())
            invariant
                k <= seen.len(),
                names == crate::text::texts(seen@),
                forall|j: int| 0 <= j < k ==> (#[trigger] names[j]) != stock@,
            decreases seen.len() - k,
        {
            k += 1;
        }
        let ghost before = stock_set(transactions@.take(i as int));
        let ghost after = stock_set(transactions@.take(i + 1));
        proof {
            assert forall|s: Seq<char>| after.contains(s) == (before.contains(s) || s == stock@) by {
                if s == stock@ {
                    assert(transactions@.take(i + 1)[i as int].stock@ == s);
                }
            }
        }
        if k == seen.len() {
            let copy = stock.clone();
            proof {
                let more = names.push(copy@);
                assert forall|s: Seq<char>| more.to_set().contains(s) == after.contains(s) by {
                    if before.contains(s) {
                        let j = choose|j: int| 0 <= j < names.len() && names[j] == s;
                        assert(more[j] == s);
                    }
                    if s == stock@ {
                        assert(more[names.len() as int] == s);
                    }
                }
                names = more;
            }
            seen.push(copy);
        } else {
            proof {
                assert(names[k as int] == seen@[k as int]@);
            }
        }
        i += 1;
    }
    proof {
        assert(transactions@.take(transactions.len() as int) == transactions@);
        names.unique_seq_to_set();
    }
    seen.len()
}

/// Number of report entries with the given status.
pub fn count_with_status(coverage: &Vec<CoverageRecord>, status: CoverageStatus) -> (n: usize)
    ensures
        n == coverage@.filter(has_status(status)).len(),
{
    let mut n: usize = 0;
    let mut i: usize = 0;
    while i < coverage.len()
        invariant
            i <= coverage.len(),
            n == coverage@.take(i as int).filter(has_status(status)).len(),
            n <= i,
        decreases coverage.len() - i,
    {
        proof {
            reveal(Seq::filter);
            assert(coverage@.take(i + 1).drop_last() == coverage@.take(i as int));
        }
        if coverage[i].status == status {
            n += 1;
        }
        i += 1;
    }
    assert(coverage@.take(coverage.len() as int) == coverage@);
    n
}

/// The readiness statistics: the number of stocks that the transactions name,
/// the number of report entries per status, and size and range of the store.
pub fn get_data_stats(
    transactions: &Vec<Transaction>,
    coverage: &Vec<CoverageRecord>,
    store: &PriceStore,
) -> (r: DataReadinessStats)
    ensures
        stock_set(transactions@).finite(),
        r.total_stocks == stock_set(transactions@).len(),
        r.complete_data == coverage@.filter(has_status(CoverageStatus::Complete)).len(),
        r.partial_data == coverage@.filter(has_status(CoverageStatus::Partial)).len(),
        r.missing_data == coverage@.filter(has_status(CoverageStatus::Missing)).len(),
        r.total_price_records == crate::store::row_count(store.entries()),
        crate::store::is_oldest_of_store(store@, r.oldest_date),
        crate::store::is_newest_of_store(store@, r.newest_date),
{
    DataReadinessStats {
        total_stocks: distinct_stocks(transactions),
        complete_data: count_with_status(coverage, CoverageStatus::Complete),
        partial_data: count_with_status(coverage, CoverageStatus::Partial),
        missing_data: count_with_status(coverage, CoverageStatus::Missing),
        total_price_records: store.total_rows(),
        oldest_date: store.oldest_date(),
        newest_date: store.newest_date(),
    }
}

} // verus!
