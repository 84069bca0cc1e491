use portfolio_history::actions::SplitRecord;
use portfolio_history::calendar::parse_date;
use portfolio_history::coverage::{completeness, Completeness, CoverageStatus};
use portfolio_history::position::Transaction;
use portfolio_history::price::{PriceRecord, PriceSeries};
use portfolio_history::report::{
    count_with_status, coverage_of_series, distinct_stocks, get_data_coverage, get_data_stats,
    newest_split_date, split_summary, tracked_symbols, transaction_date_in_window, SymbolSplits,
};
use portfolio_history::store::PriceStore;

fn day(text: &str) -> i32 {
    parse_date(text).unwrap()
}

fn price(symbol: &str, date: i32) -> PriceRecord {
    PriceRecord {
        symbol: symbol.to_string(),
        date,
        close: 1_000_000,
        open: None,
        high: None,
        low: None,
        volume: None,
        adjusted_close: None,
        split_unadjusted_close: None,
        source: "manual".to_string(),
    }
}

fn series_of_days(days: &[i32]) -> PriceSeries {
    PriceSeries::from_records(days.iter().map(|d| price("X", *d)).collect())
}

fn txn(date: &str, stock: &str, currency: &str) -> Transaction {
    Transaction {
        date: date.to_string(),
        stock: stock.to_string(),
        transaction_type: "Buy".to_string(),
        quantity: "1".to_string(),
        price: "1".to_string(),
        fees: "0".to_string(),
        split_ratio: String::new(),
        currency: currency.to_string(),
    }
}

// 2020-01-06 was a Monday.
const MONDAY: i32 = 18_267;

#[test]
fn a_full_week_has_five_weekdays() {
    let c = completeness(&PriceSeries::new(), MONDAY, MONDAY + 6);
    assert_eq!(
        c,
        Completeness {
            total_days: 5,
            missing_days: 5,
            coverage_percent: 0,
            status: CoverageStatus::Missing
        }
    );
}

#[test]
fn coverage_percent_is_covered_over_total() {
    let series = series_of_days(&[MONDAY, MONDAY + 1, MONDAY + 5, MONDAY + 7, MONDAY - 1]);
    let c = completeness(&series, MONDAY, MONDAY + 6);
    assert_eq!(c.total_days, 5);
    assert_eq!(c.missing_days, 3);
    assert_eq!(c.coverage_percent, 40_000_000);
    assert_eq!(c.status, CoverageStatus::Missing);
    let thirds = completeness(&series_of_days(&[MONDAY]), MONDAY, MONDAY + 2);
    assert_eq!(thirds.total_days, 3);
    assert_eq!(thirds.coverage_percent, 33_333_333);
}

#[test]
fn empty_window_has_zero_coverage() {
    let c = completeness(&series_of_days(&[MONDAY]), MONDAY + 1, MONDAY);
    assert_eq!(
        c,
        Completeness {
            total_days: 0,
            missing_days: 0,
            coverage_percent: 0,
            status: CoverageStatus::Missing
        }
    );
    let weekend = completeness(&series_of_days(&[MONDAY]), MONDAY + 5, MONDAY + 6);
    assert_eq!(weekend.total_days, 0);
    assert_eq!(weekend.coverage_percent, 0);
}

#[test]
fn status_thresholds() {
    // Twenty weekdays: four weeks from a Monday.
    let all: Vec<i32> = (0..28).map(|i| MONDAY + i).filter(|d| (d - MONDAY) % 7 < 5).collect();
    assert_eq!(all.len(), 20);
    let with = |n: usize| completeness(&series_of_days(&all[..n]), MONDAY, MONDAY + 27);
    assert_eq!(with(20).status, CoverageStatus::Complete);
    assert_eq!(with(20).coverage_percent, 100_000_000);
    assert_eq!(with(19).status, CoverageStatus::Complete);
    assert_eq!(with(19).coverage_percent, 95_000_000);
    assert_eq!(with(18).status, CoverageStatus::Partial);
    assert_eq!(with(10).status, CoverageStatus::Partial);
    assert_eq!(with(10).coverage_percent, 50_000_000);
    assert_eq!(with(9).status, CoverageStatus::Missing);
    assert_eq!(with(0).status, CoverageStatus::Missing);
}

#[test]
fn one_more_weekday_price_raises_coverage() {
    let all: Vec<i32> = (0..70).map(|i| MONDAY + i).filter(|d| (d - MONDAY) % 7 < 5).collect();
    let mut last = -1;
    for n in 0..=all.len() {
        let c = completeness(&series_of_days(&all[..n]), MONDAY, MONDAY + 69);
        assert!(c.coverage_percent > last, "{} prices", n);
        assert_eq!(c.missing_days as usize, all.len() - n);
        last = c.coverage_percent;
    }
    assert_eq!(last, 100_000_000);
}

#[test]
fn weekend_prices_do_not_count() {
    let with_weekend = completeness(&series_of_days(&[MONDAY, MONDAY + 5, MONDAY + 6]), MONDAY, MONDAY + 6);
    let without = completeness(&series_of_days(&[MONDAY]), MONDAY, MONDAY + 6);
    assert_eq!(with_weekend, without);
}

#[test]
fn skipped_completeness_marks_symbols_with_prices_complete() {
    let some = coverage_of_series(&series_of_days(&[MONDAY - 500]), MONDAY, MONDAY + 6, false);
    assert_eq!(
        some,
        Completeness {
            total_days: 0,
            missing_days: 0,
            coverage_percent: 100_000_000,
            status: CoverageStatus::Complete
        }
    );
    let none = coverage_of_series(&PriceSeries::new(), MONDAY, MONDAY + 6, false);
    assert_eq!(
        none,
        Completeness {
            total_days: 0,
            missing_days: 0,
            coverage_percent: 0,
            status: CoverageStatus::Missing
        }
    );
    let asked = coverage_of_series(&series_of_days(&[MONDAY]), MONDAY, MONDAY + 6, true);
    assert_eq!(asked.coverage_percent, 20_000_000);
}

#[test]
fn transactions_count_from_the_window_start() {
    let start = day("2010-01-01");
    assert_eq!(transaction_date_in_window(&txn("2010-01-01", "A", "USD"), start), Some(start));
    assert_eq!(transaction_date_in_window(&txn(" 2015-03-04 ", "A", "USD"), start), Some(day("2015-03-04")));
    assert_eq!(transaction_date_in_window(&txn("2009-12-31", "A", "USD"), start), None);
    assert_eq!(transaction_date_in_window(&txn("2015-03-04", "  ", "USD"), start), None);
    assert_eq!(transaction_date_in_window(&txn("someday", "A", "USD"), start), None);
}

#[test]
fn tracked_symbols_keep_first_currency_and_earliest_date() {
    let transactions = vec![
        txn("2020-03-01", "NASDAQ:AAPL", "USD"),
        txn("2019-01-01", "2330:TWSE", "TWD"),
        txn("2020-01-15", "NASDAQ:AAPL", "EUR"),
        txn("1999-01-01", "NASDAQ:AAPL", "USD"),
        txn("2021-01-01", "PLAIN", "JPY"),
        txn("bad", "OTHER", "USD"),
        txn("2022-01-01", "NASDAQ:AAPL", "USD"),
    ];
    let symbols = tracked_symbols(&transactions, day("2010-01-01"));
    let seen: Vec<(&str, &str, &str, i32)> = symbols
        .iter()
        .map(|s| (s.ticker.as_str(), s.exchange.as_str(), s.currency.as_str(), s.earliest_transaction))
        .collect();
    assert_eq!(
        seen,
        vec![
            ("NASDAQ:AAPL", "NASDAQ", "USD", day("2020-01-15")),
            ("2330:TWSE", "TWSE", "TWD", day("2019-01-01")),
            ("PLAIN", "UNKNOWN", "JPY", day("2021-01-01")),
        ]
    );
    assert!(tracked_symbols(&vec![], 0).is_empty());
}

#[test]
fn split_summaries() {
    let rec = |d: i32| SplitRecord { date: d, numerator: 2, denominator: 1, before_price: None, after_price: None };
    assert_eq!(newest_split_date(&vec![]), None);
    assert_eq!(newest_split_date(&vec![rec(5), rec(9), rec(7)]), Some(9));
    let splits = vec![
        SymbolSplits { symbol: "A".to_string(), records: vec![rec(5), rec(9)] },
        SymbolSplits { symbol: "B".to_string(), records: vec![] },
        SymbolSplits { symbol: "A".to_string(), records: vec![rec(1)] },
    ];
    assert_eq!(split_summary(&splits, "A"), (2, Some(9)));
    assert_eq!(split_summary(&splits, "B"), (0, None));
    assert_eq!(split_summary(&splits, "C"), (0, None));
}

#[test]
fn coverage_report_has_one_entry_per_symbol() {
    let transactions = vec![
        txn("2020-01-06", "NASDAQ:AAPL", "USD"),
        txn("2020-01-07", "2330:TWSE", "TWD"),
        txn("2020-01-08", "NASDAQ:AAPL", "USD"),
    ];
    let store = PriceStore::from_records(vec![
        price("NASDAQ:AAPL", MONDAY),
        price("NASDAQ:AAPL", MONDAY + 1),
        price("NASDAQ:AAPL", MONDAY + 2),
        price("NASDAQ:AAPL", MONDAY + 3),
        price("NASDAQ:AAPL", MONDAY - 30),
        price("UNTRACKED", MONDAY),
    ]);
    let rec = |d: i32| SplitRecord { date: d, numerator: 4, denominator: 1, before_price: None, after_price: None };
    let splits = vec![SymbolSplits { symbol: "NASDAQ:AAPL".to_string(), records: vec![rec(100), rec(50)] }];
    let report = get_data_coverage(&transactions, &store, &splits, MONDAY, MONDAY + 4, true);
    assert_eq!(report.len(), 2);
    let a = &report[0];
    assert_eq!(a.ticker, "NASDAQ:AAPL");
    assert_eq!(a.exchange, "NASDAQ");
    assert_eq!(a.currency, "USD");
    assert_eq!(a.earliest_transaction, MONDAY);
    assert_eq!(a.earliest_price, Some(MONDAY - 30));
    assert_eq!(a.latest_price, Some(MONDAY + 3));
    assert_eq!(a.total_days, 5);
    assert_eq!(a.missing_days, 1);
    assert_eq!(a.coverage_percent, 80_000_000);
    assert_eq!(a.status, CoverageStatus::Partial);
    assert_eq!(a.split_count, 2);
    assert_eq!(a.last_split, Some(100));
    let b = &report[1];
    assert_eq!(b.ticker, "2330:TWSE");
    assert_eq!(b.exchange, "TWSE");
    assert_eq!(b.currency, "TWD");
    assert_eq!(b.earliest_price, None);
    assert_eq!(b.latest_price, None);
    assert_eq!(b.total_days, 5);
    assert_eq!(b.missing_days, 5);
    assert_eq!(b.coverage_percent, 0);
    assert_eq!(b.status, CoverageStatus::Missing);
    assert_eq!(b.split_count, 0);
    assert_eq!(b.last_split, None);

    let quick = get_data_coverage(&transactions, &store, &splits, MONDAY, MONDAY + 4, false);
    assert_eq!(quick[0].coverage_percent, 100_000_000);
    assert_eq!(quick[0].status, CoverageStatus::Complete);
    assert_eq!(quick[0].total_days, 0);
    assert_eq!(quick[1].coverage_percent, 0);
    assert_eq!(quick[1].status, CoverageStatus::Missing);
}

#[test]
fn readiness_statistics() {
    let transactions = vec![
        txn("2020-01-06", "A", "USD"),
        txn("2020-01-07", "B", "USD"),
        txn("2020-01-08", "A", "USD"),
        txn("bad", "C", "USD"),
        txn("2020-01-08", "", "USD"),
    ];
    assert_eq!(distinct_stocks(&transactions), 4);
    assert_eq!(distinct_stocks(&vec![]), 0);
    let store = PriceStore::from_records(vec![
        price("A", MONDAY),
        price("A", MONDAY + 1),
        price("A", MONDAY + 2),
        price("A", MONDAY + 3),
        price("A", MONDAY + 4),
        price("B", MONDAY + 9),
        price("B", MONDAY - 9),
        price("B", MONDAY + 1),
        price("B", MONDAY + 3),
    ]);
    let coverage = get_data_coverage(&transactions, &store, &vec![], MONDAY, MONDAY + 4, true);
    assert_eq!(count_with_status(&coverage, CoverageStatus::Complete), 1);
    assert_eq!(count_with_status(&coverage, CoverageStatus::Partial), 0);
    assert_eq!(count_with_status(&coverage, CoverageStatus::Missing), 1);
    let stats = get_data_stats(&transactions, &coverage, &store);
    assert_eq!(stats.total_stocks, 4);
    assert_eq!(stats.complete_data, 1);
    assert_eq!(stats.partial_data, 0);
    assert_eq!(stats.missing_data, 1);
    assert_eq!(stats.total_price_records, 9);
    assert_eq!(stats.oldest_date, Some(MONDAY - 9));
    assert_eq!(stats.newest_date, Some(MONDAY + 9));
}
