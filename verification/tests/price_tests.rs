use portfolio_history::calendar::parse_date;
use portfolio_history::price::{PriceRecord, PriceSeries};
use portfolio_history::store::PriceStore;

fn day(text: &str) -> i32 {
    parse_date(text).unwrap()
}

fn record(symbol: &str, date: &str, close: i64, source: &str) -> PriceRecord {
    PriceRecord {
        symbol: symbol.to_string(),
        date: day(date),
        close,
        open: None,
        high: None,
        low: None,
        volume: None,
        adjusted_close: None,
        split_unadjusted_close: None,
        source: source.to_string(),
    }
}

fn dates(series: &PriceSeries) -> Vec<i32> {
    series.as_vec().iter().map(|r| r.date).collect()
}

#[test]
fn merge_keeps_one_record_per_date() {
    let mut series = PriceSeries::from_records(vec![
        record("X", "2020-01-02", 10, "manual"),
        record("X", "2020-01-03", 11, "manual"),
        record("X", "2020-01-06", 12, "manual"),
    ]);
    series.merge(vec![
        record("X", "2020-01-03", 21, "yahoo_finance"),
        record("X", "2020-01-07", 22, "yahoo_finance"),
        record("X", "2020-01-01", 23, "yahoo_finance"),
        record("X", "2020-01-07", 24, "yahoo_finance"),
    ]);
    assert_eq!(
        dates(&series),
        vec![
            day("2020-01-07"),
            day("2020-01-06"),
            day("2020-01-03"),
            day("2020-01-02"),
            day("2020-01-01")
        ]
    );
    assert_eq!(series.len(), 5);
    let closes: Vec<i64> = series.as_vec().iter().map(|r| r.close).collect();
    assert_eq!(closes, vec![24, 12, 21, 10, 23]);
    let sources: Vec<&str> = series.as_vec().iter().map(|r| r.source.as_str()).collect();
    assert_eq!(sources, vec!["yahoo_finance", "manual", "yahoo_finance", "manual", "yahoo_finance"]);
}

#[test]
fn merge_of_nothing_changes_nothing() {
    let mut series = PriceSeries::from_records(vec![record("X", "2020-01-02", 10, "manual")]);
    let before = series.as_vec().clone();
    series.merge(vec![]);
    assert_eq!(series.as_vec(), &before);
    let mut empty = PriceSeries::new();
    empty.merge(vec![]);
    assert_eq!(empty.len(), 0);
}

#[test]
fn merge_of_the_same_records_twice_changes_nothing_more() {
    let fetched = vec![record("X", "2020-01-02", 10, "a"), record("X", "2020-01-03", 11, "a")];
    let mut series = PriceSeries::new();
    series.merge(fetched.clone());
    let once = series.as_vec().clone();
    series.merge(fetched);
    assert_eq!(series.as_vec(), &once);
}

#[test]
fn upsert_replaces_or_inserts() {
    let mut series = PriceSeries::new();
    series.upsert(record("X", "2020-01-03", 1, "a"));
    series.upsert(record("X", "2020-01-01", 2, "a"));
    series.upsert(record("X", "2020-01-02", 3, "a"));
    series.upsert(record("X", "2020-01-04", 4, "a"));
    series.upsert(record("X", "2020-01-02", 5, "b"));
    let closes: Vec<i64> = series.as_vec().iter().map(|r| r.close).collect();
    assert_eq!(closes, vec![4, 1, 5, 2]);
}

#[test]
fn earliest_and_latest_date() {
    let empty = PriceSeries::new();
    assert_eq!(empty.earliest_date(), None);
    assert_eq!(empty.latest_date(), None);
    let series = PriceSeries::from_records(vec![
        record("X", "2020-01-03", 1, "a"),
        record("X", "2019-12-31", 2, "a"),
        record("X", "2020-02-01", 3, "a"),
    ]);
    assert_eq!(series.earliest_date(), Some(day("2019-12-31")));
    assert_eq!(series.latest_date(), Some(day("2020-02-01")));
}

#[test]
fn needs_fetch_until_the_series_reaches_back() {
    let empty = PriceSeries::new();
    assert!(empty.needs_fetch(day("2020-01-01")));
    let series = PriceSeries::from_records(vec![
        record("X", "2020-01-03", 1, "a"),
        record("X", "2020-02-01", 3, "a"),
    ]);
    assert!(series.needs_fetch(day("2020-01-02")));
    assert!(!series.needs_fetch(day("2020-01-03")));
    assert!(!series.needs_fetch(day("2020-01-04")));
    assert!(!series.needs_fetch(day("2021-01-01")));
}

#[test]
fn contains_date_finds_every_stored_date() {
    let mut records = Vec::new();
    for d in (0..200).step_by(3) {
        let mut r = record("X", "1970-01-01", d as i64, "a");
        r.date = d;
        records.push(r);
    }
    let series = PriceSeries::from_records(records);
    for d in -3..205 {
        assert_eq!(series.contains_date(d), d >= 0 && d < 200 && d % 3 == 0, "day {}", d);
    }
    assert!(!PriceSeries::new().contains_date(0));
}

#[test]
fn oldest_first_reverses_the_stored_order() {
    let series = PriceSeries::from_records(vec![
        record("X", "2020-01-03", 1, "a"),
        record("X", "2019-12-31", 2, "b"),
        record("X", "2020-02-01", 3, "c"),
    ]);
    let ordered = series.oldest_first();
    let closes: Vec<i64> = ordered.iter().map(|r| r.close).collect();
    assert_eq!(closes, vec![2, 1, 3]);
    assert_eq!(ordered[0].source, "b");
}

#[test]
fn duplicate_copies_every_field() {
    let mut r = record("X", "2020-01-03", 1, "a");
    r.open = Some(2);
    r.high = Some(3);
    r.low = Some(4);
    r.volume = Some(5);
    r.adjusted_close = Some(6);
    r.split_unadjusted_close = Some(7);
    assert_eq!(r.duplicate(), r);
}

#[test]
fn store_groups_records_by_symbol() {
    let store = PriceStore::from_records(vec![
        record("A", "2020-01-02", 1, "a"),
        record("B", "2020-01-02", 2, "a"),
        record("A", "2020-01-03", 3, "a"),
        record("A", "2020-01-02", 4, "b"),
    ]);
    assert_eq!(store.as_vec().len(), 2);
    assert_eq!(store.as_vec()[0].symbol, "A");
    assert_eq!(store.as_vec()[1].symbol, "B");
    let a = store.get("A").unwrap();
    let closes: Vec<i64> = a.as_vec().iter().map(|r| r.close).collect();
    assert_eq!(closes, vec![3, 4]);
    assert_eq!(store.get("B").unwrap().len(), 1);
    assert!(store.get("C").is_none());
    assert!(store.get("a").is_none());
    assert_eq!(store.total_rows(), 3);
}

#[test]
fn store_merge_into_creates_or_extends() {
    let mut store = PriceStore::new();
    assert_eq!(store.total_rows(), 0);
    assert_eq!(store.oldest_date(), None);
    assert_eq!(store.newest_date(), None);
    store.merge_into("A", vec![record("A", "2020-01-02", 1, "a")]);
    store.merge_into("B", vec![record("B", "2019-01-02", 2, "a"), record("B", "2021-01-02", 3, "a")]);
    store.merge_into("A", vec![record("A", "2020-01-02", 9, "b"), record("A", "2020-01-05", 4, "b")]);
    store.merge_into("C", vec![]);
    assert_eq!(store.as_vec().len(), 3);
    assert_eq!(store.get("C").unwrap().len(), 0);
    assert_eq!(store.total_rows(), 4);
    let a = store.get("A").unwrap();
    let closes: Vec<i64> = a.as_vec().iter().map(|r| r.close).collect();
    assert_eq!(closes, vec![4, 9]);
    assert_eq!(store.oldest_date(), Some(day("2019-01-02")));
    assert_eq!(store.newest_date(), Some(day("2021-01-02")));
}

#[test]
fn store_insert_record_files_by_symbol() {
    let mut store = PriceStore::new();
    store.insert_record(record("A", "2020-01-02", 1, "a"));
    store.insert_record(record("A", "2020-01-02", 2, "a"));
    store.insert_record(record("B", "2020-01-02", 3, "a"));
    assert_eq!(store.total_rows(), 2);
    assert_eq!(store.get("A").unwrap().as_vec()[0].close, 2);
}
