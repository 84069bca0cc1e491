use portfolio_history::calendar::parse_date;
use portfolio_history::fetch::{
    chart_dividends, chart_records, chart_splits, chart_url, chart_window, check_body,
    collapse_dividends, extract_history, ratio_from_provider, ChartAdjClose, ChartData,
    ChartDividend, ChartEvents, ChartIndicators, ChartQuote, ChartResponse, ChartResult,
    ChartSplit, FetchError, QuoteColumns, RawDividend,
};
use portfolio_history::split::SplitEvent;

const M: i64 = 1_000_000;

fn day(text: &str) -> i32 {
    parse_date(text).unwrap()
}

fn noon(text: &str) -> i64 {
    (day(text) as i64) * 86_400 + 12 * 3_600
}

fn quote(close: Vec<Option<i64>>) -> ChartQuote {
    ChartQuote { open: None, high: None, low: None, close: Some(close), volume: None }
}

fn response(result: ChartResult) -> ChartResponse {
    ChartResponse { chart: Some(ChartData { result: Some(vec![result]) }) }
}

fn sample() -> ChartResponse {
    response(ChartResult {
        timestamp: Some(vec![
            noon("2020-08-27"),
            noon("2020-08-28"),
            noon("2020-08-31"),
            noon("2020-09-01"),
            noon("2020-09-02"),
        ]),
        indicators: Some(ChartIndicators {
            quote: Some(vec![ChartQuote {
                open: Some(vec![Some(126 * M), Some(126 * M), Some(127 * M)]),
                high: Some(vec![Some(127 * M), None, Some(131 * M), Some(134 * M), Some(137 * M)]),
                low: None,
                close: Some(vec![Some(125 * M), Some(124_807_500), Some(129 * M), None, Some(131 * M)]),
                volume: Some(vec![Some(155_000_000 * M)]),
            }]),
            adjclose: Some(vec![ChartAdjClose {
                adjclose: Some(vec![Some(123 * M), Some(122 * M), Some(127 * M), None, Some(129 * M)]),
            }]),
        }),
        events: Some(ChartEvents {
            dividends: Some(vec![
                ChartDividend { date: noon("2020-08-07"), amount: 205_000 },
                ChartDividend { date: noon("2020-08-28"), amount: 111_000 },
                ChartDividend { date: noon("2020-08-28") + 60, amount: 222_000 },
                ChartDividend { date: noon("2020-09-01"), amount: 333_000 },
            ]),
            splits: Some(vec![
                ChartSplit { date: noon("2020-08-31"), numerator: 4 * M, denominator: M },
                ChartSplit { date: noon("2014-06-09"), numerator: 7 * M, denominator: M },
            ]),
        }),
    })
}

#[test]
fn window_runs_from_first_to_last_second() {
    assert_eq!(chart_window(day("2020-01-01"), day("2020-01-01")), (1_577_836_800, 1_577_923_199));
    assert_eq!(chart_window(day("2020-01-01"), day("2020-01-31")), (1_577_836_800, 1_580_515_199));
    assert_eq!(chart_window(0, 0), (0, 86_399));
}

#[test]
fn window_is_at_least_one_second_long() {
    assert_eq!(chart_window(10, 9), (864_000, 864_001));
    assert_eq!(chart_window(10, 0), (864_000, 864_001));
    assert_eq!(chart_window(i32::MAX, i32::MIN), (i32::MAX as i64 * 86_400, i32::MAX as i64 * 86_400 + 1));
}

#[test]
fn body_is_judged_before_it_is_decoded() {
    assert_eq!(check_body(true, 0), Err(FetchError::EmptyBody));
    assert_eq!(check_body(false, 0), Err(FetchError::EmptyBody));
    assert_eq!(check_body(false, 10), Err(FetchError::BadStatus));
    assert_eq!(check_body(true, 10), Ok(()));
}

#[test]
fn chart_url_carries_window_and_options() {
    assert_eq!(
        chart_url("AAPL", day("2020-01-01"), day("2020-01-01")).as_deref(),
        Some("https://query1.finance.yahoo.com/v8/finance/chart/AAPL?period1=1577836800&period2=1577923199&interval=1d&events=div%2Csplits&includeAdjustedClose=true")
    );
    assert_eq!(
        chart_url("2330.TW", -1, -1).as_deref(),
        Some("https://query1.finance.yahoo.com/v8/finance/chart/2330.TW?period1=-86400&period2=-1&interval=1d&events=div%2Csplits&includeAdjustedClose=true")
    );
}

#[test]
fn chart_url_gives_up_on_overlong_symbols() {
    let long = "A".repeat(70_000);
    assert_eq!(chart_url(&long, 0, 0), None);
    let fits = "A".repeat(1_000);
    assert!(chart_url(&fits, 0, 0).is_some());
}

#[test]
fn response_without_result_is_an_error() {
    assert_eq!(
        extract_history(ChartResponse { chart: None }, "X", 0, 10).err(),
        Some(FetchError::MissingResult)
    );
    assert_eq!(
        extract_history(ChartResponse { chart: Some(ChartData { result: None }) }, "X", 0, 10).err(),
        Some(FetchError::MissingResult)
    );
    assert_eq!(
        extract_history(ChartResponse { chart: Some(ChartData { result: Some(vec![]) }) }, "X", 0, 10)
            .err(),
        Some(FetchError::MissingResult)
    );
}

#[test]
fn response_without_indicators_or_quote_is_an_error() {
    let bare = ChartResult { timestamp: Some(vec![0]), indicators: None, events: None };
    assert_eq!(extract_history(response(bare), "X", 0, 10).err(), Some(FetchError::MissingIndicators));
    let no_quote = ChartResult {
        timestamp: None,
        indicators: Some(ChartIndicators { quote: None, adjclose: None }),
        events: None,
    };
    assert_eq!(extract_history(response(no_quote), "X", 0, 10).err(), Some(FetchError::MissingQuote));
    let empty_quote = ChartResult {
        timestamp: None,
        indicators: Some(ChartIndicators { quote: Some(vec![]), adjclose: None }),
        events: None,
    };
    assert_eq!(extract_history(response(empty_quote), "X", 0, 10).err(), Some(FetchError::MissingQuote));
}

#[test]
fn empty_but_complete_response_gives_empty_history() {
    let result = ChartResult {
        timestamp: None,
        indicators: Some(ChartIndicators { quote: Some(vec![quote(vec![])]), adjclose: None }),
        events: None,
    };
    let history = extract_history(response(result), "X", 0, 10).unwrap();
    assert!(history.records.is_empty());
    assert!(history.dividends.is_empty());
    assert!(history.splits.is_empty());
}

#[test]
fn history_holds_the_records_of_the_range() {
    let history =
        extract_history(sample(), "NASDAQ:AAPL", day("2020-08-28"), day("2020-09-02")).unwrap();
    let seen: Vec<(i32, i64)> = history.records.iter().map(|r| (r.date, r.close)).collect();
    assert_eq!(
        seen,
        vec![
            (day("2020-08-28"), 124_807_500),
            (day("2020-08-31"), 129 * M),
            (day("2020-09-02"), 131 * M)
        ]
    );
    let first = &history.records[0];
    assert_eq!(first.symbol, "NASDAQ:AAPL");
    assert_eq!(first.source, "yahoo_finance");
    assert_eq!(first.open, Some(126 * M));
    assert_eq!(first.high, None);
    assert_eq!(first.low, None);
    assert_eq!(first.volume, None);
    assert_eq!(first.adjusted_close, Some(122 * M));
    assert_eq!(first.split_unadjusted_close, Some(499_230_000));
    let second = &history.records[1];
    assert_eq!(second.open, Some(127 * M));
    assert_eq!(second.high, Some(131 * M));
    assert_eq!(second.split_unadjusted_close, Some(129 * M));
    let third = &history.records[2];
    assert_eq!(third.open, None);
    assert_eq!(third.high, Some(137 * M));
    assert_eq!(third.adjusted_close, Some(129 * M));
    assert_eq!(third.split_unadjusted_close, Some(131 * M));
}

#[test]
fn history_holds_dividends_of_the_range_once_per_date() {
    let history =
        extract_history(sample(), "NASDAQ:AAPL", day("2020-08-28"), day("2020-09-02")).unwrap();
    assert_eq!(
        history.dividends,
        vec![
            RawDividend { ex_date: day("2020-09-01"), amount: 333_000 },
            RawDividend { ex_date: day("2020-08-28"), amount: 111_000 },
        ]
    );
}

#[test]
fn history_holds_all_splits_oldest_first() {
    let history =
        extract_history(sample(), "NASDAQ:AAPL", day("2020-08-28"), day("2020-09-02")).unwrap();
    assert_eq!(
        history.splits,
        vec![
            SplitEvent { date: day("2014-06-09"), numerator: 7, denominator: 1 },
            SplitEvent { date: day("2020-08-31"), numerator: 4, denominator: 1 },
        ]
    );
}

#[test]
fn last_result_and_last_quote_count() {
    let first = ChartResult {
        timestamp: Some(vec![noon("2020-01-02")]),
        indicators: Some(ChartIndicators { quote: Some(vec![quote(vec![Some(1)])]), adjclose: None }),
        events: None,
    };
    let second = ChartResult {
        timestamp: Some(vec![noon("2020-01-03")]),
        indicators: Some(ChartIndicators {
            quote: Some(vec![quote(vec![Some(2)]), quote(vec![Some(3)])]),
            adjclose: Some(vec![
                ChartAdjClose { adjclose: Some(vec![Some(4)]) },
                ChartAdjClose { adjclose: Some(vec![Some(5)]) },
            ]),
        }),
        events: None,
    };
    let both = ChartResponse { chart: Some(ChartData { result: Some(vec![first, second]) }) };
    let history = extract_history(both, "X", day("2020-01-01"), day("2020-01-31")).unwrap();
    assert_eq!(history.records.len(), 1);
    assert_eq!(history.records[0].date, day("2020-01-03"));
    assert_eq!(history.records[0].close, 3);
    assert_eq!(history.records[0].adjusted_close, Some(5));
}

#[test]
fn timestamps_outside_the_calendar_give_no_record() {
    let columns = QuoteColumns {
        close: vec![Some(1), Some(2), Some(3)],
        open: vec![],
        high: vec![],
        low: vec![],
        volume: vec![],
        adjusted_close: vec![],
    };
    let records = chart_records("X", &vec![i64::MAX, 86_400, i64::MIN], &columns, &vec![], i32::MIN, i32::MAX);
    assert_eq!(records.len(), 1);
    assert_eq!(records[0].date, 1);
    assert_eq!(records[0].close, 2);
}

#[test]
fn unadjusted_close_is_absent_where_it_cannot_be_held() {
    let columns = QuoteColumns {
        close: vec![Some(i64::MAX)],
        open: vec![],
        high: vec![],
        low: vec![],
        volume: vec![],
        adjusted_close: vec![],
    };
    let splits = vec![SplitEvent { date: 100, numerator: 2, denominator: 1 }];
    let records = chart_records("X", &vec![0], &columns, &splits, 0, 0);
    assert_eq!(records[0].close, i64::MAX);
    assert_eq!(records[0].split_unadjusted_close, None);
}

#[test]
fn provider_ratios() {
    assert_eq!(ratio_from_provider(4 * M, M), (4, 1));
    assert_eq!(ratio_from_provider(3 * M, 2 * M), (3, 2));
    assert_eq!(ratio_from_provider(1_500_000, M), (1_500_000, 1_000_000));
    assert_eq!(ratio_from_provider(0, M), (1, 1));
    assert_eq!(ratio_from_provider(M, -M), (1, 1));
    assert_eq!(ratio_from_provider(1, 1), (1, 1));
}

#[test]
fn provider_splits_are_sorted_and_kept_if_dated() {
    let raw = vec![
        ChartSplit { date: noon("2020-08-31"), numerator: 4 * M, denominator: M },
        ChartSplit { date: i64::MAX, numerator: 9 * M, denominator: M },
        ChartSplit { date: noon("2014-06-09"), numerator: 0, denominator: M },
        ChartSplit { date: noon("2014-06-09") + 1, numerator: 7 * M, denominator: M },
    ];
    assert_eq!(
        chart_splits(&raw),
        vec![
            SplitEvent { date: day("2014-06-09"), numerator: 1, denominator: 1 },
            SplitEvent { date: day("2014-06-09"), numerator: 7, denominator: 1 },
            SplitEvent { date: day("2020-08-31"), numerator: 4, denominator: 1 },
        ]
    );
}

#[test]
fn dividends_are_collapsed_by_date() {
    let input = vec![
        RawDividend { ex_date: 5, amount: 1 },
        RawDividend { ex_date: 9, amount: 2 },
        RawDividend { ex_date: 5, amount: 3 },
        RawDividend { ex_date: 1, amount: 4 },
        RawDividend { ex_date: 9, amount: 5 },
        RawDividend { ex_date: 7, amount: 6 },
    ];
    assert_eq!(
        collapse_dividends(&input),
        vec![
            RawDividend { ex_date: 9, amount: 2 },
            RawDividend { ex_date: 7, amount: 6 },
            RawDividend { ex_date: 5, amount: 1 },
            RawDividend { ex_date: 1, amount: 4 },
        ]
    );
    assert!(collapse_dividends(&vec![]).is_empty());
}

#[test]
fn dividends_outside_the_range_are_dropped() {
    let raw = vec![
        ChartDividend { date: 86_400 * 4, amount: 1 },
        ChartDividend { date: 86_400 * 5, amount: 2 },
        ChartDividend { date: 86_400 * 6 + 86_399, amount: 3 },
        ChartDividend { date: 86_400 * 7, amount: 4 },
        ChartDividend { date: i64::MIN, amount: 5 },
    ];
    assert_eq!(
        chart_dividends(&raw, 5, 6),
        vec![RawDividend { ex_date: 6, amount: 3 }, RawDividend { ex_date: 5, amount: 2 }]
    );
}
