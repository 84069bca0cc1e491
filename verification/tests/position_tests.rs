use portfolio_history::calendar::parse_date;
use portfolio_history::position::{
    apply_transaction, build_position_timeline, classify, classify_lowercase,
    load_symbol_transactions,
    position_rows, prices_since, process_transaction, PositionError, PositionPoint, PositionRow,
    ProcessedTransaction, Transaction, TransactionKind,
};
use portfolio_history::price::PriceRecord;

const M: i64 = 1_000_000;

fn day(text: &str) -> i32 {
    parse_date(text).unwrap()
}

fn price(date: &str, close: i64) -> PriceRecord {
    PriceRecord {
        symbol: "X".to_string(),
        date: day(date),
        close,
        open: None,
        high: None,
        low: None,
        volume: None,
        adjusted_close: None,
        split_unadjusted_close: None,
        source: "manual".to_string(),
    }
}

fn txn(date: &str, stock: &str, kind: &str, quantity: &str, ratio: &str) -> Transaction {
    Transaction {
        date: date.to_string(),
        stock: stock.to_string(),
        transaction_type: kind.to_string(),
        quantity: quantity.to_string(),
        price: "1".to_string(),
        fees: "0".to_string(),
        split_ratio: ratio.to_string(),
        currency: "USD".to_string(),
    }
}

fn step(date: &str, kind: TransactionKind, quantity: i64, split_ratio: i64) -> ProcessedTransaction {
    ProcessedTransaction { date: day(date), kind, quantity, split_ratio, currency: "USD".to_string() }
}

#[test]
fn buy_then_sell_gives_the_running_shares() {
    let transactions = load_symbol_transactions(
        &vec![txn("2020-01-01", "X", "buy", "10", ""), txn("2020-06-01", "X", "sell", "4", "")],
        "X",
    )
    .unwrap();
    let prices = vec![price("2020-01-01", 100 * M), price("2020-06-01", 120 * M)];
    assert_eq!(
        build_position_timeline(&prices, &transactions),
        Some(vec![
            PositionPoint { date: day("2020-01-01"), close: 100 * M, shares: 10 * M },
            PositionPoint { date: day("2020-06-01"), close: 120 * M, shares: 6 * M },
        ])
    );
}

#[test]
fn transaction_kinds() {
    assert_eq!(classify("Buy"), TransactionKind::Buy);
    assert_eq!(classify("BUY TO OPEN"), TransactionKind::Buy);
    assert_eq!(classify("purchase"), TransactionKind::Buy);
    assert_eq!(classify("Purchased"), TransactionKind::Other);
    assert_eq!(classify("sell"), TransactionKind::Sell);
    assert_eq!(classify("Sell short"), TransactionKind::Sell);
    assert_eq!(classify("SALE"), TransactionKind::Sell);
    assert_eq!(classify("Stock Split"), TransactionKind::Split);
    assert_eq!(classify("split"), TransactionKind::Split);
    assert_eq!(classify("buy split"), TransactionKind::Buy);
    assert_eq!(classify("dividend"), TransactionKind::Other);
    assert_eq!(classify(""), TransactionKind::Other);
}

#[test]
fn transaction_kinds_of_lower_case_types() {
    assert_eq!(classify_lowercase("buy"), TransactionKind::Buy);
    assert_eq!(classify_lowercase("Buy"), TransactionKind::Other);
    assert_eq!(classify_lowercase("sale"), TransactionKind::Sell);
    assert_eq!(classify_lowercase("reverse split"), TransactionKind::Split);
    assert_eq!(classify_lowercase("SPLIT"), TransactionKind::Other);
    assert_eq!(classify("İSTANBUL SPLİT"), TransactionKind::Other);
    assert_eq!(classify("SPLIT"), TransactionKind::Split);
}

#[test]
fn one_transaction_at_a_time() {
    assert_eq!(apply_transaction(5, &step("2020-01-01", TransactionKind::Buy, 3, M)), Some(8));
    assert_eq!(apply_transaction(5, &step("2020-01-01", TransactionKind::Sell, 3, M)), Some(2));
    assert_eq!(apply_transaction(5, &step("2020-01-01", TransactionKind::Sell, 9, M)), Some(0));
    assert_eq!(apply_transaction(5, &step("2020-01-01", TransactionKind::Sell, -9, M)), Some(14));
    assert_eq!(apply_transaction(5, &step("2020-01-01", TransactionKind::Split, 0, 4 * M)), Some(20));
    assert_eq!(apply_transaction(5, &step("2020-01-01", TransactionKind::Split, 0, M / 2)), Some(2));
    assert_eq!(apply_transaction(5, &step("2020-01-01", TransactionKind::Split, 0, 0)), Some(5));
    assert_eq!(apply_transaction(5, &step("2020-01-01", TransactionKind::Split, 0, -M)), Some(5));
    assert_eq!(apply_transaction(5, &step("2020-01-01", TransactionKind::Other, 9, 9)), Some(5));
    assert_eq!(apply_transaction(i64::MAX, &step("2020-01-01", TransactionKind::Buy, 1, M)), None);
    assert_eq!(apply_transaction(i64::MIN, &step("2020-01-01", TransactionKind::Buy, -1, M)), None);
    assert_eq!(apply_transaction(i64::MAX, &step("2020-01-01", TransactionKind::Split, 0, 2 * M)), None);
    assert_eq!(apply_transaction(i64::MAX, &step("2020-01-01", TransactionKind::Sell, i64::MIN, M)), None);
}

#[test]
fn pending_transactions_are_applied_before_a_point_is_made() {
    let transactions = vec![
        step("2020-01-01", TransactionKind::Buy, 10 * M, M),
        step("2020-01-03", TransactionKind::Sell, 20 * M, M),
        step("2020-01-03", TransactionKind::Buy, 3 * M, M),
        step("2020-01-10", TransactionKind::Split, 0, 2 * M),
        step("2020-02-01", TransactionKind::Buy, M, M),
    ];
    let prices = vec![
        price("2019-12-31", 1),
        price("2020-01-02", 2),
        price("2020-01-03", 3),
        price("2020-01-20", 4),
    ];
    let points = build_position_timeline(&prices, &transactions).unwrap();
    let shares: Vec<i64> = points.iter().map(|p| p.shares).collect();
    assert_eq!(shares, vec![0, 10 * M, 3 * M, 6 * M]);
    let closes: Vec<i64> = points.iter().map(|p| p.close).collect();
    assert_eq!(closes, vec![1, 2, 3, 4]);
}

#[test]
fn timeline_without_prices_or_transactions() {
    assert_eq!(build_position_timeline(&vec![], &vec![]), Some(vec![]));
    assert_eq!(
        build_position_timeline(&vec![], &vec![step("2020-01-01", TransactionKind::Buy, i64::MAX, M)]),
        Some(vec![])
    );
    assert_eq!(
        build_position_timeline(&vec![price("2020-01-01", 7)], &vec![]),
        Some(vec![PositionPoint { date: day("2020-01-01"), close: 7, shares: 0 }])
    );
}

#[test]
fn timeline_reports_shares_that_cannot_be_held() {
    let transactions = vec![
        step("2020-01-01", TransactionKind::Buy, i64::MAX, M),
        step("2020-01-02", TransactionKind::Buy, 1, M),
        step("2020-01-03", TransactionKind::Sell, i64::MAX, M),
    ];
    assert_eq!(
        build_position_timeline(&vec![price("2020-01-01", 1), price("2020-01-05", 1)], &transactions),
        None
    );
    assert!(build_position_timeline(&vec![price("2020-01-01", 1)], &transactions).is_some());
}

#[test]
fn transactions_are_read_for_replay() {
    let p = process_transaction(&txn(" 2020-01-02 ", "X", "BUY", "1,000.5 shares", " ")).unwrap();
    assert_eq!(
        p,
        ProcessedTransaction {
            date: day("2020-01-02"),
            kind: TransactionKind::Buy,
            quantity: 1_000_500_000,
            split_ratio: M,
            currency: "USD".to_string(),
        }
    );
    let q = process_transaction(&txn("2020-01-02", "X", "Split", "", "2")).unwrap();
    assert_eq!((q.kind, q.quantity, q.split_ratio), (TransactionKind::Split, 0, 2 * M));
    let r = process_transaction(&txn("2020-01-02", "X", "Split", "x", "-2")).unwrap();
    assert_eq!((r.quantity, r.split_ratio), (0, M));
    let s = process_transaction(&txn("2020-01-02", "X", "Split", "x", "two")).unwrap();
    assert_eq!(s.split_ratio, M);
    assert_eq!(process_transaction(&txn("02/01/2020", "X", "buy", "1", "")), None);
}

#[test]
fn symbol_transactions_are_sorted_by_date() {
    let all = vec![
        txn("2020-03-01", "X", "sell", "1", ""),
        txn("2020-01-01", "Y", "buy", "5", ""),
        txn("2020-01-01", "X", "buy", "2", ""),
        txn("2020-03-01", "X", "buy", "3", ""),
        txn("2020-02-01", "X", "buy", "4", ""),
    ];
    let list = load_symbol_transactions(&all, "X").unwrap();
    let seen: Vec<(i32, TransactionKind, i64)> = list.iter().map(|t| (t.date, t.kind, t.quantity)).collect();
    assert_eq!(
        seen,
        vec![
            (day("2020-01-01"), TransactionKind::Buy, 2 * M),
            (day("2020-02-01"), TransactionKind::Buy, 4 * M),
            (day("2020-03-01"), TransactionKind::Sell, M),
            (day("2020-03-01"), TransactionKind::Buy, 3 * M),
        ]
    );
}

#[test]
fn symbol_transactions_errors() {
    let all = vec![txn("2020-03-01", "X", "sell", "1", ""), txn("soon", "Y", "buy", "5", "")];
    assert_eq!(load_symbol_transactions(&all, "Z"), Err(PositionError::NoTransactions));
    assert_eq!(load_symbol_transactions(&vec![], "X"), Err(PositionError::NoTransactions));
    assert_eq!(load_symbol_transactions(&all, "Y"), Err(PositionError::InvalidDate));
    assert_eq!(load_symbol_transactions(&all, "x"), Err(PositionError::NoTransactions));
    assert!(load_symbol_transactions(&all, "X").is_ok());
}

#[test]
fn prices_since_keeps_later_prices_in_order() {
    let prices = vec![price("2020-01-01", 1), price("2020-01-05", 2), price("2020-01-03", 3), price("2020-01-02", 4)];
    let kept = prices_since(prices, day("2020-01-03"));
    let closes: Vec<i64> = kept.iter().map(|p| p.close).collect();
    assert_eq!(closes, vec![2, 3]);
}

#[test]
fn position_rows_are_newest_first_with_their_value() {
    let transactions = vec![
        step("2020-01-02", TransactionKind::Buy, 10 * M, M),
        step("2020-01-04", TransactionKind::Sell, 4 * M, M),
    ];
    let prices = vec![
        price("2020-01-01", 90 * M),
        price("2020-01-02", 100 * M),
        price("2020-01-03", 110_500_000),
        price("2020-01-06", 120 * M),
    ];
    assert_eq!(
        position_rows(prices, &transactions),
        Ok(vec![
            PositionRow { date: day("2020-01-06"), close: 120 * M, shares: 6 * M, position_value: Some(720 * M) },
            PositionRow { date: day("2020-01-03"), close: 110_500_000, shares: 10 * M, position_value: Some(1_105 * M) },
            PositionRow { date: day("2020-01-02"), close: 100 * M, shares: 10 * M, position_value: Some(1_000 * M) },
        ])
    );
}

#[test]
fn position_rows_errors() {
    let transactions = vec![step("2020-01-02", TransactionKind::Buy, 10 * M, M)];
    assert_eq!(position_rows(vec![], &transactions), Err(PositionError::NoPriceHistory));
    assert_eq!(position_rows(vec![price("2020-01-01", 1)], &transactions), Err(PositionError::NoPriceHistory));
    assert_eq!(position_rows(vec![], &vec![]), Err(PositionError::NoPriceHistory));
    let too_many = vec![
        step("2020-01-02", TransactionKind::Buy, i64::MAX, M),
        step("2020-01-02", TransactionKind::Buy, i64::MAX, M),
    ];
    assert_eq!(position_rows(vec![price("2020-01-03", 1)], &too_many), Err(PositionError::Overflow));
    let huge = vec![step("2020-01-02", TransactionKind::Buy, i64::MAX, M)];
    assert_eq!(
        position_rows(vec![price("2020-01-03", i64::MAX)], &huge),
        Ok(vec![PositionRow { date: day("2020-01-03"), close: i64::MAX, shares: i64::MAX, position_value: None }])
    );
    assert_eq!(
        position_rows(vec![price("2020-01-03", 5)], &vec![]),
        Ok(vec![PositionRow { date: day("2020-01-03"), close: 5, shares: 0, position_value: Some(0) }])
    );
}
