use portfolio_history::symbol::{
    get_exchange_and_symbol, known_exchange, sanitize_timestamp, storage_name, suffix_for,
    symbol_of_storage_name, yahoo_symbol_for,
};

#[test]
fn resolves_prefixed_us_ticker() {
    let (exchange, base) = get_exchange_and_symbol("NASDAQ:AAPL");
    assert_eq!(exchange.as_deref(), Some("NASDAQ"));
    assert_eq!(base, "AAPL");
    assert_eq!(yahoo_symbol_for(exchange.as_deref(), &base), "AAPL");
}

#[test]
fn resolves_suffixed_taiwan_ticker() {
    let (exchange, base) = get_exchange_and_symbol("2330:TWSE");
    assert_eq!(exchange.as_deref(), Some("TWSE"));
    assert_eq!(base, "2330");
    assert_eq!(yahoo_symbol_for(exchange.as_deref(), &base), "2330.TW");
}

#[test]
fn ticker_without_known_exchange_is_its_own_base() {
    assert_eq!(get_exchange_and_symbol("AAPL"), (None, "AAPL".to_string()));
    assert_eq!(get_exchange_and_symbol("FOO:BAR"), (None, "FOO:BAR".to_string()));
    assert_eq!(get_exchange_and_symbol(""), (None, String::new()));
    assert_eq!(get_exchange_and_symbol("nasdaq:AAPL"), (None, "nasdaq:AAPL".to_string()));
}

#[test]
fn ticker_is_split_at_its_first_colon() {
    assert_eq!(
        get_exchange_and_symbol("NYSE:BRK:B"),
        (Some("NYSE".to_string()), "BRK:B".to_string())
    );
    assert_eq!(get_exchange_and_symbol("A:B:HKEX"), (None, "A:B:HKEX".to_string()));
    assert_eq!(get_exchange_and_symbol("HKEX:"), (Some("HKEX".to_string()), String::new()));
    assert_eq!(get_exchange_and_symbol(":JPX"), (Some("JPX".to_string()), String::new()));
    assert_eq!(
        get_exchange_and_symbol("NYSE:NASDAQ"),
        (Some("NYSE".to_string()), "NASDAQ".to_string())
    );
}

#[test]
fn known_exchanges() {
    for code in ["NASDAQ", "NYSE", "NYSEARCA", "NYSEAMERICAN", "OTCMKTS", "TWSE", "JPX", "HKEX"] {
        assert!(known_exchange(code), "{}", code);
    }
    for code in ["", "LSE", "TPE", "Nasdaq", "NYSE "] {
        assert!(!known_exchange(code), "{}", code);
    }
}

#[test]
fn provider_suffixes() {
    let expected = [
        ("HKEX", ".HK"),
        ("TWSE", ".TW"),
        ("TPE", ".TW"),
        ("JPX", ".T"),
        ("TYO", ".T"),
        ("LSE", ".L"),
        ("ASX", ".AX"),
        ("TSX", ".TO"),
        ("FRA", ".F"),
        ("PAR", ".PA"),
        ("AMS", ".AS"),
        ("STO", ".ST"),
        ("KRX", ".KS"),
        ("KSE", ".KS"),
        ("KOSDAQ", ".KQ"),
        ("NYSE", ""),
        ("NASDAQ", ""),
        ("NYSEARCA", ""),
        ("NYSEAMERICAN", ""),
        ("OTCMKTS", ""),
        ("XETRA", ""),
        ("", ""),
    ];
    for (exchange, suffix) in expected {
        assert_eq!(suffix_for(exchange), suffix, "{}", exchange);
        assert_eq!(yahoo_symbol_for(Some(exchange), "X"), format!("X{}", suffix));
    }
    assert_eq!(yahoo_symbol_for(None, "0700"), "0700");
    assert_eq!(yahoo_symbol_for(Some("HKEX"), "0700"), "0700.HK");
}

#[test]
fn storage_names() {
    assert_eq!(storage_name("NASDAQ:AAPL"), "NASDAQ_AAPL");
    assert_eq!(storage_name("AAPL"), "AAPL");
    assert_eq!(symbol_of_storage_name("NASDAQ_AAPL"), "NASDAQ:AAPL");
    assert_eq!(symbol_of_storage_name("A_B_C"), "A:B:C");
}

#[test]
fn timestamps_for_file_names() {
    assert_eq!(sanitize_timestamp("2024-01-02T03:04:05.678Z"), "2024_01_02T03_04_05_678Z");
    assert_eq!(sanitize_timestamp(""), "");
    assert_eq!(sanitize_timestamp("aé b"), "a__b");
}
