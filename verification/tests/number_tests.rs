use portfolio_history::number::{
    format_amount, i64_to_string, mul_div, parse_amount_str, parse_decimal, parse_i32,
    parse_price_field, u64_to_string,
};

#[test]
fn parse_i32_reads_signed_whole_numbers() {
    assert_eq!(parse_i32("42"), Some(42));
    assert_eq!(parse_i32("+7"), Some(7));
    assert_eq!(parse_i32("-13"), Some(-13));
    assert_eq!(parse_i32("007"), Some(7));
    assert_eq!(parse_i32("2147483647"), Some(i32::MAX));
    assert_eq!(parse_i32("-2147483648"), Some(i32::MIN));
}

#[test]
fn parse_i32_rejects_everything_else() {
    assert_eq!(parse_i32(""), None);
    assert_eq!(parse_i32("-"), None);
    assert_eq!(parse_i32("+"), None);
    assert_eq!(parse_i32("1.0"), None);
    assert_eq!(parse_i32(" 1"), None);
    assert_eq!(parse_i32("12a"), None);
    assert_eq!(parse_i32("2147483648"), None);
    assert_eq!(parse_i32("-2147483649"), None);
    assert_eq!(parse_i32("99999999999999999999999999"), None);
}

#[test]
fn parse_i32_agrees_with_std() {
    for text in ["0", "-0", "+0", "12345", "-98765", "", "x", "--1", "1-", "00000000000001"] {
        assert_eq!(parse_i32(text), text.parse::<i32>().ok(), "text {:?}", text);
    }
}

#[test]
fn parse_decimal_gives_millionths() {
    assert_eq!(parse_decimal("1.5"), Some(1_500_000));
    assert_eq!(parse_decimal("100"), Some(100_000_000));
    assert_eq!(parse_decimal("-0.25"), Some(-250_000));
    assert_eq!(parse_decimal(".5"), Some(500_000));
    assert_eq!(parse_decimal("5."), Some(5_000_000));
    assert_eq!(parse_decimal("+2"), Some(2_000_000));
    assert_eq!(parse_decimal("0.000001"), Some(1));
    assert_eq!(parse_decimal("0"), Some(0));
    assert_eq!(parse_decimal("-0"), Some(0));
}

#[test]
fn parse_decimal_drops_digits_beyond_the_sixth_place() {
    assert_eq!(parse_decimal("150.25999450683594"), Some(150_259_994));
    assert_eq!(parse_decimal("0.0000009"), Some(0));
    assert_eq!(parse_decimal("-1.9999999"), Some(-1_999_999));
}

#[test]
fn parse_decimal_rejects_what_is_no_decimal_number() {
    assert_eq!(parse_decimal(""), None);
    assert_eq!(parse_decimal("."), None);
    assert_eq!(parse_decimal("-"), None);
    assert_eq!(parse_decimal("1e3"), None);
    assert_eq!(parse_decimal("1.2.3"), None);
    assert_eq!(parse_decimal("1,5"), None);
    assert_eq!(parse_decimal(" 1"), None);
    assert_eq!(parse_decimal("--1"), None);
    assert_eq!(parse_decimal("1-"), None);
}

#[test]
fn parse_decimal_knows_the_limits() {
    assert_eq!(parse_decimal("9223372036854.775807"), Some(i64::MAX));
    assert_eq!(parse_decimal("9223372036854.775808"), None);
    assert_eq!(parse_decimal("-9223372036854.775808"), Some(i64::MIN));
    assert_eq!(parse_decimal("-9223372036854.775809"), None);
    assert_eq!(parse_decimal("9223372036855"), None);
    assert_eq!(parse_decimal("100000000000000000000000000000"), None);
}

#[test]
fn parse_amount_str_passes_over_other_characters() {
    assert_eq!(parse_amount_str("$1,234.50"), Some(1_234_500_000));
    assert_eq!(parse_amount_str(" 10 shares"), Some(10_000_000));
    assert_eq!(parse_amount_str("1e5"), Some(15_000_000));
    assert_eq!(parse_amount_str("abc"), None);
    assert_eq!(parse_amount_str(""), None);
    assert_eq!(parse_amount_str("1-2"), None);
    assert_eq!(parse_amount_str("-4"), Some(-4_000_000));
}

#[test]
fn parse_price_field_handles_absent_and_blank_fields() {
    assert_eq!(parse_price_field(None), None);
    assert_eq!(parse_price_field(Some("")), None);
    assert_eq!(parse_price_field(Some("   ")), None);
    assert_eq!(parse_price_field(Some(" 12.5 ")), Some(12_500_000));
    assert_eq!(parse_price_field(Some("n/a")), None);
}

#[test]
fn mul_div_rounds_toward_zero() {
    assert_eq!(mul_div(10, 3, 2), Some(15));
    assert_eq!(mul_div(7, 1, 2), Some(3));
    assert_eq!(mul_div(-7, 1, 2), Some(-3));
    assert_eq!(mul_div(7, -1, 2), Some(-3));
    assert_eq!(mul_div(-7, -1, 2), Some(3));
    assert_eq!(mul_div(0, -5, 3), Some(0));
    assert_eq!(mul_div(100_000_000, 2, 1), Some(200_000_000));
}

#[test]
fn mul_div_reports_what_cannot_be_held() {
    assert_eq!(mul_div(1, 1, 0), None);
    assert_eq!(mul_div(1, 1, -1), None);
    assert_eq!(mul_div(i64::MAX, 2, 1), None);
    assert_eq!(mul_div(i64::MAX, 2, 2), Some(i64::MAX));
    assert_eq!(mul_div(i64::MIN, 1, 1), Some(i64::MIN));
    assert_eq!(mul_div(i64::MIN, -1, 1), None);
    assert_eq!(mul_div(i64::MIN, i64::MIN, i64::MAX), None);
    assert_eq!(mul_div(i64::MAX, i64::MAX, i64::MAX), Some(i64::MAX));
}

#[test]
fn whole_numbers_as_text() {
    assert_eq!(u64_to_string(0), "0");
    assert_eq!(u64_to_string(7), "7");
    assert_eq!(u64_to_string(1_577_836_800), "1577836800");
    assert_eq!(u64_to_string(u64::MAX), u64::MAX.to_string());
    assert_eq!(i64_to_string(-86_400), "-86400");
    assert_eq!(i64_to_string(i64::MIN), i64::MIN.to_string());
    assert_eq!(i64_to_string(i64::MAX), i64::MAX.to_string());
    assert_eq!(i64_to_string(0), "0");
}

#[test]
fn amounts_as_text() {
    assert_eq!(format_amount(820_000), "0.82");
    assert_eq!(format_amount(1_000_000), "1");
    assert_eq!(format_amount(0), "0");
    assert_eq!(format_amount(-1_500_000), "-1.5");
    assert_eq!(format_amount(1), "0.000001");
    assert_eq!(format_amount(120_000_025), "120.000025");
    assert_eq!(format_amount(-25), "-0.000025");
    assert_eq!(format_amount(i64::MAX), "9223372036854.775807");
    assert_eq!(format_amount(i64::MIN), "-9223372036854.775808");
}

#[test]
fn amounts_written_are_read_back() {
    for v in [0i64, 1, -1, 999_999, 1_000_000, 123_456_789, -987_654_321_012, i64::MAX, i64::MIN] {
        assert_eq!(parse_decimal(&format_amount(v)), Some(v));
    }
}
