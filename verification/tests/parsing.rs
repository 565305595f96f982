use rust_tradier::types::OptionRight;
use rust_tradier::util::Date;
use rust_tradier::{date_to_tradier, parse_occ_option_symbol, tradier_to_date};

#[test]
fn test_parse_occ_option_symbol_put() {
    let symbol = "QQQ241010P00450000";
    let parsed = parse_occ_option_symbol(symbol).unwrap();

    assert_eq!(parsed.underlying_symbol, "QQQ");
    assert_eq!(parsed.expiration, Date::from_ymd(2024, 10, 10).unwrap());
    assert_eq!(parsed.strike_thousandths, 450_000);
    assert!(matches!(parsed.right, OptionRight::Put));
}

#[test]
fn test_parse_occ_option_symbol_call() {
    let symbol = "AAPL231215C00150000";
    let parsed = parse_occ_option_symbol(symbol).unwrap();

    assert_eq!(parsed.underlying_symbol, "AAPL");
    assert_eq!(parsed.expiration, Date::from_ymd(2023, 12, 15).unwrap());
    assert_eq!(parsed.strike_thousandths, 150_000);
    assert!(matches!(parsed.right, OptionRight::Call));
}

#[test]
fn test_parse_occ_option_symbol_case_insensitive() {
    let symbol = "qqq241010p00450000";
    let parsed = parse_occ_option_symbol(symbol).unwrap();

    assert_eq!(parsed.underlying_symbol, "qqq");
    assert_eq!(parsed.expiration, Date::from_ymd(2024, 10, 10).unwrap());
    assert_eq!(parsed.strike_thousandths, 450_000);
    assert!(matches!(parsed.right, OptionRight::Put));
}

#[test]
fn test_parse_occ_option_symbol_invalid() {
    assert!(parse_occ_option_symbol("").is_none());
    assert!(parse_occ_option_symbol("QQQ").is_none());
    assert!(parse_occ_option_symbol("QQQ241010").is_none());
    assert!(parse_occ_option_symbol("QQQ241010X00450000").is_none()); // Invalid option type
    assert!(parse_occ_option_symbol("QQQ241010P").is_none()); // Missing strike
}

#[test]
fn test_parse_occ_option_symbol_not_a_real_day() {
    // February 30th passes the digit-window test but is no calendar day.
    assert!(parse_occ_option_symbol("QQQ240230P00450000").is_none());
    // February 29th exists in 2024 but not in 2023.
    assert!(parse_occ_option_symbol("QQQ240229P00450000").is_some());
    assert!(parse_occ_option_symbol("QQQ230229P00450000").is_none());
}

#[test]
fn test_parse_occ_option_symbol_strike_too_large() {
    // Twenty-five strike digits exceed what a machine word can hold.
    assert!(parse_occ_option_symbol("QQQ241010P9999999999999999999999999").is_none());
}

#[test]
fn test_date_to_tradier_format() {
    let date = Date::from_ymd(2023, 12, 25).unwrap();
    assert_eq!(date_to_tradier(date), "2023-12-25");

    let date = Date::from_ymd(2020, 1, 1).unwrap();
    assert_eq!(date_to_tradier(date), "2020-01-01");
}

#[test]
fn test_tradier_date_to_naive() {
    let date_str = "2023-12-25";
    let date = tradier_to_date(date_str).unwrap();
    assert_eq!(date.year, 2023);
    assert_eq!(date.month, 12);
    assert_eq!(date.day, 25);

    let date_str = "2020-01-01";
    let date = tradier_to_date(date_str).unwrap();
    assert_eq!(date.year, 2020);
    assert_eq!(date.month, 1);
    assert_eq!(date.day, 1);
}

#[test]
fn test_tradier_date_to_naive_invalid() {
    let invalid_date = "2023-13-45"; // Invalid month and day
    assert!(tradier_to_date(invalid_date).is_none());

    let invalid_format = "2023/12/25"; // Wrong format
    assert!(tradier_to_date(invalid_format).is_none());
}

#[test]
fn test_date_from_ymd_rejects_bad_days() {
    assert!(Date::from_ymd(2023, 2, 29).is_none());
    assert!(Date::from_ymd(2024, 2, 29).is_some());
    assert!(Date::from_ymd(2023, 4, 31).is_none());
    assert!(Date::from_ymd(2023, 0, 1).is_none());
    assert!(Date::from_ymd(2023, 1, 0).is_none());
    assert!(Date::from_ymd(10000, 1, 1).is_none());
}
