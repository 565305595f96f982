use rust_tradier::types::Interval;
use rust_tradier::{
    chain_query, dividends_query, expirations_query, history_query, orders_query, quote_query,
    quotes_query, TradierError,
};

#[test]
fn test_interval_display() {
    assert_eq!(Interval::Daily.display_name(), "daily");
    assert_eq!(Interval::Weekly.display_name(), "weekly");
    assert_eq!(Interval::Monthly.display_name(), "monthly");
}

#[test]
fn test_quote_query() {
    assert_eq!(quote_query("AAPL").unwrap(), "/markets/quotes?symbols=AAPL");
    assert_eq!(quote_query("").unwrap_err(), "Symbol is required");
}

#[test]
fn test_quotes_query() {
    let symbols = vec!["AAPL".to_string(), "GOOGL".to_string(), "MSFT".to_string()];
    assert_eq!(
        quotes_query(&symbols).unwrap(),
        "/markets/quotes?symbols=AAPL,GOOGL,MSFT"
    );
    assert_eq!(
        quotes_query(&vec!["SPY".to_string()]).unwrap(),
        "/markets/quotes?symbols=SPY"
    );
    assert_eq!(
        quotes_query(&Vec::new()).unwrap_err(),
        "At least one symbol is required"
    );
    assert_eq!(
        quotes_query(&vec!["AAPL".to_string(), String::new()]).unwrap_err(),
        "All symbols must be non-empty"
    );
}

#[test]
fn test_chain_query() {
    assert_eq!(
        chain_query("SPY", "2024-12-20", true).unwrap(),
        "/markets/options/chains?symbol=SPY&expiration=2024-12-20&greeks=true"
    );
    assert_eq!(
        chain_query("SPY", "2024-12-20", false).unwrap(),
        "/markets/options/chains?symbol=SPY&expiration=2024-12-20&greeks=false"
    );
    assert_eq!(
        chain_query("", "2024-12-20", true).unwrap_err(),
        "Symbol is required"
    );
    assert_eq!(
        chain_query("SPY", "", true).unwrap_err(),
        "Expiration is required"
    );
}

#[test]
fn test_history_query() {
    assert_eq!(
        history_query("AAPL", Interval::Daily, "2023-01-01", "2023-12-31").unwrap(),
        "/markets/history?symbol=AAPL&interval=daily&start=2023-01-01&end=2023-12-31"
    );
    assert_eq!(
        history_query("", Interval::Daily, "2023-01-01", "2023-12-31").unwrap_err(),
        "Symbol is required"
    );
}

#[test]
fn test_expirations_query() {
    assert_eq!(
        expirations_query("SPY").unwrap(),
        "/markets/options/expirations?symbol=SPY"
    );
    assert_eq!(expirations_query("").unwrap_err(), "Symbol is required");
}

#[test]
fn test_dividends_query() {
    assert_eq!(
        dividends_query("SPY").unwrap(),
        "/markets/fundamentals/dividends?symbols=SPY"
    );
    assert_eq!(dividends_query("").unwrap_err(), "Symbol is required");
}

#[test]
fn test_orders_query() {
    assert_eq!(
        orders_query("ACC123"),
        "/accounts/ACC123/orders?includeTags=true"
    );
}

#[test]
fn test_error_messages() {
    let e = TradierError::HttpError("status 500".to_string());
    assert_eq!(e.message(), "HTTP error: status 500");
    let e = TradierError::JsonError("bad token".to_string());
    assert_eq!(e.message(), "JSON parsing error: bad token");
}

#[test]
fn test_api_url() {
    assert_eq!(
        rust_tradier::api_url("v1", "/markets/quotes?symbols=SPY"),
        "https://api.tradier.com/v1/markets/quotes?symbols=SPY"
    );
    assert_eq!(
        rust_tradier::api_url("beta", "/markets/fundamentals/dividends?symbols=SPY"),
        "https://api.tradier.com/beta/markets/fundamentals/dividends?symbols=SPY"
    );
}
