use rust_tradier::session::{all_json_plain, is_json_plain};
use rust_tradier::{extract_session_id, subscribe_frame};

#[test]
fn test_subscribe_frame_layout() {
    let symbols = vec!["AAPL".to_string(), "MSFT".to_string()];
    let frame = subscribe_frame(&symbols, "sid-42");
    assert_eq!(
        frame,
        r#"{"linebreak":false,"sessionid":"sid-42","symbols":["AAPL","MSFT"]}"#
    );
}

#[test]
fn test_subscribe_frame_single_and_empty() {
    let frame = subscribe_frame(&vec!["SPY".to_string()], "s");
    assert_eq!(frame, r#"{"linebreak":false,"sessionid":"s","symbols":["SPY"]}"#);

    let frame = subscribe_frame(&Vec::new(), "s");
    assert_eq!(frame, r#"{"linebreak":false,"sessionid":"s","symbols":[]}"#);
}

#[test]
fn test_json_plain_checks() {
    assert!(is_json_plain("AAPL"));
    assert!(!is_json_plain("has\"quote"));
    assert!(!is_json_plain("back\\slash"));
    assert!(!is_json_plain("new\nline"));
    assert!(all_json_plain(&vec!["AAPL".to_string(), "BRK.B".to_string()]));
    assert!(!all_json_plain(&vec!["AAPL".to_string(), "x\"y".to_string()]));
}

#[test]
fn test_extract_session_id() {
    let resp = r#"{"stream":{"sessionid":"c88d4d1d","url":"wss://example"}}"#;
    assert_eq!(extract_session_id(resp).unwrap(), "c88d4d1d");

    assert!(extract_session_id("{}").is_none());
    assert!(extract_session_id(r#"{"stream":{}}"#).is_none());
    assert!(extract_session_id(r#"{"stream":{"sessionid":7}}"#).is_none());
    assert!(extract_session_id("garbage").is_none());
}
