use rust_tradier::{process_message, MarketData, SubscriptionRegistry};
use tokio::sync::mpsc;

fn channel(
    cap: usize,
) -> (
    mpsc::Sender<MarketData<String>>,
    mpsc::Receiver<MarketData<String>>,
) {
    mpsc::channel(cap)
}

#[test]
fn test_frame_delivered_to_every_interested_client() {
    let mut registry: SubscriptionRegistry<String> = SubscriptionRegistry::new();
    let (tx1, mut rx1) = channel(4);
    let (tx2, mut rx2) = channel(4);
    let (tx3, mut rx3) = channel(4);

    registry
        .subscribe(
            "client1".to_string(),
            vec!["AAPL".to_string(), "MSFT".to_string()],
            tx1,
        )
        .unwrap();
    registry
        .subscribe("client2".to_string(), vec!["AAPL".to_string()], tx2)
        .unwrap();
    registry
        .subscribe("client3".to_string(), vec!["GOOGL".to_string()], tx3)
        .unwrap();

    let frame = r#"{"symbol":"AAPL","last":123.45}"#;
    let mut offered = process_message(frame, &registry);
    offered.sort();
    assert_eq!(offered, vec!["client1".to_string(), "client2".to_string()]);

    // Both interested clients got an independent envelope with the frame.
    let e1 = rx1.try_recv().unwrap();
    assert_eq!(e1.symbol, "AAPL");
    assert_eq!(e1.data, frame);
    let e2 = rx2.try_recv().unwrap();
    assert_eq!(e2.symbol, "AAPL");
    assert_eq!(e2.data, frame);

    // The uninterested client got nothing.
    assert!(rx3.try_recv().is_err());
}

#[test]
fn test_frame_matching_no_client_is_dropped() {
    let mut registry: SubscriptionRegistry<String> = SubscriptionRegistry::new();
    let (tx1, mut rx1) = channel(4);
    registry
        .subscribe("client1".to_string(), vec!["AAPL".to_string()], tx1)
        .unwrap();

    let offered = process_message(r#"{"symbol":"ZZZ"}"#, &registry);
    assert!(offered.is_empty());
    assert!(rx1.try_recv().is_err());
}

#[test]
fn test_frame_without_symbol_is_dropped() {
    let mut registry: SubscriptionRegistry<String> = SubscriptionRegistry::new();
    let (tx1, mut rx1) = channel(4);
    registry
        .subscribe("client1".to_string(), vec!["AAPL".to_string()], tx1)
        .unwrap();

    // No symbol field at all.
    assert!(process_message(r#"{"type":"heartbeat"}"#, &registry).is_empty());
    // Not even JSON.
    assert!(process_message("not json at all", &registry).is_empty());
    // A symbol field that is not a string.
    assert!(process_message(r#"{"symbol":42}"#, &registry).is_empty());
    assert!(rx1.try_recv().is_err());
}

#[test]
fn test_full_channel_does_not_stall_other_clients() {
    let mut registry: SubscriptionRegistry<String> = SubscriptionRegistry::new();
    let (tx1, _rx1) = channel(1);
    let (tx2, mut rx2) = channel(4);

    registry
        .subscribe("client1".to_string(), vec!["AAPL".to_string()], tx1)
        .unwrap();
    registry
        .subscribe("client2".to_string(), vec!["AAPL".to_string()], tx2)
        .unwrap();

    // Two frames: the second overflows client1's one-slot channel, but
    // client2 still receives both copies.
    let frame = r#"{"symbol":"AAPL"}"#;
    process_message(frame, &registry);
    process_message(frame, &registry);

    assert!(rx2.try_recv().is_ok());
    assert!(rx2.try_recv().is_ok());
}
