use rust_tradier::{MarketData, SubscriptionRegistry};
use tokio::sync::mpsc;

fn channel() -> (
    mpsc::Sender<MarketData<String>>,
    mpsc::Receiver<MarketData<String>>,
) {
    mpsc::channel(16)
}

fn sorted(mut v: Vec<String>) -> Vec<String> {
    v.sort();
    v
}

#[test]
fn test_subscription_manager() {
    let mut manager: SubscriptionRegistry<String> = SubscriptionRegistry::new();
    let (data_tx, _data_rx) = channel();

    manager
        .subscribe(
            "client1".to_string(),
            vec!["AAPL".to_string(), "GOOGL".to_string()],
            data_tx.clone(),
        )
        .unwrap();

    let subscriptions = manager.get_client_subscriptions("client1");
    assert_eq!(subscriptions.len(), 2);
    assert!(subscriptions.contains(&"AAPL".to_string()));
    assert!(subscriptions.contains(&"GOOGL".to_string()));

    manager
        .subscribe_symbol("client1".to_string(), "MSFT".to_string())
        .unwrap();

    let subscriptions = manager.get_client_subscriptions("client1");
    assert_eq!(subscriptions.len(), 3);
    assert!(subscriptions.contains(&"MSFT".to_string()));

    manager
        .unsubscribe_symbol("client1".to_string(), "GOOGL".to_string())
        .unwrap();

    let subscriptions = manager.get_client_subscriptions("client1");
    assert_eq!(subscriptions.len(), 2);
    assert!(!subscriptions.contains(&"GOOGL".to_string()));

    manager.unsubscribe_all("client1".to_string()).unwrap();

    let subscriptions = manager.get_client_subscriptions("client1");
    assert_eq!(subscriptions.len(), 0);
}

#[test]
fn test_active_symbols_is_union_of_clients() {
    let mut registry: SubscriptionRegistry<String> = SubscriptionRegistry::new();
    let (tx1, _rx1) = channel();
    let (tx2, _rx2) = channel();

    registry
        .subscribe(
            "client1".to_string(),
            vec!["AAPL".to_string(), "MSFT".to_string()],
            tx1,
        )
        .unwrap();
    registry
        .subscribe("client2".to_string(), vec!["GOOGL".to_string()], tx2)
        .unwrap();

    assert_eq!(
        sorted(registry.get_active_symbols()),
        vec!["AAPL".to_string(), "GOOGL".to_string(), "MSFT".to_string()]
    );

    // client2 drops GOOGL, which no one else desires.
    registry
        .unsubscribe("client2".to_string(), vec!["GOOGL".to_string()])
        .unwrap();
    assert_eq!(
        sorted(registry.get_active_symbols()),
        vec!["AAPL".to_string(), "MSFT".to_string()]
    );

    // client1 drops everything: the active set empties, and a supervisor
    // whose session ends now heads toward idle.
    registry.unsubscribe_all("client1".to_string()).unwrap();
    assert_eq!(registry.get_active_symbols().len(), 0);
    let (state, _) = rust_tradier::supervisor_step(
        rust_tradier::SessionState::Subscribed,
        rust_tradier::SupervisorEvent::SessionEnded {
            interest_nonempty: !registry.get_active_symbols().is_empty(),
        },
    );
    assert_eq!(state, rust_tradier::SessionState::Idle);
}

#[test]
fn test_overlapping_subscribe_is_idempotent() {
    let mut registry: SubscriptionRegistry<String> = SubscriptionRegistry::new();
    let (tx, _rx) = channel();

    registry
        .subscribe(
            "client1".to_string(),
            vec!["AAPL".to_string(), "MSFT".to_string()],
            tx.clone(),
        )
        .unwrap();
    let before = sorted(registry.get_client_subscriptions("client1"));
    let active_before = sorted(registry.get_active_symbols());

    // The same overlapping set again: union, no duplicates.
    registry
        .subscribe(
            "client1".to_string(),
            vec!["MSFT".to_string(), "AAPL".to_string()],
            tx,
        )
        .unwrap();
    assert_eq!(sorted(registry.get_client_subscriptions("client1")), before);
    assert_eq!(sorted(registry.get_active_symbols()), active_before);
    assert_eq!(registry.get_client_subscriptions("client1").len(), 2);
}

#[test]
fn test_unsubscribe_keeps_shared_symbols_active() {
    let mut registry: SubscriptionRegistry<String> = SubscriptionRegistry::new();
    let (tx1, _rx1) = channel();
    let (tx2, _rx2) = channel();

    registry
        .subscribe(
            "client1".to_string(),
            vec!["AAPL".to_string(), "MSFT".to_string()],
            tx1,
        )
        .unwrap();
    registry
        .subscribe("client2".to_string(), vec!["MSFT".to_string()], tx2)
        .unwrap();

    // MSFT is still desired by client2, so it stays active.
    registry
        .unsubscribe("client1".to_string(), vec!["MSFT".to_string()])
        .unwrap();
    let active = sorted(registry.get_active_symbols());
    assert!(active.contains(&"MSFT".to_string()));

    // AAPL was desired by client1 alone, so dropping it removes it.
    registry
        .unsubscribe("client1".to_string(), vec!["AAPL".to_string()])
        .unwrap();
    let active = sorted(registry.get_active_symbols());
    assert_eq!(active, vec!["MSFT".to_string()]);
}

#[test]
fn test_unsubscribe_all_leaves_other_clients_alone() {
    let mut registry: SubscriptionRegistry<String> = SubscriptionRegistry::new();
    let (tx1, _rx1) = channel();
    let (tx2, _rx2) = channel();

    registry
        .subscribe(
            "clientA".to_string(),
            vec!["AAPL".to_string(), "MSFT".to_string()],
            tx1,
        )
        .unwrap();
    registry
        .subscribe(
            "clientB".to_string(),
            vec!["MSFT".to_string(), "GOOGL".to_string()],
            tx2,
        )
        .unwrap();

    registry.unsubscribe_all("clientA".to_string()).unwrap();

    assert_eq!(registry.get_client_subscriptions("clientA").len(), 0);
    assert_eq!(
        sorted(registry.get_client_subscriptions("clientB")),
        vec!["GOOGL".to_string(), "MSFT".to_string()]
    );
    assert_eq!(
        sorted(registry.get_active_symbols()),
        vec!["GOOGL".to_string(), "MSFT".to_string()]
    );
}

#[test]
fn test_subscribe_symbol_without_channel_fails() {
    let mut registry: SubscriptionRegistry<String> = SubscriptionRegistry::new();

    let err = registry
        .subscribe_symbol("ghost".to_string(), "AAPL".to_string())
        .unwrap_err();
    assert_eq!(
        err,
        "Client ghost not found. Must subscribe to symbols first."
    );

    // No registry mutation happened.
    assert_eq!(registry.get_client_subscriptions("ghost").len(), 0);
    assert_eq!(registry.get_active_symbols().len(), 0);
}

#[test]
fn test_unsubscribe_unknown_client_is_silent() {
    let mut registry: SubscriptionRegistry<String> = SubscriptionRegistry::new();
    registry
        .unsubscribe("nobody".to_string(), vec!["AAPL".to_string()])
        .unwrap();
    registry.unsubscribe_all("nobody".to_string()).unwrap();
    assert_eq!(registry.get_active_symbols().len(), 0);
}
