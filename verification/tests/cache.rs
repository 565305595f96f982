use rust_tradier::{clear_expirations_cache, get_expirations_cache_size, ExpirationsCache};
use rust_tradier::{OneOrMore, PrintHandler};

#[test]
fn test_cache_store_and_lookup() {
    let mut cache = ExpirationsCache::new();
    assert_eq!(get_expirations_cache_size(&cache), 0);
    assert!(cache.lookup("SPY", false).is_none());

    cache.store(
        "SPY".to_string(),
        vec!["2024-01-19".to_string(), "2024-02-16".to_string()],
    );
    assert_eq!(get_expirations_cache_size(&cache), 1);
    assert_eq!(
        cache.lookup("SPY", false).unwrap(),
        vec!["2024-01-19".to_string(), "2024-02-16".to_string()]
    );
    assert!(cache.lookup("AAPL", false).is_none());

    // A refresh request bypasses the cached list.
    assert!(cache.lookup("SPY", true).is_none());
}

#[test]
fn test_cache_overwrite_same_symbol() {
    let mut cache = ExpirationsCache::new();
    cache.store("SPY".to_string(), vec!["2024-01-19".to_string()]);
    cache.store("SPY".to_string(), vec!["2024-06-21".to_string()]);
    assert_eq!(get_expirations_cache_size(&cache), 1);
    assert_eq!(
        cache.lookup("SPY", false).unwrap(),
        vec!["2024-06-21".to_string()]
    );
}

#[test]
fn test_clear_expirations_cache() {
    let mut cache = ExpirationsCache::new();
    cache.store("SPY".to_string(), vec!["2024-01-19".to_string()]);
    cache.store("AAPL".to_string(), vec!["2024-01-19".to_string()]);
    assert_eq!(get_expirations_cache_size(&cache), 2);

    clear_expirations_cache(&mut cache);
    assert_eq!(get_expirations_cache_size(&cache), 0);
    assert!(cache.lookup("SPY", false).is_none());
}

#[test]
fn test_one_or_more_shapes() {
    let one: OneOrMore<u32> = OneOrMore::One(7);
    assert!(matches!(one, OneOrMore::One(7)));
    let many: OneOrMore<u32> = OneOrMore::Multiple(vec![1, 2]);
    assert!(matches!(many, OneOrMore::Multiple(v) if v == vec![1, 2]));
    let _marker = PrintHandler;
}
