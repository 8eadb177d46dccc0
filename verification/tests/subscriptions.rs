use hftlive::subscriptions::SubscriptionTracker;

#[test]
fn replays_registered_symbols_on_new_connection() {
    let mut tracker = SubscriptionTracker::new(vec!["dogeusdt".to_string(), "btcusdt".to_string()]);

    let mut symbols = Vec::new();
    while let Some(symbol) = tracker.next_initial() {
        symbols.push(symbol);
    }
    symbols.sort();

    assert_eq!(symbols, ["btcusdt", "dogeusdt"]);
}

#[test]
fn ignores_broadcast_duplicate_of_replayed_symbol() {
    let mut tracker = SubscriptionTracker::new(vec!["dogeusdt".to_string()]);

    assert_eq!(tracker.next_initial().as_deref(), Some("dogeusdt"));
    assert!(!tracker.accept("dogeusdt".to_string()));
}

#[test]
fn accepts_symbol_registered_after_connection() {
    let mut tracker = SubscriptionTracker::new(vec!["dogeusdt".to_string()]);
    assert_eq!(tracker.next_initial().as_deref(), Some("dogeusdt"));

    assert!(tracker.accept("ethusdt".to_string()));
    assert!(!tracker.accept("ethusdt".to_string()));
}
