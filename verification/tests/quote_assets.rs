use hftlive::assets::{balance_events, first_longest_asset, margin_asset};

#[test]
fn maps_quote_asset_balance_to_registered_symbols() {
    let symbols = vec!["dogeusdt".to_string(), "btcusdc".to_string()];
    let balances = vec![("usdt".to_string(), 123.0), ("usdc".to_string(), 45.0)];
    let events = balance_events(&symbols, &balances, 99);

    assert!(events
        .iter()
        .any(|event| event.symbol == "dogeusdt" && event.balance == 123.0 && event.exch_ts == 99));
    assert!(events
        .iter()
        .any(|event| event.symbol == "btcusdc" && event.balance == 45.0));
}

#[test]
fn the_longest_matching_quote_asset_margins_a_symbol() {
    let assets = vec![("usd".to_string(), 90.0), ("usdt".to_string(), 12.0)];
    assert_eq!(margin_asset(&assets, "synusdt"), Some(1));
    assert_eq!(margin_asset(&assets, "synusd"), Some(0));
    assert_eq!(margin_asset(&assets, "btceur"), None);

    let repeated = vec![("usdt".to_string(), 1.0), ("usdt".to_string(), 2.0)];
    assert_eq!(margin_asset(&repeated, "btcusdt"), Some(1));
    assert_eq!(first_longest_asset(&repeated, "btcusdt"), Some(0));
}

#[test]
fn symbols_without_a_quote_asset_get_no_balance() {
    let symbols = vec!["btceur".to_string(), "ethusdt".to_string()];
    let balances = vec![("usdt".to_string(), 5.0)];
    let events = balance_events(&symbols, &balances, 1);
    assert_eq!(events.len(), 1);
    assert_eq!(events[0].symbol, "ethusdt");
}
