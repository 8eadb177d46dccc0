use hftlive::keyed::TextSet;
use hftlive::market_stream::{
    register_symbol, snapshot_retry_delay_ms, strategy_symbols, trade_event_kind, StrategySetError,
};
use hftlive::types::{LOCAL_BUY_TRADE_EVENT, LOCAL_SELL_TRADE_EVENT};

#[test]
fn only_market_trades_are_published_with_the_aggressor_side() {
    assert_eq!(trade_event_kind("MARKET", false), Some(LOCAL_BUY_TRADE_EVENT));
    assert_eq!(trade_event_kind("MARKET", true), Some(LOCAL_SELL_TRADE_EVENT));
    assert_eq!(trade_event_kind("INSURANCE_FUND", false), None);
    assert_eq!(trade_event_kind("market", false), None);
}

#[test]
fn depth_snapshots_are_retried_five_times_with_growing_pauses() {
    let delays: Vec<Option<u64>> = (0..6).map(snapshot_retry_delay_ms).collect();
    assert_eq!(delays, vec![Some(0), Some(100), Some(250), Some(500), Some(1000), None]);
}

#[test]
fn symbols_are_registered_once_in_lower_case() {
    let mut symbols = TextSet::new();
    assert_eq!(register_symbol(&mut symbols, "BTCUSDT"), Some("btcusdt".to_string()));
    assert_eq!(register_symbol(&mut symbols, "btcusdt"), None);
    assert!(symbols.contains("btcusdt"));
}

#[test]
fn one_strategy_per_symbol_is_supported() {
    assert_eq!(strategy_symbols(&vec![]), Err(StrategySetError::NoStrategies));
    assert_eq!(
        strategy_symbols(&vec!["BTCUSDT".to_string(), "ethusdt".to_string()]),
        Ok(vec!["btcusdt".to_string(), "ethusdt".to_string()])
    );
    assert_eq!(
        strategy_symbols(&vec!["BTCUSDT".to_string(), "btcusdt".to_string()]),
        Err(StrategySetError::DuplicateSymbol("btcusdt".to_string()))
    );
}
