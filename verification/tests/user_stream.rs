use hftlive::binance::BinanceFuturesError;
use hftlive::id::ClientOrderIdCodec;
use hftlive::orders::{OrderManager, OrderTradeUpdate};
use hftlive::types::{OrdType, Side, Status, TimeInForce};
use hftlive::user_stream::{
    account_update_positions, on_order_trade_update, saturating_ms_to_ns, snapshot_position_events,
    snapshot_positions,
    PositionEntry,
};

fn position(symbol: &str, side: &str, amount: f64, update_time: i64) -> PositionEntry<f64> {
    PositionEntry {
        symbol: symbol.to_string(),
        position_side: side.to_string(),
        amount,
        amount_is_finite: amount.is_finite(),
        update_time,
    }
}

#[test]
fn account_update_publishes_positions_until_the_first_unacceptable_one() {
    let (published, outcome) = account_update_positions(
        vec![
            position("btcusdt", "BOTH", 0.5, 0),
            position("ethusdt", "LONG", 1.0, 0),
            position("dogeusdt", "BOTH", 2.0, 0),
        ],
        1_700,
    );
    assert_eq!(published.len(), 1);
    assert_eq!(published[0].symbol, "btcusdt");
    assert_eq!(published[0].qty, 0.5);
    assert_eq!(published[0].exch_ts, 1_700_000_000);
    assert!(matches!(outcome, Err(BinanceFuturesError::UnsupportedPositionMode)));

    let (published, outcome) =
        account_update_positions(vec![position("btcusdt", "BOTH", f64::NAN, 0)], 1);
    assert!(published.is_empty());
    assert!(matches!(outcome, Err(BinanceFuturesError::InvalidAccountState)));
}

#[test]
fn millisecond_times_saturate_when_taken_to_nanoseconds() {
    assert_eq!(saturating_ms_to_ns(1), 1_000_000);
    assert_eq!(saturating_ms_to_ns(-3), -3_000_000);
    assert_eq!(saturating_ms_to_ns(i64::MAX), i64::MAX);
    assert_eq!(saturating_ms_to_ns(i64::MIN), i64::MIN);
    assert_eq!(saturating_ms_to_ns(9_223_372_036_854), 9_223_372_036_854_000_000);
}

#[test]
fn snapshot_keeps_configured_symbols_and_refuses_duplicates() {
    let configured = vec!["btcusdt".to_string()];
    let snapshot = snapshot_positions(
        &configured,
        &vec![position("ethusdt", "LONG", 1.0, 5), position("btcusdt", "BOTH", -0.25, 7)],
    )
    .unwrap();
    assert_eq!(snapshot.get("btcusdt"), Some((-0.25, 7)));
    assert_eq!(snapshot.get("ethusdt"), None);

    let twice = snapshot_positions(
        &configured,
        &vec![position("btcusdt", "BOTH", 1.0, 1), position("btcusdt", "BOTH", 1.0, 2)],
    );
    assert!(matches!(twice, Err(BinanceFuturesError::InvalidAccountState)));
}

#[test]
fn order_updates_of_another_namespace_are_ignored() {
    let mut m: OrderManager<(), f64> =
        OrderManager::new(ClientOrderIdCodec::new("strategy-a").unwrap());
    let update = OrderTradeUpdate {
        client_order_id: "other-v1-1-AbCd12".to_string(),
        transaction_time: 1,
        order_status: Status::New,
        side: Side::Buy,
        time_in_force: TimeInForce::GTC,
        order_type: OrdType::Limit,
        exec_price_tick: 0,
        fill: 0.0,
    };
    assert!(matches!(on_order_trade_update(&mut m, &update), Ok(None)));
    let unknown = OrderTradeUpdate { client_order_id: "strategy-a-v1-1-AbCd12".to_string(), ..update };
    assert!(matches!(
        on_order_trade_update(&mut m, &unknown),
        Err(BinanceFuturesError::OrderNotFound)
    ));
}

#[test]
fn the_account_snapshot_publishes_one_position_per_configured_symbol() {
    let symbols = vec!["btcusdt".to_string(), "ethusdt".to_string(), "btcusdt".to_string()];
    let snapshot = snapshot_positions(&symbols, &vec![position("btcusdt", "BOTH", 0.5, 7)]).unwrap();

    let events = snapshot_position_events(&symbols, &snapshot, 0.0);

    assert_eq!(events, vec![(0.5, 7_000_000), (0.0, 0), (0.0, 0)]);
}
