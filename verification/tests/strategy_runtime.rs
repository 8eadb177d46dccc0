use hftlive::roi_depth::Level;
use hftlive::runtime::{RuntimeEvent, RuntimeOrder, StrategyRuntime};
use hftlive::types::{Side, Status, LOCAL_BID_DEPTH_EVENT, LOCAL_BUY_TRADE_EVENT};

type Runtime = StrategyRuntime<f64, u32, (), f64>;

fn key(x: f64) -> Option<u64> {
    if !x.is_finite() {
        None
    } else if x == 0.0 {
        Some(0)
    } else {
        Some(x.to_bits())
    }
}

fn position(qty: f64, exch_ts: i64) -> RuntimeEvent<f64, u32, (), f64> {
    RuntimeEvent::Position { symbol: "btcusdt".to_string(), qty, qty_key: key(qty), exch_ts }
}

fn order(order_id: u64, status: Status, qty: f64) -> RuntimeEvent<f64, u32, (), f64> {
    RuntimeEvent::Order {
        symbol: "btcusdt".to_string(),
        order: RuntimeOrder {
            order_id,
            status,
            req: Status::NoStatus,
            side: Side::Buy,
            price_tick: 1_000,
            quantities: Some((key(qty).unwrap(), key(qty).unwrap(), 0)),
            order: (),
        },
    }
}

fn bid(price_tick: i64, qty: f64, local_ts: i64) -> RuntimeEvent<f64, u32, (), f64> {
    RuntimeEvent::Feed {
        symbol: "btcusdt".to_string(),
        ev: LOCAL_BID_DEPTH_EVENT,
        local_ts,
        price_tick,
        qty_lot: (qty / 0.001).round() as i64,
        level: Level { qty, positive: qty > 0.0 },
        trade: 0,
    }
}

#[test]
fn stale_position_update_cannot_roll_back_a_newer_snapshot() {
    let mut runtime = Runtime::new("btcusdt", 0.0, 0.0);
    assert!(runtime.apply(position(2.0, 200)));
    assert!(!runtime.apply(position(1.0, 100)));

    assert_eq!(*runtime.position(), 2.0);
}

#[test]
fn position_change_marks_quotes_dirty() {
    let mut runtime = Runtime::new("btcusdt", 0.0, 0.0);
    assert!(!runtime.quote_dirty());

    runtime.apply(position(0.5, 100));

    assert!(runtime.take_quote_dirty());
    assert!(!runtime.quote_dirty());
}

#[test]
fn an_unchanged_position_does_not_mark_quotes_dirty() {
    let mut runtime = Runtime::new("btcusdt", 0.0, 0.0);
    assert!(runtime.apply(position(-0.0, 100)));
    assert!(!runtime.quote_dirty());
    assert!(!runtime.apply(position(f64::NAN, 200)));
}

#[test]
fn depth_updates_mark_the_book_dirty_and_set_the_time() {
    let mut runtime = Runtime::new("BTCUSDT", 0.0, 0.0);
    assert_eq!(runtime.symbol(), "btcusdt");

    assert!(!runtime.apply(bid(1_000, 1.0, 123_000_000)));

    assert_eq!(runtime.timestamp(), 123_000_000);
    assert_eq!(runtime.depth().best_bid_tick(), 1_000);
    assert!(runtime.take_depth_dirty());
    assert!(!runtime.take_depth_dirty());
    assert!(runtime.quote_dirty());
}

#[test]
fn orders_are_kept_while_active_and_dropped_when_ended() {
    let mut runtime = Runtime::new("btcusdt", 0.0, 0.0);
    assert!(runtime.apply(order(1, Status::New, 0.5)));
    assert_eq!(runtime.open_orders(), 1);
    assert!(runtime.take_quote_dirty());

    assert!(runtime.apply(order(1, Status::New, 0.5)));
    assert!(!runtime.quote_dirty());

    assert!(runtime.apply(order(1, Status::Filled, 0.5)));
    assert_eq!(runtime.open_orders(), 0);
    assert!(runtime.quote_dirty());
}

#[test]
fn events_of_another_symbol_are_ignored() {
    let mut runtime = Runtime::new("btcusdt", 0.0, 0.0);
    let event = RuntimeEvent::Position { symbol: "ethusdt".to_string(), qty: 1.0, qty_key: key(1.0), exch_ts: 1 };

    assert!(!runtime.apply(event));
    assert_eq!(*runtime.position(), 0.0);
}

#[test]
fn only_the_latest_trades_are_kept() {
    let mut runtime = Runtime::new("btcusdt", 0.0, 0.0);
    for i in 0..1_030u32 {
        let trade = RuntimeEvent::Feed {
            symbol: "btcusdt".to_string(),
            ev: LOCAL_BUY_TRADE_EVENT,
            local_ts: i as i64,
            price_tick: 1,
            qty_lot: 0,
            level: Level { qty: 0.0, positive: false },
            trade: i,
        };
        assert!(runtime.apply(trade));
    }
    assert!(!runtime.quote_dirty());
}

#[test]
fn the_trade_history_keeps_the_latest_trades() {
    let mut runtime = Runtime::new("btcusdt", 0.0, 0.0);
    for i in 0..1_030u32 {
        runtime.apply(RuntimeEvent::Feed {
            symbol: "btcusdt".to_string(),
            ev: LOCAL_BUY_TRADE_EVENT,
            local_ts: i as i64,
            price_tick: 1,
            qty_lot: 0,
            level: Level { qty: 0.0, positive: false },
            trade: i,
        });
    }
    let trades = runtime.last_trades();
    assert_eq!(trades.len(), 1_024);
    assert_eq!(trades.front(), Some(&6));
    assert_eq!(trades.back(), Some(&1_029));
}
