use hftlive::readiness::AccountReadiness;
use hftlive::safety::SafetyState;
use hftlive::types::Status;

#[test]
fn stale_market_at_deadline_blocks_until_orders_are_gone_and_market_is_fresh() {
    let mut safety = SafetyState::new(1_000, vec!["btcusdt".to_string()]);
    safety.on_market_batch("btcusdt", 0, false);

    safety.on_tick(999);
    assert!(safety.can_submit("btcusdt", 999));
    safety.on_tick(1_000);
    assert!(safety.is_halted("btcusdt"));
    assert!(!safety.can_submit("btcusdt", 1_000));

    safety.on_market_batch("btcusdt", 1_001, true);
    assert!(safety.is_halted("btcusdt"));
    safety.on_market_batch("btcusdt", 1_002, false);
    assert!(safety.can_submit("btcusdt", 1_002));
}

#[test]
fn kill_switch_latches_every_symbol_until_process_restart() {
    let mut safety = SafetyState::new(1_000, vec!["btcusdt".to_string(), "ethusdt".to_string()]);
    safety.on_market_batch("btcusdt", 0, false);
    safety.on_market_batch("ethusdt", 0, false);

    assert!(safety.trip_kill_switch());
    assert!(!safety.trip_kill_switch());
    for symbol in ["btcusdt", "ethusdt"] {
        safety.on_market_batch(symbol, 1, false);
        assert!(safety.is_halted(symbol));
        assert!(!safety.can_submit(symbol, 1));
    }
}

#[test]
fn account_disconnect_invalidates_every_reconciled_symbol() {
    let mut readiness = AccountReadiness::default();
    readiness.observe_position("btcusdt", 1, true);
    readiness.observe_position("ethusdt", 1, true);
    readiness.reconcile("btcusdt");
    readiness.reconcile("ethusdt");
    assert!(readiness.contains("btcusdt"));
    assert!(readiness.contains("ethusdt"));

    readiness.disconnect();
    assert!(!readiness.contains("btcusdt"));
    assert!(!readiness.contains("ethusdt"));

    readiness.observe_position("btcusdt", 2, true);
    readiness.reconcile("btcusdt");
    assert!(readiness.contains("btcusdt"));
    assert!(!readiness.contains("ethusdt"));
}

/// Whether an order's executed quantity counts as a fill: finite and positive.
fn has_executed(exec_qty: f64) -> bool {
    exec_qty.is_finite() && exec_qty > 0.0
}

#[test]
fn account_deltas_cannot_bypass_the_startup_snapshot_barrier() {
    let mut readiness = AccountReadiness::default();
    // Order 11 of 0.001 at tick 1_000, filled in full at exchange time 200.
    let fill_qty = 0.001;
    readiness.observe_order("btcusdt", Status::Filled, has_executed(fill_qty), 200);
    readiness.observe_position("btcusdt", 200, true);

    assert!(
        !readiness.contains("btcusdt"),
        "account deltas alone must not authorize execution before recovery is ready"
    );
}

#[test]
fn canceled_order_with_historical_fills_does_not_wait_for_a_new_position_event() {
    let mut readiness = AccountReadiness::default();
    readiness.observe_position("btcusdt", 100, true);
    assert!(readiness.reconcile("btcusdt"));
    // Order 12, canceled at exchange time 200 after 0.0005 of it had filled.
    let exec_qty = 0.0005;
    readiness.observe_order("btcusdt", Status::Canceled, has_executed(exec_qty), 200);

    assert!(readiness.contains("btcusdt"));
}

#[test]
fn a_halted_symbol_is_never_ready_again() {
    let mut readiness = AccountReadiness::default();
    readiness.observe_position("btcusdt", 1, true);
    readiness.observe_position("ethusdt", 1, true);
    assert!(readiness.reconcile("btcusdt"));
    assert!(readiness.reconcile("ethusdt"));

    readiness.halt("btcusdt");

    assert!(!readiness.contains("btcusdt"));
    assert!(readiness.contains("ethusdt"));
    assert!(!readiness.reconcile("btcusdt"));
    readiness.observe_position("btcusdt", 5, true);
    readiness.disconnect();
    readiness.observe_position("btcusdt", 6, true);
    assert!(!readiness.reconcile("btcusdt"));
    assert!(!readiness.contains("btcusdt"));
}
