use hftlive::ports::RunMode;
use hftlive::service::{LiveSupervisor, ServiceAction, ServiceEvent};
use hftlive::types::Status;

fn btc() -> String {
    "btcusdt".to_string()
}

fn batch(now_ms: u64) -> ServiceEvent {
    ServiceEvent::MarketBatch { symbol: btc(), now_ms, has_open_orders: false }
}

fn ready_supervisor() -> LiveSupervisor {
    let mut service = LiveSupervisor::new(RunMode::Execute, 1_000, vec![btc()], false);
    service.on_event(&ServiceEvent::Position { symbol: btc(), exch_ts: 10, applied: true });
    assert_eq!(
        service.on_event(&ServiceEvent::AccountSnapshotReady { symbol: btc() }),
        ServiceAction::CancelSafetyOrders
    );
    service
}

#[test]
fn a_dry_run_lets_the_strategy_decide_on_every_batch() {
    let mut service = LiveSupervisor::new(RunMode::DryRun, 1_000, vec![btc()], false);

    assert_eq!(service.on_event(&batch(5)), ServiceAction::Decide);
}

#[test]
fn trading_waits_for_the_account_snapshot() {
    let mut service = LiveSupervisor::new(RunMode::Execute, 1_000, vec![btc()], false);

    assert_eq!(service.on_event(&batch(5)), ServiceAction::Nothing);

    service.on_event(&ServiceEvent::Position { symbol: btc(), exch_ts: 10, applied: true });
    service.on_event(&ServiceEvent::AccountSnapshotReady { symbol: btc() });

    assert_eq!(service.on_event(&batch(6)), ServiceAction::Decide);
}

#[test]
fn a_fill_without_its_position_update_pauses_trading() {
    let mut service = ready_supervisor();
    service.on_event(&ServiceEvent::Order { symbol: btc(), status: Status::Filled, executed: true, exch_ts: 20 });

    assert_eq!(service.on_event(&batch(5)), ServiceAction::Nothing);

    service.on_event(&ServiceEvent::Position { symbol: btc(), exch_ts: 20, applied: true });

    assert_eq!(service.on_event(&batch(6)), ServiceAction::Decide);
}

#[test]
fn an_uncertain_execution_halts_the_symbol_for_good() {
    let mut service = ready_supervisor();

    assert_eq!(
        service.on_event(&ServiceEvent::ExecutionUncertain { symbol: btc() }),
        ServiceAction::CancelSafetyOrders
    );
    service.on_event(&ServiceEvent::Position { symbol: btc(), exch_ts: 30, applied: true });
    service.on_event(&ServiceEvent::AccountSnapshotReady { symbol: btc() });

    assert_eq!(service.on_event(&batch(7)), ServiceAction::Nothing);
    assert!(!service.readiness().contains("btcusdt"));
}

#[test]
fn a_dropped_account_stream_requires_a_new_snapshot() {
    let mut service = ready_supervisor();

    assert_eq!(service.on_event(&ServiceEvent::AccountStreamDisconnected), ServiceAction::CancelSafetyOrders);
    assert_eq!(service.on_event(&batch(8)), ServiceAction::Nothing);

    service.on_event(&ServiceEvent::Position { symbol: btc(), exch_ts: 40, applied: true });
    service.on_event(&ServiceEvent::AccountSnapshotReady { symbol: btc() });

    assert_eq!(service.on_event(&batch(9)), ServiceAction::Decide);
}

#[test]
fn a_stale_market_blocks_trading_until_fresh_data_arrives() {
    let mut service = ready_supervisor();
    service.on_event(&batch(0));

    assert_eq!(
        service.on_event(&ServiceEvent::Tick { now_ms: 1_500, kill_switch_active: false }),
        ServiceAction::CancelSafetyOrders
    );
    assert!(service.safety().is_halted("btcusdt"));
    assert_eq!(service.on_event(&batch(1_600)), ServiceAction::Decide);
}

#[test]
fn the_kill_switch_latches_every_symbol() {
    let mut service = ready_supervisor();

    service.on_event(&ServiceEvent::Tick { now_ms: 10, kill_switch_active: true });
    service.on_event(&ServiceEvent::Tick { now_ms: 20, kill_switch_active: false });

    assert!(service.safety().kill_latched());
    assert_eq!(service.on_event(&batch(30)), ServiceAction::Nothing);
}

#[test]
fn a_kill_switch_set_at_start_blocks_trading_from_the_first_batch() {
    let mut service = LiveSupervisor::new(RunMode::Execute, 1_000, vec![btc()], true);
    service.on_event(&ServiceEvent::Position { symbol: btc(), exch_ts: 10, applied: true });
    service.on_event(&ServiceEvent::AccountSnapshotReady { symbol: btc() });

    assert_eq!(service.on_event(&batch(5)), ServiceAction::Nothing);
}

#[test]
fn events_of_symbols_the_service_does_not_run_change_nothing() {
    let mut service = LiveSupervisor::new(RunMode::Execute, 1_000, vec![btc()], false);
    service.on_event(&ServiceEvent::Position { symbol: "ethusdt".to_string(), exch_ts: 10, applied: true });
    service.on_event(&ServiceEvent::AccountSnapshotReady { symbol: "ethusdt".to_string() });

    assert!(!service.readiness().contains("ethusdt"));
}
