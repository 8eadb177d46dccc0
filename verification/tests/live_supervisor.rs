use hftlive::ports::RunMode;
use hftlive::readiness::AccountReadiness;
use hftlive::safety::SafetyState;
use hftlive::supervisor::{
    execution_allowed, kill_switch_is_active, safety_tick_ms, shutdown_progress, KillSwitchLookup,
    SafetyCancels, ShutdownProgress,
};

fn halted_btc() -> SafetyState {
    let mut safety = SafetyState::new(1_000, vec!["btcusdt".to_string(), "ethusdt".to_string()]);
    safety.halt_symbol("btcusdt");
    safety
}

#[test]
fn halted_symbol_orders_are_canceled_and_retried_after_the_interval() {
    let safety = halted_btc();
    let mut cancels = SafetyCancels::new();
    assert_eq!(cancels.plan(RunMode::Execute, &safety, "btcusdt", &vec![7, 8], 1_000), vec![0, 1]);
    assert!(cancels.plan(RunMode::Execute, &safety, "btcusdt", &vec![7, 8], 1_249).is_empty());
    assert_eq!(cancels.plan(RunMode::Execute, &safety, "btcusdt", &vec![7, 8], 1_250), vec![0, 1]);
}

#[test]
fn an_order_listed_twice_is_canceled_once() {
    let safety = halted_btc();
    let mut cancels = SafetyCancels::new();
    assert_eq!(cancels.plan(RunMode::Execute, &safety, "btcusdt", &vec![7, 7, 9], 0), vec![0, 2]);
}

#[test]
fn a_closed_order_is_forgotten_and_canceled_at_once_if_it_reappears() {
    let safety = halted_btc();
    let mut cancels = SafetyCancels::new();
    assert_eq!(cancels.plan(RunMode::Execute, &safety, "btcusdt", &vec![7], 100), vec![0]);
    assert!(cancels.plan(RunMode::Execute, &safety, "btcusdt", &vec![], 150).is_empty());
    assert_eq!(cancels.plan(RunMode::Execute, &safety, "btcusdt", &vec![7], 200), vec![0]);
}

#[test]
fn no_safety_cancels_in_a_dry_run_or_on_a_healthy_symbol() {
    let safety = halted_btc();
    let mut cancels = SafetyCancels::new();
    assert!(cancels.plan(RunMode::DryRun, &safety, "btcusdt", &vec![7], 0).is_empty());
    assert!(cancels.plan(RunMode::Execute, &safety, "ethusdt", &vec![7], 0).is_empty());
}

#[test]
fn execution_needs_a_ready_account_and_a_fresh_market() {
    let mut readiness = AccountReadiness::new();
    let mut safety = SafetyState::new(1_000, vec!["btcusdt".to_string()]);
    safety.on_market_batch("btcusdt", 10, false);
    assert!(execution_allowed(RunMode::DryRun, &readiness, &safety, "btcusdt", 10));
    assert!(!execution_allowed(RunMode::Execute, &readiness, &safety, "btcusdt", 10));

    readiness.observe_position("btcusdt", 5, true);
    assert!(readiness.reconcile("btcusdt"));
    assert!(execution_allowed(RunMode::Execute, &readiness, &safety, "btcusdt", 10));
    assert!(!execution_allowed(RunMode::Execute, &readiness, &safety, "btcusdt", 1_010));

    safety.trip_kill_switch();
    assert!(!execution_allowed(RunMode::Execute, &readiness, &safety, "btcusdt", 10));
}

#[test]
fn safety_clock_runs_at_a_quarter_of_the_timeout_within_bounds() {
    assert_eq!(safety_tick_ms(5_000), 250);
    assert_eq!(safety_tick_ms(400), 100);
    assert_eq!(safety_tick_ms(40), 25);
    assert_eq!(safety_tick_ms(0), 25);
}

#[test]
fn shutdown_waits_for_cancels_until_its_deadline() {
    assert_eq!(shutdown_progress(0, 500, 100), ShutdownProgress::Complete);
    assert_eq!(shutdown_progress(2, 50, 100), ShutdownProgress::Waiting);
    assert_eq!(shutdown_progress(2, 100, 100), ShutdownProgress::TimedOut(2));
}

#[test]
fn kill_switch_fails_closed_when_its_file_cannot_be_read() {
    assert!(!kill_switch_is_active(None));
    assert!(kill_switch_is_active(Some(KillSwitchLookup::Present)));
    assert!(!kill_switch_is_active(Some(KillSwitchLookup::Missing)));
    assert!(kill_switch_is_active(Some(KillSwitchLookup::Unreadable)));
}
