use hftlive::grid::{
    cancellable, quote_old_enough, reconcile_quotes, DesiredQuote, GridOrder, GridParams,
    StrategyCommand,
};
use hftlive::types::{OrdType, Side, Status, TimeInForce};

fn quote(price_tick: i64, side: Side) -> DesiredQuote<f64> {
    DesiredQuote {
        order_id: price_tick as u64,
        price_tick,
        price: price_tick as f64 * 0.1,
        qty: 0.01,
        side,
        matched: false,
    }
}

fn order(order_id: u64, price_tick: i64, side: Side, local_timestamp: i64) -> GridOrder {
    GridOrder {
        order_id,
        price_tick,
        side,
        status: Status::New,
        req: Status::NoStatus,
        local_timestamp,
    }
}

fn params(emergency_inventory: bool, timestamp: i64) -> GridParams {
    GridParams {
        emergency_inventory,
        timestamp,
        requote_ticks: 5,
        min_quote_lifetime_ms: 500,
    }
}

fn all_match(orders: usize, quotes: usize) -> Vec<Vec<bool>> {
    vec![vec![true; quotes]; orders]
}

fn cancels(commands: &[StrategyCommand<f64>]) -> Vec<u64> {
    commands
        .iter()
        .filter_map(|c| match c {
            StrategyCommand::Cancel { order_id } => Some(*order_id),
            _ => None,
        })
        .collect()
}

fn submits(commands: &[StrategyCommand<f64>]) -> Vec<u64> {
    commands
        .iter()
        .filter_map(|c| match c {
            StrategyCommand::Submit { order_id, .. } => Some(*order_id),
            _ => None,
        })
        .collect()
}

#[test]
fn old_enough_counts_the_minimum_lifetime_in_nanoseconds() {
    assert!(quote_old_enough(1_500_000_000, 1_000_000_000, 500));
    assert!(!quote_old_enough(1_100_000_000, 1_000_000_000, 500));
    assert!(quote_old_enough(1_100_000_000, 0, 500));
    assert!(quote_old_enough(0, 1_000_000_000, 500));
    assert!(!quote_old_enough(i64::MAX, 1, u64::MAX));
}

#[test]
fn only_live_orders_without_a_request_are_cancellable() {
    let mut o = order(1, 100, Side::Buy, 1);
    assert!(cancellable(&o));
    o.status = Status::PartiallyFilled;
    assert!(cancellable(&o));
    o.req = Status::Canceled;
    assert!(!cancellable(&o));
    o.req = Status::NoStatus;
    o.status = Status::Filled;
    assert!(!cancellable(&o));
}

#[test]
fn an_empty_book_of_quotes_asks_for_nothing() {
    let orders = vec![order(1, 100, Side::Buy, 1)];
    let commands = reconcile_quotes::<f64>(vec![], &orders, &all_match(1, 0), params(true, 10));
    assert!(commands.is_empty());
}

#[test]
fn quotes_without_orders_are_submitted_post_only() {
    let desired = vec![quote(999, Side::Buy), quote(1002, Side::Sell)];
    let commands = reconcile_quotes(desired, &vec![], &vec![], params(false, 10));
    assert_eq!(commands.len(), 2);
    match commands[0] {
        StrategyCommand::Submit { order_id, side, time_in_force, order_type, qty, .. } => {
            assert_eq!(order_id, 999);
            assert_eq!(side, Side::Buy);
            assert_eq!(time_in_force, TimeInForce::GTX);
            assert_eq!(order_type, OrdType::Limit);
            assert_eq!(qty, 0.01);
        }
        _ => panic!("expected a submission"),
    }
    assert_eq!(submits(&commands), vec![999, 1002]);
}

#[test]
fn requote_hysteresis_keeps_a_nearby_order() {
    let desired = vec![quote(999, Side::Buy), quote(998, Side::Buy)];
    let orders = vec![order(7, 1001, Side::Buy, 1)];
    let commands = reconcile_quotes(desired, &orders, &all_match(1, 2), params(false, 2_000_000_000));
    assert!(cancels(&commands).is_empty());
    // The nearest quote is taken by the kept order; the other is submitted.
    assert_eq!(submits(&commands), vec![998]);
}

#[test]
fn a_different_size_replaces_the_order() {
    let desired = vec![quote(999, Side::Buy)];
    let orders = vec![order(7, 999, Side::Buy, 1)];
    let commands = reconcile_quotes(desired, &orders, &vec![vec![false]], params(false, 2_000_000_000));
    assert_eq!(cancels(&commands), vec![7]);
    // The replacement waits for the cancel to complete.
    assert!(submits(&commands).is_empty());
}

#[test]
fn minimum_quote_lifetime_blocks_early_cancel() {
    let desired = vec![quote(999, Side::Buy)];
    let orders = vec![order(900, 900, Side::Buy, 1_000_000_000)];
    let commands = reconcile_quotes(desired, &orders, &all_match(1, 1), params(false, 1_100_000_000));
    assert!(cancels(&commands).is_empty());
    assert!(submits(&commands).is_empty());
}

#[test]
fn stop_zone_cancels_without_waiting_for_the_lifetime() {
    let desired = vec![quote(1002, Side::Sell)];
    let orders = vec![order(900, 990, Side::Buy, 1_000_000_000)];
    let commands = reconcile_quotes(desired, &orders, &all_match(1, 1), params(true, 1_100_000_000));
    assert_eq!(cancels(&commands), vec![900]);
    assert_eq!(submits(&commands), vec![1002]);
}

#[test]
fn a_quote_under_an_open_order_id_is_not_submitted() {
    let desired = vec![quote(1002, Side::Sell), quote(999, Side::Buy)];
    let mut pending = order(999, 950, Side::Sell, 1);
    pending.req = Status::New;
    let commands = reconcile_quotes(desired, &vec![pending], &all_match(1, 2), params(false, 2_000_000_000));
    // The sell order cannot be canceled, so it keeps the sell quote; the buy quote shares its id.
    assert!(cancels(&commands).is_empty());
    assert!(submits(&commands).is_empty());
}

#[test]
fn the_earliest_of_equally_near_quotes_is_taken() {
    let desired = vec![quote(998, Side::Buy), quote(1002, Side::Buy)];
    let orders = vec![order(7, 1000, Side::Buy, 1)];
    let commands = reconcile_quotes(desired, &orders, &all_match(1, 2), params(false, 2_000_000_000));
    assert!(cancels(&commands).is_empty());
    assert_eq!(submits(&commands), vec![1002]);
}
