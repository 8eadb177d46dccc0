use hftlive::binance::BinanceFuturesError;
use hftlive::id::ClientOrderIdCodec;
use hftlive::orders::{OrderManager, OrderResponse, OrderTradeUpdate, TrackedOrder};
use hftlive::types::{OrdType, Side, Status, TimeInForce};

/// Price tick and tick size of an order; quantities (qty, leaves, executed).
type Base = (i64, f64);
type Fill = (f64, f64, f64);

fn manager() -> OrderManager<Base, Fill> {
    OrderManager::new(ClientOrderIdCodec::new("strategy-a").unwrap())
}

fn new_order(order_id: u64) -> TrackedOrder<Base, Fill> {
    TrackedOrder {
        order_id,
        status: Status::NoStatus,
        req: Status::New,
        exch_timestamp: 0,
        exec_price_tick: 0,
        side: Side::Buy,
        time_in_force: TimeInForce::GTC,
        order_type: OrdType::Limit,
        base: (1000, 0.1),
        fill: (1.0, 1.0, 0.0),
    }
}

fn trade_update(cid: &str, time_ms: i64, status: Status, fill: Fill) -> OrderTradeUpdate<Fill> {
    OrderTradeUpdate {
        client_order_id: cid.to_string(),
        transaction_time: time_ms,
        order_status: status,
        side: Side::Buy,
        time_in_force: TimeInForce::GTC,
        order_type: OrdType::Limit,
        exec_price_tick: 1000,
        fill,
    }
}

fn rest_response(time_ms: i64, status: Status, fill: Fill) -> OrderResponse<Fill> {
    OrderResponse {
        update_time: time_ms,
        status,
        side: Side::Buy,
        time_in_force: TimeInForce::GTC,
        ty: OrdType::Limit,
        fill,
    }
}

#[test]
fn prepared_order_is_found_and_duplicates_are_refused() {
    let mut m = manager();
    let cid = m.prepare_client_order_id("btcusdt".to_string(), new_order(7)).unwrap();
    assert!(cid.starts_with("strategy-a-v1-7-"));
    assert_eq!(m.get_client_order_id("btcusdt", 7), Some(cid.clone()));
    assert_eq!(m.get_client_order_id("ethusdt", 7), None);
    assert_eq!(m.prepare_client_order_id("btcusdt".to_string(), new_order(7)), None);
    assert!(m.prepare_client_order_id("ethusdt".to_string(), new_order(7)).is_some());
}

#[test]
fn a_taken_client_order_id_is_refused() {
    let mut m = manager();
    let first = m
        .prepare_with_client_order_id("btcusdt".to_string(), new_order(1), "strategy-a-v1-1-AAAAAA".to_string())
        .unwrap();
    assert_eq!(first, "strategy-a-v1-1-AAAAAA");
    assert_eq!(
        m.prepare_with_client_order_id("ethusdt".to_string(), new_order(2), "strategy-a-v1-1-AAAAAA".to_string()),
        None
    );
    assert_eq!(m.get_client_order_id("ethusdt", 2), None);
}

#[test]
fn stream_then_rest_end_reports_once_and_then_forgets_the_order() {
    let mut m = manager();
    let cid = m.prepare_client_order_id("btcusdt".to_string(), new_order(3)).unwrap();

    let open = m
        .update_from_ws(&trade_update(&cid, 1_000, Status::New, (1.0, 1.0, 0.0)))
        .unwrap()
        .unwrap();
    assert_eq!(open.status, Status::New);
    assert_eq!(open.exch_timestamp, 1_000_000_000);
    assert_eq!(m.active_orders("btcusdt").len(), 1);

    let filled = m
        .update_from_ws(&trade_update(&cid, 2_000, Status::Filled, (1.0, 0.0, 1.0)))
        .unwrap()
        .unwrap();
    assert_eq!(filled.status, Status::Filled);
    assert_eq!(filled.fill, (1.0, 0.0, 1.0));
    assert_eq!(filled.base, (1000, 0.1));
    assert_eq!(m.get_client_order_id("btcusdt", 3), None);
    assert!(m.active_orders("btcusdt").is_empty());

    // The REST answer to the submission arrives late: not passed on, and the order leaves.
    assert!(m.update_from_rest(&cid, &rest_response(1_500, Status::New, (1.0, 1.0, 0.0))).is_none());
    assert!(matches!(
        m.update_from_ws(&trade_update(&cid, 3_000, Status::Filled, (1.0, 0.0, 1.0))),
        Err(BinanceFuturesError::OrderNotFound)
    ));
}

#[test]
fn an_older_update_does_not_roll_back_a_newer_one() {
    let mut m = manager();
    let cid = m.prepare_client_order_id("btcusdt".to_string(), new_order(4)).unwrap();
    m.update_from_ws(&trade_update(&cid, 2_000, Status::PartiallyFilled, (1.0, 0.5, 0.5)))
        .unwrap();
    let kept = m
        .update_from_rest(&cid, &rest_response(1_000, Status::New, (1.0, 1.0, 0.0)))
        .unwrap();
    assert_eq!(kept.status, Status::PartiallyFilled);
    assert_eq!(kept.fill, (1.0, 0.5, 0.5));
    assert_eq!(kept.exch_timestamp, 2_000_000_000);
    assert_eq!(kept.req, Status::New);
}

#[test]
fn a_rest_response_settles_the_request_in_flight() {
    let mut m = manager();
    let cid = m.prepare_client_order_id("btcusdt".to_string(), new_order(5)).unwrap();
    let order = m
        .update_from_rest(&cid, &rest_response(1_000, Status::New, (1.0, 1.0, 0.0)))
        .unwrap();
    assert_eq!(order.req, Status::NoStatus);
    assert_eq!(order.status, Status::New);
    assert_eq!(m.get_client_order_id("btcusdt", 5), Some(cid));
}

#[test]
fn stream_updates_of_other_or_broken_ids_are_refused() {
    let mut m = manager();
    assert!(matches!(
        m.update_from_ws(&trade_update("other-v1-1-AbCd12", 1, Status::New, (0.0, 0.0, 0.0))),
        Err(BinanceFuturesError::PrefixUnmatched)
    ));
    assert!(matches!(
        m.update_from_ws(&trade_update("strategy-a-v1-1-bad!id", 1, Status::New, (0.0, 0.0, 0.0))),
        Err(BinanceFuturesError::MalformedClientOrderId)
    ));
    assert!(matches!(
        m.update_from_ws(&trade_update("strategy-a-v1-1-AbCd12", 1, Status::New, (0.0, 0.0, 0.0))),
        Err(BinanceFuturesError::OrderNotFound)
    ));
}

#[test]
fn failed_submission_expires_the_order() {
    let mut m = manager();
    let cid = m.prepare_client_order_id("btcusdt".to_string(), new_order(6)).unwrap();
    let error = BinanceFuturesError::OrderError { code: -5022, msg: "post only".to_string() };
    let order = m.update_submit_fail(&cid, &error).unwrap();
    assert_eq!(order.status, Status::Expired);
    assert_eq!(order.req, Status::NoStatus);
    assert_eq!(m.get_client_order_id("btcusdt", 6), None);
    assert!(m.update_submit_fail(&cid, &error).is_none());
}

#[test]
fn failed_cancel_of_an_unknown_order_leaves_its_status_unknown() {
    let mut m = manager();
    let cid = m.prepare_client_order_id("btcusdt".to_string(), new_order(8)).unwrap();
    m.update_from_ws(&trade_update(&cid, 1_000, Status::New, (1.0, 1.0, 0.0))).unwrap();

    let other = BinanceFuturesError::OrderError { code: -1001, msg: "disconnected".to_string() };
    let still = m.update_cancel_fail(&cid, &other).unwrap();
    assert_eq!(still.status, Status::New);
    assert_eq!(m.get_client_order_id("btcusdt", 8), Some(cid.clone()));

    let unknown = BinanceFuturesError::OrderError { code: -2011, msg: "Unknown order sent.".to_string() };
    let gone = m.update_cancel_fail(&cid, &unknown).unwrap();
    assert_eq!(gone.status, Status::NoStatus);
    assert_eq!(m.get_client_order_id("btcusdt", 8), None);
}

#[test]
fn gc_drops_stale_ended_orders_and_keeps_active_ones() {
    let mut m = manager();
    let ended = m.prepare_client_order_id("btcusdt".to_string(), new_order(10)).unwrap();
    let live = m.prepare_client_order_id("btcusdt".to_string(), new_order(11)).unwrap();
    m.update_from_ws(&trade_update(&ended, 1_000, Status::Canceled, (1.0, 1.0, 0.0))).unwrap();
    m.update_from_ws(&trade_update(&live, 1_000, Status::New, (1.0, 1.0, 0.0))).unwrap();

    // 300 s after the cancel the order is not yet stale: it still waits for the REST channel.
    m.gc_at(1_000_000_000 + 300_000_000_000);
    assert!(matches!(
        m.update_from_ws(&trade_update(&ended, 500, Status::Canceled, (1.0, 1.0, 0.0))),
        Ok(None)
    ));
    assert!(m.update_from_rest(&ended, &rest_response(500, Status::New, (1.0, 1.0, 0.0))).is_none());
    assert!(matches!(
        m.update_from_ws(&trade_update(&ended, 500, Status::Canceled, (1.0, 1.0, 0.0))),
        Err(BinanceFuturesError::OrderNotFound)
    ));

    let ended2 = m.prepare_client_order_id("btcusdt".to_string(), new_order(12)).unwrap();
    m.update_from_ws(&trade_update(&ended2, 1_000, Status::Canceled, (1.0, 1.0, 0.0))).unwrap();
    m.gc_at(1_000_000_001 + 300_000_000_000);
    assert!(matches!(
        m.update_from_ws(&trade_update(&ended2, 1_000, Status::Canceled, (1.0, 1.0, 0.0))),
        Err(BinanceFuturesError::OrderNotFound)
    ));
    assert_eq!(m.active_orders("btcusdt").len(), 1);
    assert_eq!(m.get_client_order_id("btcusdt", 11), Some(live));
}

#[test]
fn active_orders_lists_only_open_orders_of_the_symbol() {
    let mut m = manager();
    let a = m.prepare_client_order_id("btcusdt".to_string(), new_order(20)).unwrap();
    let b = m.prepare_client_order_id("ethusdt".to_string(), new_order(21)).unwrap();
    let c = m.prepare_client_order_id("btcusdt".to_string(), new_order(22)).unwrap();
    // A submission is listed as soon as it is tracked, before any answer.
    assert_eq!(m.active_orders("btcusdt").len(), 2);
    m.update_from_ws(&trade_update(&a, 1, Status::New, (1.0, 1.0, 0.0))).unwrap();
    m.update_from_ws(&trade_update(&b, 1, Status::New, (1.0, 1.0, 0.0))).unwrap();
    m.update_from_ws(&trade_update(&c, 1, Status::Rejected, (1.0, 1.0, 0.0))).unwrap();
    let listed = m.active_orders("btcusdt");
    assert_eq!(listed.len(), 1);
    assert_eq!(listed[0].order_id, 20);
}

#[test]
fn submit_is_tracked_before_the_async_http_request_starts() {
    let mut m = manager();
    m.prepare_client_order_id("btcusdt".to_string(), new_order(84)).unwrap();
    assert_eq!(m.active_orders("btcusdt").len(), 1);
}

#[test]
fn gc_keeps_in_flight_submissions() {
    let mut m = manager();
    let cid = m.prepare_client_order_id("btcusdt".to_string(), new_order(30)).unwrap();
    m.gc_at(1_000_000_000_000_000);
    assert_eq!(m.active_orders("btcusdt").len(), 1);
    assert_eq!(m.get_client_order_id("btcusdt", 30), Some(cid));
}
