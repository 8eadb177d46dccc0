use hftlive::in_flight::{CancelPoll, InFlight};
use hftlive::binance::{BinanceFuturesError, TransportFailure};
use hftlive::id::ClientOrderIdCodec;
use hftlive::order_flow::{
    cancel_still_tracked, on_cancel_query, on_cancel_reconciled, on_cancel_result, on_submit_give_up,
    on_submit_query, on_submit_result, refused_submission, CancelNext, Publication, SubmitNext,
};
use hftlive::orders::{OrderManager, OrderResponse, TrackedOrder};
use hftlive::types::{OrdType, Side, Status, TimeInForce};

type Fill = (f64, f64, f64);

fn manager() -> OrderManager<(), Fill> {
    OrderManager::new(ClientOrderIdCodec::new("strategy-a").unwrap())
}

fn order(order_id: u64) -> TrackedOrder<(), Fill> {
    TrackedOrder {
        order_id,
        status: Status::NoStatus,
        req: Status::New,
        exch_timestamp: 0,
        exec_price_tick: 0,
        side: Side::Buy,
        time_in_force: TimeInForce::GTC,
        order_type: OrdType::Limit,
        base: (),
        fill: (1.0, 1.0, 0.0),
    }
}

fn response(status: Status) -> OrderResponse<Fill> {
    OrderResponse {
        update_time: 1_234,
        status,
        side: Side::Buy,
        time_in_force: TimeInForce::GTC,
        ty: OrdType::Limit,
        fill: (1.0, 1.0, 0.0),
    }
}

fn order_error(code: i64) -> BinanceFuturesError {
    BinanceFuturesError::OrderError { code, msg: "rejected".to_string() }
}

#[test]
fn accepted_submission_publishes_the_new_order() {
    let mut m = manager();
    let cid = m.prepare_client_order_id("btcusdt".to_string(), order(1)).unwrap();
    let step = on_submit_result(&mut m, &cid, Side::Buy, Ok(response(Status::New)));
    assert_eq!(step.next, SubmitNext::Done);
    assert_eq!(step.publish.len(), 1);
    assert!(matches!(&step.publish[0], Publication::Order(o) if o.status == Status::New && o.exch_timestamp == 1_234_000_000));
}

#[test]
fn position_cap_rejection_is_published_before_the_expired_order() {
    let mut m = manager();
    let cid = m.prepare_client_order_id("btcusdt".to_string(), order(41)).unwrap();
    let step = on_submit_result(&mut m, &cid, Side::Buy, Err(order_error(-2027)));
    assert_eq!(step.next, SubmitNext::Done);
    assert_eq!(step.publish.len(), 3);
    assert!(matches!(step.publish[0], Publication::CapacityRejected { side: Side::Buy, code: -2027 }));
    assert!(matches!(&step.publish[1], Publication::Order(o) if o.status == Status::Expired));
    assert!(matches!(step.publish[2], Publication::OrderError(BinanceFuturesError::OrderError { code: -2027, .. })));
    assert_eq!(m.get_client_order_id("btcusdt", 41), None);
}

#[test]
fn ambiguous_submission_is_queried_and_never_expired() {
    let mut m = manager();
    let cid = m.prepare_client_order_id("btcusdt".to_string(), order(42)).unwrap();
    let failure = BinanceFuturesError::ReqError(TransportFailure {
        status: None,
        message: "timed out".to_string(),
        timed_out: true,
        undecodable: false,
    });
    let step = on_submit_result(&mut m, &cid, Side::Buy, Err(failure));
    assert!(step.publish.is_empty());
    assert_eq!(step.next, SubmitNext::Query(0));
    assert_eq!(m.get_client_order_id("btcusdt", 42), Some(cid.clone()));

    let miss = on_submit_query(&mut m, &cid, 0, None);
    assert_eq!((miss.sleep_ms, miss.next), (50, SubmitNext::Query(1)));
    let miss = on_submit_query(&mut m, &cid, 1, None);
    assert_eq!((miss.sleep_ms, miss.next), (150, SubmitNext::Query(2)));
    let miss = on_submit_query(&mut m, &cid, 2, None);
    assert_eq!((miss.sleep_ms, miss.next), (300, SubmitNext::GiveUp));
    assert_eq!(m.get_client_order_id("btcusdt", 42), Some(cid.clone()));

    let give_up = on_submit_give_up::<(), Fill>(order_error(-1099));
    assert!(matches!(give_up[0], Publication::ExecutionUncertain));
    assert!(matches!(give_up[1], Publication::OrderError(_)));
}

#[test]
fn ambiguous_submission_found_by_query_is_confirmed_without_an_error() {
    let mut m = manager();
    let cid = m.prepare_client_order_id("btcusdt".to_string(), order(43)).unwrap();
    let step = on_submit_result(&mut m, &cid, Side::Buy, Err(order_error(-1099)));
    assert_eq!(step.next, SubmitNext::Query(0));
    let found = on_submit_query(&mut m, &cid, 0, Some(response(Status::New)));
    assert_eq!(found.next, SubmitNext::Done);
    assert_eq!(found.publish.len(), 1);
    assert!(matches!(&found.publish[0], Publication::Order(o) if o.status == Status::New));
}

#[test]
fn cancel_of_an_unknown_order_queries_then_reconciles() {
    let mut m = manager();
    let cid = m.prepare_client_order_id("btcusdt".to_string(), order(86)).unwrap();
    assert!(cancel_still_tracked(&m, "btcusdt", 86, &cid));
    assert!(!cancel_still_tracked(&m, "btcusdt", 86, "strategy-a-v1-2e-AAAAAA"));

    let step = on_cancel_result(&mut m, &cid, Err(order_error(-2011)));
    assert!(step.publish.is_empty());
    assert_eq!(step.next, CancelNext::Query);

    let lookup = on_cancel_query(&mut m, &cid, Ok(None), order_error(-2011));
    assert_eq!(lookup.next, CancelNext::Reconcile);
    assert!(matches!(lookup.publish[0], Publication::AccountReconciliationStarted));

    assert!(on_cancel_reconciled::<(), Fill>(true, order_error(-2011)).is_empty());
    let failed = on_cancel_reconciled::<(), Fill>(false, order_error(-2011));
    assert!(matches!(failed[0], Publication::ExecutionUncertain));
}

#[test]
fn cancel_answer_and_other_failures_update_the_order() {
    let mut m = manager();
    let cid = m.prepare_client_order_id("btcusdt".to_string(), order(87)).unwrap();
    on_submit_result(&mut m, &cid, Side::Buy, Ok(response(Status::New)));

    let failed = on_cancel_result(&mut m, &cid, Err(order_error(-1001)));
    assert_eq!(failed.next, CancelNext::Done);
    assert!(matches!(&failed.publish[0], Publication::Order(o) if o.status == Status::New && o.req == Status::NoStatus));
    assert!(matches!(failed.publish[1], Publication::OrderError(_)));

    let canceled = on_cancel_result(&mut m, &cid, Ok(response(Status::Canceled)));
    assert!(matches!(&canceled.publish[0], Publication::Order(o) if o.status == Status::Canceled));
    assert_eq!(m.get_client_order_id("btcusdt", 87), None);
}

#[test]
fn an_untrackable_submission_is_expired_locally() {
    let refused = refused_submission(order(9));
    assert_eq!(refused.status, Status::Expired);
    assert_eq!(refused.req, Status::NoStatus);
    assert_eq!(refused.order_id, 9);
}

#[test]
fn a_cancel_waits_for_the_submission_of_its_order() {
    let mut in_flight = InFlight::new();
    in_flight.begin_submission("cid-1");

    assert!(in_flight.begin_cancel("cid-1"));
    assert!(!in_flight.begin_cancel("cid-1"));
    assert_eq!(in_flight.poll_cancel("cid-1"), CancelPoll::Wait);
    assert_eq!(in_flight.poll_cancel("cid-2"), CancelPoll::Proceed);

    in_flight.end_submission("cid-1");
    assert_eq!(in_flight.poll_cancel("cid-1"), CancelPoll::Proceed);

    in_flight.end_cancel("cid-1");
    assert!(in_flight.begin_cancel("cid-1"));
}
