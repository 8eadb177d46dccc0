//! What the adapter does with the outcome of each REST step of a submission or a cancel: which
//! order updates and events it publishes, and what it does next. The application performs the
//! requests, sleeps and publications; these functions decide.
//!
//! A submission that may have reached the exchange is never given up locally: the adapter asks
//! for the order by its client order id, and if that stays unresolved it latches execution off
//! for the symbol instead of expiring the order.
use vstd::prelude::*;

use crate::binance::{
    is_definitive_rejection_code, spec_submission_is_ambiguous, BinanceFuturesError,
};
use crate::orders::{
    after_request_failure, after_response, cancel_failure_status, settle_ids, settle_orders,
    settle_report, OrderManager, OrderResponse, TrackedOrder,
};
use crate::types::{Side, Status};

verus! {

/// An event the adapter publishes to the live service about one symbol.
#[derive(Debug)]
pub enum Publication<B, F> {
    /// The order's new state.
    Order(TrackedOrder<B, F>),
    /// A submission on `side` was refused for lack of capacity (position or margin limits).
    CapacityRejected { side: Side, code: i64 },
    /// Whether an order reached the exchange is unknown: execution must stay off.
    ExecutionUncertain,
    /// A reconciliation of the symbol's account state is about to start.
    AccountReconciliationStarted,
    /// A request failed with this error.
    OrderError(BinanceFuturesError),
}

/// What follows a step of a submission.
#[derive(Clone, Copy, Debug, PartialEq, Eq, Structural)]
pub enum SubmitNext {
    Done,
    /// Query the order by its client order id; `attempt` counts from zero.
    Query(usize),
    /// The order could not be found: give up and latch execution off.
    GiveUp,
}

/// What follows a step of a cancel.
#[derive(Clone, Copy, Debug, PartialEq, Eq, Structural)]
pub enum CancelNext {
    Done,
    /// Query the order by its client order id.
    Query,
    /// Reconcile the symbol's account state from REST snapshots.
    Reconcile,
}

/// How many times an ambiguous submission is looked up, and the pause after each miss.
pub open spec fn query_delay_ms(attempt: int) -> u64 {
    if attempt == 0 {
        50
    } else if attempt == 1 {
        150
    } else {
        300
    }
}

pub const SUBMIT_QUERY_ATTEMPTS: usize = 3;

/// The publication of an order update, if there is one.
pub open spec fn report_seq<B, F>(report: Option<TrackedOrder<B, F>>) -> Seq<Publication<B, F>> {
    match report {
        Some(o) => seq![Publication::Order(o)],
        None => Seq::empty(),
    }
}

/// The step that follows the outcome of a submission or a query.
pub struct SubmitStep<B, F> {
    /// What to publish, in this order.
    pub publish: Vec<Publication<B, F>>,
    /// How long to wait before what follows.
    pub sleep_ms: u64,
    pub next: SubmitNext,
}

/// The step that follows the outcome of a cancel or of what it led to.
pub struct CancelStep<B, F> {
    pub publish: Vec<Publication<B, F>>,
    pub next: CancelNext,
}

fn push_report<B: Copy, F: Copy>(out: &mut Vec<Publication<B, F>>, report: Option<TrackedOrder<B, F>>)
    ensures
        final(out)@ == old(out)@ + report_seq(report),
{
    match report {
        Some(o) => {
            out.push(Publication::Order(o));
            assert(final(out)@ =~= old(out)@ + report_seq(report));
        },
        None => {
            assert(out@ =~= old(out)@ + report_seq(report));
        },
    }
}

/// The outcome of submitting the order of `client_order_id`. An answer updates the order; an
/// error that may hide an accepted order leads to queries and changes nothing yet; any other
/// error publishes a capacity rejection first where it is one, then the expired order, then the
/// error.
pub fn on_submit_result<B: Copy, F: Copy>(
    manager: &mut OrderManager<B, F>,
    client_order_id: &String,
    side: Side,
    result: Result<OrderResponse<F>, BinanceFuturesError>,
) -> (r: SubmitStep<B, F>)
    requires
        old(manager).wf(),
        result matches Ok(resp) ==> crate::orders::fits_in_ns(resp.update_time),
    ensures
        final(manager).wf(),
        final(manager).prefix() == old(manager).prefix(),
        r.sleep_ms == 0,
        ({
            let orders = old(manager).orders();
            let ids = old(manager).ids();
            let cid = client_order_id@;
            match result {
                Ok(resp) => {
                    let o = after_response(orders[cid].order, resp);
                    &&& r.publish@ == report_seq(settle_report(orders, cid, o))
                    &&& r.next == SubmitNext::Done
                    &&& final(manager).orders() == settle_orders(orders, cid, o, false)
                    &&& final(manager).ids() == settle_ids(ids, orders, cid, o)
                },
                Err(e) => if spec_submission_is_ambiguous(e) {
                    &&& r.publish@ == Seq::<Publication<B, F>>::empty()
                    &&& r.next == SubmitNext::Query(0)
                    &&& final(manager).orders() == orders
                    &&& final(manager).ids() == ids
                } else {
                    let o = after_request_failure(orders[cid].order, Some(Status::Expired));
                    let capacity = match e {
                        BinanceFuturesError::OrderError { code, .. } => if code == -2027 {
                            seq![Publication::<B, F>::CapacityRejected { side, code }]
                        } else {
                            Seq::empty()
                        },
                        _ => Seq::empty(),
                    };
                    &&& r.publish@ == capacity + report_seq(settle_report(orders, cid, o)) + seq![
                        Publication::OrderError(e),
                    ]
                    &&& r.next == SubmitNext::Done
                    &&& final(manager).orders() == settle_orders(orders, cid, o, false)
                    &&& final(manager).ids() == settle_ids(ids, orders, cid, o)
                },
            }
        }),
{
    let mut publish: Vec<Publication<B, F>> = Vec::new();
    match result {
        Ok(resp) => {
            let report = manager.update_from_rest(client_order_id, &resp);
            push_report(&mut publish, report);
            SubmitStep { publish, sleep_ms: 0, next: SubmitNext::Done }
        },
        Err(error) => {
            if error.submission_is_ambiguous() {
                return SubmitStep { publish, sleep_ms: 0, next: SubmitNext::Query(0) };
            }
            match error.submission_capacity_rejection_code() {
                Some(code) => publish.push(Publication::CapacityRejected { side, code }),
                None => {},
            }
            let report = manager.update_submit_fail(client_order_id, &error);
            push_report(&mut publish, report);
            publish.push(Publication::OrderError(error));
            SubmitStep { publish, sleep_ms: 0, next: SubmitNext::Done }
        },
    }
}


/// The outcome of query `attempt` of an ambiguous submission. A found order is updated and the
/// submission ends without an error event; a miss waits before the next query, and after the
/// last one gives up.
pub fn on_submit_query<B: Copy, F: Copy>(
    manager: &mut OrderManager<B, F>,
    client_order_id: &String,
    attempt: usize,
    found: Option<OrderResponse<F>>,
) -> (r: SubmitStep<B, F>)
    requires
        old(manager).wf(),
        attempt < SUBMIT_QUERY_ATTEMPTS,
        found matches Some(resp) ==> crate::orders::fits_in_ns(resp.update_time),
    ensures
        final(manager).wf(),
        final(manager).prefix() == old(manager).prefix(),
        ({
            let orders = old(manager).orders();
            let ids = old(manager).ids();
            let cid = client_order_id@;
            match found {
                Some(resp) => {
                    let o = after_response(orders[cid].order, resp);
                    &&& r.publish@ == report_seq(settle_report(orders, cid, o))
                    &&& r.sleep_ms == 0
                    &&& r.next == SubmitNext::Done
                    &&& final(manager).orders() == settle_orders(orders, cid, o, false)
                    &&& final(manager).ids() == settle_ids(ids, orders, cid, o)
                },
                None => {
                    &&& r.publish@ == Seq::<Publication<B, F>>::empty()
                    &&& r.sleep_ms == query_delay_ms(attempt as int)
                    &&& r.next == (if attempt + 1 < SUBMIT_QUERY_ATTEMPTS {
                        SubmitNext::Query((attempt + 1) as usize)
                    } else {
                        SubmitNext::GiveUp
                    })
                    &&& final(manager).orders() == orders
                    &&& final(manager).ids() == ids
                },
            }
        }),
{
    let mut publish: Vec<Publication<B, F>> = Vec::new();
    match found {
        Some(resp) => {
            let report = manager.update_from_rest(client_order_id, &resp);
            push_report(&mut publish, report);
            SubmitStep { publish, sleep_ms: 0, next: SubmitNext::Done }
        },
        None => {
            let sleep_ms: u64 = if attempt == 0 {
                50
            } else if attempt == 1 {
                150
            } else {
                300
            };
            let next = if attempt + 1 < SUBMIT_QUERY_ATTEMPTS {
                SubmitNext::Query(attempt + 1)
            } else {
                SubmitNext::GiveUp
            };
            SubmitStep { publish, sleep_ms, next }
        },
    }
}

/// Giving up on an ambiguous submission: execution is latched off and the submission's error is
/// reported. The order is left as it is.
pub fn on_submit_give_up<B, F>(error: BinanceFuturesError) -> (r: Vec<Publication<B, F>>)
    ensures
        r@ == seq![Publication::<B, F>::ExecutionUncertain, Publication::OrderError(error)],
{
    let mut r: Vec<Publication<B, F>> = Vec::new();
    r.push(Publication::ExecutionUncertain);
    r.push(Publication::OrderError(error));
    assert(r@ =~= seq![Publication::<B, F>::ExecutionUncertain, Publication::OrderError(error)]);
    r
}

/// Whether a cancel prepared for `client_order_id` still concerns a tracked order once the
/// submission it waited for has been resolved.
pub fn cancel_still_tracked<B: Copy, F: Copy>(
    manager: &OrderManager<B, F>,
    symbol: &str,
    order_id: u64,
    client_order_id: &str,
) -> (r: bool)
    requires
        manager.wf(),
    ensures
        r == (manager.ids().contains_key((symbol@, order_id)) && manager.ids()[(symbol@, order_id)]
            == client_order_id@),
{
    match manager.get_client_order_id(symbol, order_id) {
        Some(current) => crate::text::str_equal(current.as_str(), client_order_id),
        None => false,
    }
}

/// The outcome of canceling the order of `client_order_id`. An answer updates the order; an
/// unknown-order error leads to a query; any other error updates the order as a failed cancel
/// and is reported.
pub fn on_cancel_result<B: Copy, F: Copy>(
    manager: &mut OrderManager<B, F>,
    client_order_id: &String,
    result: Result<OrderResponse<F>, BinanceFuturesError>,
) -> (r: CancelStep<B, F>)
    requires
        old(manager).wf(),
        result matches Ok(resp) ==> crate::orders::fits_in_ns(resp.update_time),
    ensures
        final(manager).wf(),
        final(manager).prefix() == old(manager).prefix(),
        ({
            let orders = old(manager).orders();
            let ids = old(manager).ids();
            let cid = client_order_id@;
            match result {
                Ok(resp) => {
                    let o = after_response(orders[cid].order, resp);
                    &&& r.publish@ == report_seq(settle_report(orders, cid, o))
                    &&& r.next == CancelNext::Done
                    &&& final(manager).orders() == settle_orders(orders, cid, o, false)
                    &&& final(manager).ids() == settle_ids(ids, orders, cid, o)
                },
                Err(e) => if e matches BinanceFuturesError::OrderError { code, .. } && code == -2011 {
                    &&& r.publish@ == Seq::<Publication<B, F>>::empty()
                    &&& r.next == CancelNext::Query
                    &&& final(manager).orders() == orders
                    &&& final(manager).ids() == ids
                } else {
                    let o = after_request_failure(orders[cid].order, cancel_failure_status(e));
                    &&& r.publish@ == report_seq(settle_report(orders, cid, o)) + seq![Publication::OrderError(e)]
                    &&& r.next == CancelNext::Done
                    &&& final(manager).orders() == settle_orders(orders, cid, o, false)
                    &&& final(manager).ids() == settle_ids(ids, orders, cid, o)
                },
            }
        }),
{
    let mut publish: Vec<Publication<B, F>> = Vec::new();
    match result {
        Ok(resp) => {
            let report = manager.update_from_rest(client_order_id, &resp);
            push_report(&mut publish, report);
            CancelStep { publish, next: CancelNext::Done }
        },
        Err(error) => {
            let unknown = match &error {
                BinanceFuturesError::OrderError { code, .. } => *code == -2011,
                _ => false,
            };
            if unknown {
                return CancelStep { publish, next: CancelNext::Query };
            }
            let report = manager.update_cancel_fail(client_order_id, &error);
            push_report(&mut publish, report);
            publish.push(Publication::OrderError(error));
            CancelStep { publish, next: CancelNext::Done }
        },
    }
}

/// The outcome of looking up an order whose cancel Binance did not know. A found order is
/// updated; an order Binance does not have leads to a reconciliation of the symbol; a failed
/// lookup latches execution off and reports the cancel's error.
pub fn on_cancel_query<B: Copy, F: Copy>(
    manager: &mut OrderManager<B, F>,
    client_order_id: &String,
    lookup: Result<Option<OrderResponse<F>>, BinanceFuturesError>,
    cancel_error: BinanceFuturesError,
) -> (r: CancelStep<B, F>)
    requires
        old(manager).wf(),
        lookup matches Ok(Some(resp)) ==> crate::orders::fits_in_ns(resp.update_time),
    ensures
        final(manager).wf(),
        final(manager).prefix() == old(manager).prefix(),
        ({
            let orders = old(manager).orders();
            let ids = old(manager).ids();
            let cid = client_order_id@;
            match lookup {
                Ok(Some(resp)) => {
                    let o = after_response(orders[cid].order, resp);
                    &&& r.publish@ == report_seq(settle_report(orders, cid, o))
                    &&& r.next == CancelNext::Done
                    &&& final(manager).orders() == settle_orders(orders, cid, o, false)
                    &&& final(manager).ids() == settle_ids(ids, orders, cid, o)
                },
                Ok(None) => {
                    &&& r.publish@ == seq![Publication::<B, F>::AccountReconciliationStarted]
                    &&& r.next == CancelNext::Reconcile
                    &&& final(manager).orders() == orders
                    &&& final(manager).ids() == ids
                },
                Err(_) => {
                    &&& r.publish@ == seq![Publication::<B, F>::ExecutionUncertain, Publication::OrderError(cancel_error)]
                    &&& r.next == CancelNext::Done
                    &&& final(manager).orders() == orders
                    &&& final(manager).ids() == ids
                },
            }
        }),
{
    let mut publish: Vec<Publication<B, F>> = Vec::new();
    match lookup {
        Ok(Some(resp)) => {
            let report = manager.update_from_rest(client_order_id, &resp);
            push_report(&mut publish, report);
            CancelStep { publish, next: CancelNext::Done }
        },
        Ok(None) => {
            publish.push(Publication::AccountReconciliationStarted);
            assert(publish@ =~= seq![Publication::<B, F>::AccountReconciliationStarted]);
            CancelStep { publish, next: CancelNext::Reconcile }
        },
        Err(_) => {
            publish.push(Publication::ExecutionUncertain);
            publish.push(Publication::OrderError(cancel_error));
            assert(publish@ =~= seq![Publication::<B, F>::ExecutionUncertain, Publication::OrderError(cancel_error)]);
            CancelStep { publish, next: CancelNext::Done }
        },
    }
}

/// The outcome of the reconciliation a cancel led to: nothing more when it succeeded; otherwise
/// execution is latched off and the cancel's error reported.
pub fn on_cancel_reconciled<B, F>(reconciled: bool, cancel_error: BinanceFuturesError) -> (r: Vec<Publication<B, F>>)
    ensures
        reconciled ==> r@ == Seq::<Publication<B, F>>::empty(),
        !reconciled ==> r@ == seq![Publication::<B, F>::ExecutionUncertain, Publication::OrderError(cancel_error)],
{
    let mut r: Vec<Publication<B, F>> = Vec::new();
    if !reconciled {
        r.push(Publication::ExecutionUncertain);
        r.push(Publication::OrderError(cancel_error));
        assert(r@ =~= seq![Publication::<B, F>::ExecutionUncertain, Publication::OrderError(cancel_error)]);
    }
    r
}


/// The order published when a submission cannot be tracked (another live order has its symbol
/// and order id, or its client order id is taken): expired, with no request in flight.
pub fn refused_submission<B: Copy, F: Copy>(order: TrackedOrder<B, F>) -> (r: TrackedOrder<B, F>)
    ensures
        r == (TrackedOrder { req: Status::NoStatus, status: Status::Expired, ..order }),
{
    TrackedOrder { req: Status::NoStatus, status: Status::Expired, ..order }
}

} // verus!
