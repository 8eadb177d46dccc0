//! Order bookkeeping across Binance's two order channels.
//!
//! Binance delivers order responses over REST and over the user data stream, in no guaranteed
//! order. An order that ends is reported to the strategy once, and it leaves the table only when
//! both channels have confirmed its end, so that a late message of the slower channel still finds
//! it. The table from (symbol, order id) to client order id holds live orders only.
use vstd::prelude::*;

use crate::binance::BinanceFuturesError;
use crate::id::{is_encoding_of, spec_decode, ClientOrderIdCodec, ClientOrderIdError, SymbolOrderId};
use crate::order_id_table::{order_id_entries, OrderIdTable};
use crate::keyed::{
    distinct_keys, find_key, has_key, index_of, key_at, lemma_index_of, lemma_map_of_push,
    lemma_map_of_remove, lemma_map_of_update, map_of,
};
use crate::text::str_equal;
use crate::types::{is_active, spec_is_active, OrdType, OrderId, Side, Status, TimeInForce};

verus! {

pub type ClientOrderId = String;

/// How long an order that one channel has ended may wait for the other, in nanoseconds.
pub const STALE_ORDER_AGE_NS: i64 = 300_000_000_000;

/// An order as the manager tracks it. `base` holds what no update changes (price, tick size,
/// local timestamp); `fill` holds the quantities that each update replaces.
#[derive(Clone, Copy, Debug)]
pub struct TrackedOrder<B, F> {
    pub order_id: OrderId,
    pub status: Status,
    pub req: Status,
    pub exch_timestamp: i64,
    pub exec_price_tick: i64,
    pub side: Side,
    pub time_in_force: TimeInForce,
    pub order_type: OrdType,
    pub base: B,
    pub fill: F,
}

/// A tracked order with its symbol and which channels have reported its end.
#[derive(Debug)]
pub struct OrderExt<B, F> {
    pub symbol: String,
    pub order: TrackedOrder<B, F>,
    pub removed_by_ws: bool,
    pub removed_by_rest: bool,
}

/// What an order trade update of the user data stream says of an order. `transaction_time` is
/// in milliseconds; `exec_price_tick` is the last fill price in ticks.
#[derive(Debug)]
pub struct OrderTradeUpdate<F> {
    pub client_order_id: String,
    pub transaction_time: i64,
    pub order_status: Status,
    pub side: Side,
    pub time_in_force: TimeInForce,
    pub order_type: OrdType,
    pub exec_price_tick: i64,
    pub fill: F,
}

/// What a REST order response says of an order. `update_time` is in milliseconds.
#[derive(Debug)]
pub struct OrderResponse<F> {
    pub update_time: i64,
    pub status: Status,
    pub side: Side,
    pub time_in_force: TimeInForce,
    pub ty: OrdType,
    pub fill: F,
}

/// A time in milliseconds can be taken to nanoseconds in an `i64`.
pub open spec fn fits_in_ns(ms: i64) -> bool {
    i64::MIN <= ms * 1_000_000 <= i64::MAX
}

/// The order after a stream update: the update applies unless it is older than the order.
pub open spec fn after_trade_update<B, F>(o: TrackedOrder<B, F>, u: OrderTradeUpdate<F>) -> TrackedOrder<B, F> {
    if u.transaction_time * 1_000_000 >= o.exch_timestamp {
        TrackedOrder {
            fill: u.fill,
            side: u.side,
            time_in_force: u.time_in_force,
            exch_timestamp: (u.transaction_time * 1_000_000) as i64,
            status: u.order_status,
            exec_price_tick: u.exec_price_tick,
            order_type: u.order_type,
            ..o
        }
    } else {
        o
    }
}

/// The order after a REST response; the response carries no fill price, and it settles any
/// request in flight.
pub open spec fn after_response<B, F>(o: TrackedOrder<B, F>, r: OrderResponse<F>) -> TrackedOrder<B, F> {
    if r.update_time * 1_000_000 >= o.exch_timestamp {
        TrackedOrder {
            fill: r.fill,
            side: r.side,
            time_in_force: r.time_in_force,
            exch_timestamp: (r.update_time * 1_000_000) as i64,
            status: r.status,
            order_type: r.ty,
            req: Status::NoStatus,
            ..o
        }
    } else {
        o
    }
}

/// The order after a failed REST request: the given status, if any, and no request in flight.
pub open spec fn after_request_failure<B, F>(o: TrackedOrder<B, F>, status: Option<Status>) -> TrackedOrder<B, F> {
    TrackedOrder {
        status: match status {
            Some(s) => s,
            None => o.status,
        },
        req: Status::NoStatus,
        ..o
    }
}

/// The status a failed cancel leaves: unknown when Binance does not know the order.
pub open spec fn cancel_failure_status(error: BinanceFuturesError) -> Option<Status> {
    match error {
        BinanceFuturesError::OrderError { code, .. } => if code == -2011 {
            Some(Status::NoStatus)
        } else {
            None
        },
        _ => None,
    }
}

/// One of the channels has already reported the end of this order.
pub open spec fn already_removed<B, F>(e: OrderExt<B, F>) -> bool {
    e.removed_by_ws || e.removed_by_rest
}

/// The entry once `order` replaces its order: an order that is no longer active is marked as
/// ended by the channel that reported it.
pub open spec fn settled<B, F>(e: OrderExt<B, F>, order: TrackedOrder<B, F>, by_stream: bool) -> OrderExt<B, F> {
    let ended = !spec_is_active(order.status);
    OrderExt {
        symbol: e.symbol,
        order,
        removed_by_ws: e.removed_by_ws || (ended && by_stream),
        removed_by_rest: e.removed_by_rest || (ended && !by_stream),
    }
}

/// The order table once the entry of `cid` becomes `e`: it leaves when both channels ended it.
pub open spec fn orders_after<B, F>(
    orders: Map<Seq<char>, OrderExt<B, F>>,
    cid: Seq<char>,
    e: OrderExt<B, F>,
) -> Map<Seq<char>, OrderExt<B, F>> {
    if e.removed_by_ws && e.removed_by_rest {
        orders.remove(cid)
    } else {
        orders.insert(cid, e)
    }
}

/// The id table once the order of entry `e` becomes `order`: the first report of its end
/// removes its (symbol, order id).
pub open spec fn ids_after<B, F>(
    ids: Map<(Seq<char>, u64), Seq<char>>,
    e: OrderExt<B, F>,
    order: TrackedOrder<B, F>,
) -> Map<(Seq<char>, u64), Seq<char>> {
    if !already_removed(e) && !spec_is_active(order.status) {
        ids.remove((e.symbol@, e.order.order_id))
    } else {
        ids
    }
}

/// What an update reports to the strategy: the order, unless its end was reported before.
pub open spec fn reported<B, F>(e: OrderExt<B, F>, order: TrackedOrder<B, F>) -> Option<TrackedOrder<B, F>> {
    if already_removed(e) {
        None
    } else {
        Some(order)
    }
}

/// What settling `order` on the entry of `cid` reports, if `cid` is tracked.
pub open spec fn settle_report<B, F>(
    orders: Map<Seq<char>, OrderExt<B, F>>,
    cid: Seq<char>,
    order: TrackedOrder<B, F>,
) -> Option<TrackedOrder<B, F>> {
    if orders.contains_key(cid) {
        reported(orders[cid], order)
    } else {
        None
    }
}

/// The order table once `order` is settled on the entry of `cid`, if `cid` is tracked.
pub open spec fn settle_orders<B, F>(
    orders: Map<Seq<char>, OrderExt<B, F>>,
    cid: Seq<char>,
    order: TrackedOrder<B, F>,
    by_stream: bool,
) -> Map<Seq<char>, OrderExt<B, F>> {
    if orders.contains_key(cid) {
        orders_after(orders, cid, settled(orders[cid], order, by_stream))
    } else {
        orders
    }
}

/// The id table once `order` is settled on the entry of `cid`, if `cid` is tracked.
pub open spec fn settle_ids<B, F>(
    ids: Map<(Seq<char>, u64), Seq<char>>,
    orders: Map<Seq<char>, OrderExt<B, F>>,
    cid: Seq<char>,
    order: TrackedOrder<B, F>,
) -> Map<(Seq<char>, u64), Seq<char>> {
    if orders.contains_key(cid) {
        ids_after(ids, orders[cid], order)
    } else {
        ids
    }
}

/// An order that is open: live at the exchange, or submitted and not yet answered (a request
/// for a new order with no status yet).
pub open spec fn is_open_order<B, F>(o: TrackedOrder<B, F>) -> bool {
    spec_is_active(o.status) || (o.req == Status::New && o.status == Status::NoStatus)
}

/// Whether an order is open: live, or submitted and not yet answered.
pub fn open_order<B: Copy, F: Copy>(o: &TrackedOrder<B, F>) -> (r: bool)
    ensures
        r == is_open_order(*o),
{
    is_active(o.status) || (o.req == Status::New && o.status == Status::NoStatus)
}

/// `listed` holds the order of each tracked client order id whose order is open and of
/// `symbol`, once each.
pub open spec fn lists_active_orders<B, F>(
    orders: Map<Seq<char>, OrderExt<B, F>>,
    symbol: Seq<char>,
    listed: Seq<TrackedOrder<B, F>>,
) -> bool {
    exists|cids: Seq<Seq<char>>| {
        &&& cids.len() == listed.len()
        &&& cids.no_duplicates()
        &&& forall|t: int| 0 <= t < cids.len() ==> orders.contains_key(cids[t]) && #[trigger] listed[t]
            == orders[cids[t]].order
        &&& forall|c: Seq<char>| (orders.contains_key(c) && orders[c].symbol@ == symbol
            && is_open_order(orders[c].order)) <==> #[trigger] cids.contains(c)
    }
}

/// `o`, listed under `cid`, is the active order of `symbol` of one of the first `n` entries.
pub open spec fn listed_from<B, F>(
    entries: Seq<(String, OrderExt<B, F>)>,
    symbol: Seq<char>,
    n: int,
    cid: Seq<char>,
    o: TrackedOrder<B, F>,
) -> bool {
    exists|j: int| 0 <= j < n && key_at(entries, j) == cid && o == entries[j].1.order
        && entries[j].1.symbol@ == symbol && is_open_order(entries[j].1.order)
}

/// Every (symbol, order id) names a live order of that symbol and id, and no order stays in the
/// table once both channels have ended it.
pub open spec fn tables_agree<B, F>(
    orders: Map<Seq<char>, OrderExt<B, F>>,
    ids: Map<(Seq<char>, u64), Seq<char>>,
) -> bool {
    &&& forall|k: (Seq<char>, u64)| #[trigger] ids.contains_key(k) ==> {
        &&& orders.contains_key(ids[k])
        &&& orders[ids[k]].symbol@ == k.0
        &&& orders[ids[k]].order.order_id == k.1
        &&& !already_removed(orders[ids[k]])
    }
    &&& forall|c: Seq<char>| #[trigger] orders.contains_key(c) ==> !(orders[c].removed_by_ws
        && orders[c].removed_by_rest)
}

/// An order whose end one channel reported and the other has not confirmed, last heard of by the
/// exchange before `stale_ts`.
pub open spec fn is_stale<B, F>(e: OrderExt<B, F>, stale_ts: int) -> bool {
    e.removed_by_ws != e.removed_by_rest && e.order.exch_timestamp < stale_ts
}

/// The order table without its stale orders.
pub open spec fn orders_without_stale<B, F>(orders: Map<Seq<char>, OrderExt<B, F>>, stale_ts: int) -> Map<Seq<char>, OrderExt<B, F>> {
    Map::new(|c: Seq<char>| orders.contains_key(c) && !is_stale(orders[c], stale_ts), |c: Seq<char>| orders[c])
}

/// The key `c` stands at position `n` or later of `entries`.
pub open spec fn from_position<V>(entries: Seq<(String, V)>, n: int, c: Seq<char>) -> bool {
    has_key(entries, c) && index_of(entries, c) >= n
}

/// `orders2` and `ids2` are what collecting stale orders at time `now` leaves of `orders` and
/// `ids`: the id table is kept whole, since every (symbol, order id) names an order whose end
/// no channel reported; nothing is collected at a time too close to the lowest `i64`.
pub open spec fn collected_at<B, F>(
    orders: Map<Seq<char>, OrderExt<B, F>>,
    ids: Map<(Seq<char>, u64), Seq<char>>,
    orders2: Map<Seq<char>, OrderExt<B, F>>,
    ids2: Map<(Seq<char>, u64), Seq<char>>,
    now: i64,
) -> bool {
    &&& ids2 == ids
    &&& if now >= i64::MIN + STALE_ORDER_AGE_NS {
        orders2 == orders_without_stale(orders, now - STALE_ORDER_AGE_NS)
    } else {
        orders2 == orders
    }
}

/// The orders of one connector, kept across the REST and stream channels.
pub struct OrderManager<B, F> {
    client_order_ids: ClientOrderIdCodec,
    orders: Vec<(ClientOrderId, OrderExt<B, F>)>,
    order_id_map: OrderIdTable,
}

impl<B: Copy, F: Copy> OrderManager<B, F> {
    /// The tracked orders by client order id.
    pub closed spec fn orders(&self) -> Map<Seq<char>, OrderExt<B, F>> {
        map_of(self.orders@)
    }

    /// The client order id of each live (symbol, order id).
    pub closed spec fn ids(&self) -> Map<(Seq<char>, u64), Seq<char>> {
        order_id_entries(self.order_id_map)
    }

    /// The prefix of the client order ids this manager issues.
    pub closed spec fn prefix(&self) -> Seq<char> {
        self.client_order_ids@
    }

    pub closed spec fn wf(&self) -> bool {
        &&& distinct_keys(self.orders@)
        &&& tables_agree(self.orders(), self.ids())
    }

    pub fn new(client_order_ids: ClientOrderIdCodec) -> (r: Self)
        ensures
            r.wf(),
            r.prefix() == client_order_ids@,
            r.orders() == Map::<Seq<char>, OrderExt<B, F>>::empty(),
            r.ids() == Map::<(Seq<char>, u64), Seq<char>>::empty(),
    {
        let r = OrderManager { client_order_ids, orders: Vec::new(), order_id_map: OrderIdTable::new() };
        assert(r.orders() =~= Map::<Seq<char>, OrderExt<B, F>>::empty());
        assert(r.ids() =~= Map::<(Seq<char>, u64), Seq<char>>::empty());
        r
    }

    /// Puts `order` in place of the order of entry `i`, marks its end by the reporting channel,
    /// and drops the entry once both channels have ended it.
    #[verifier::spinoff_prover]
    fn settle(&mut self, i: usize, order: TrackedOrder<B, F>, by_stream: bool) -> (r: Option<TrackedOrder<B, F>>)
        requires
            old(self).wf(),
            i < old(self).orders@.len(),
            order.order_id == old(self).orders@[i as int].1.order.order_id,
        ensures
            final(self).wf(),
            final(self).prefix() == old(self).prefix(),
            final(self).orders() == orders_after(
                old(self).orders(),
                key_at(old(self).orders@, i as int),
                settled(old(self).orders@[i as int].1, order, by_stream),
            ),
            final(self).ids() == ids_after(old(self).ids(), old(self).orders@[i as int].1, order),
            r == reported(old(self).orders@[i as int].1, order),
    {
        let ghost before = self.orders@;
        let ghost old_orders = self.orders();
        let ghost old_ids = self.ids();
        let ghost e = self.orders@[i as int].1;
        let ghost cid = key_at(before, i as int);
        proof {
            lemma_index_of(before, i as int);
        }
        let already = self.orders[i].1.removed_by_ws || self.orders[i].1.removed_by_rest;
        let result = if already {
            None
        } else {
            Some(order)
        };
        let (key, mut ext) = self.orders.remove(i);
        ext.order = order;
        let ended = !is_active(order.status);
        if ended {
            if by_stream {
                ext.removed_by_ws = true;
            } else {
                ext.removed_by_rest = true;
            }
            if !already {
                self.order_id_map.remove(ext.symbol.as_str(), ext.order.order_id);
            }
        }
        assert(ext == settled(e, order, by_stream));
        if !(ext.removed_by_ws && ext.removed_by_rest) {
            self.orders.insert(i, (key, ext));
            proof {
                assert(self.orders@ =~= before.update(i as int, (before[i as int].0, ext)));
                lemma_map_of_update(before, i as int, ext);
            }
        } else {
            proof {
                lemma_map_of_remove(before, i as int);
            }
        }
        proof {
            let o2 = self.orders();
            let ids2 = self.ids();
            assert(o2 == orders_after(old_orders, cid, ext));
            assert(ids2 == ids_after(old_ids, e, order));
            assert forall|k: (Seq<char>, u64)| #[trigger] ids2.contains_key(k) implies {
                &&& o2.contains_key(ids2[k])
                &&& o2[ids2[k]].symbol@ == k.0
                &&& o2[ids2[k]].order.order_id == k.1
                &&& !already_removed(o2[ids2[k]])
            } by {
                assert(old_ids.contains_key(k));
                assert(ids2[k] == old_ids[k]);
                let c = old_ids[k];
                if c == cid {
                    assert(old_orders[c] == e);
                    assert(k == (e.symbol@, e.order.order_id));
                }
            }
            assert forall|c: Seq<char>| #[trigger] o2.contains_key(c) implies !(o2[c].removed_by_ws
                && o2[c].removed_by_rest) by {
                if c != cid {
                    assert(old_orders.contains_key(c));
                }
            }
        }
        result
    }

    /// Applies an order trade update of the user data stream. An identifier of another
    /// namespace is `PrefixUnmatched`, one of this namespace that cannot be decoded
    /// `MalformedClientOrderId`, an unknown one `OrderNotFound`; these change nothing. Otherwise
    /// the order is reported unless its end was reported before.
    pub fn update_from_ws(&mut self, resp: &OrderTradeUpdate<F>) -> (r: Result<
        Option<TrackedOrder<B, F>>,
        BinanceFuturesError,
    >)
        requires
            old(self).wf(),
            fits_in_ns(resp.transaction_time),
        ensures
            final(self).wf(),
            final(self).prefix() == old(self).prefix(),
            ({
                let cid = resp.client_order_id@;
                let e = old(self).orders()[cid];
                let o = after_trade_update(e.order, *resp);
                match spec_decode(old(self).prefix(), cid) {
                    Ok(Some(_)) => if old(self).orders().contains_key(cid) {
                        &&& r == Ok::<Option<TrackedOrder<B, F>>, BinanceFuturesError>(reported(e, o))
                        &&& final(self).orders() == orders_after(old(self).orders(), cid, settled(e, o, true))
                        &&& final(self).ids() == ids_after(old(self).ids(), e, o)
                    } else {
                        &&& r == Err::<Option<TrackedOrder<B, F>>, BinanceFuturesError>(BinanceFuturesError::OrderNotFound)
                        &&& final(self).orders() == old(self).orders()
                        &&& final(self).ids() == old(self).ids()
                    },
                    Ok(None) => {
                        &&& r == Err::<Option<TrackedOrder<B, F>>, BinanceFuturesError>(BinanceFuturesError::PrefixUnmatched)
                        &&& final(self).orders() == old(self).orders()
                        &&& final(self).ids() == old(self).ids()
                    },
                    Err(_) => {
                        &&& r == Err::<Option<TrackedOrder<B, F>>, BinanceFuturesError>(BinanceFuturesError::MalformedClientOrderId)
                        &&& final(self).orders() == old(self).orders()
                        &&& final(self).ids() == old(self).ids()
                    },
                }
            }),
    {
        match self.client_order_ids.decode(resp.client_order_id.as_str()) {
            Ok(Some(_)) => {},
            Ok(None) => return Err(BinanceFuturesError::PrefixUnmatched),
            Err(ClientOrderIdError::Malformed) | Err(ClientOrderIdError::InvalidPrefix) => {
                return Err(BinanceFuturesError::MalformedClientOrderId);
            },
        }
        let i = match find_key(&self.orders, resp.client_order_id.as_str()) {
            Some(i) => i,
            None => return Err(BinanceFuturesError::OrderNotFound),
        };
        let o = self.orders[i].1.order;
        let ts = resp.transaction_time * 1_000_000;
        let updated = if ts >= o.exch_timestamp {
            TrackedOrder {
                fill: resp.fill,
                side: resp.side,
                time_in_force: resp.time_in_force,
                exch_timestamp: ts,
                status: resp.order_status,
                exec_price_tick: resp.exec_price_tick,
                order_type: resp.order_type,
                ..o
            }
        } else {
            o
        };
        Ok(self.settle(i, updated, true))
    }

    /// Applies a REST order response to the order of `client_order_id`; `None`, with nothing
    /// changed, for an unknown order.
    pub fn update_from_rest(&mut self, client_order_id: &ClientOrderId, resp: &OrderResponse<F>) -> (r:
        Option<TrackedOrder<B, F>>)
        requires
            old(self).wf(),
            fits_in_ns(resp.update_time),
        ensures
            final(self).wf(),
            final(self).prefix() == old(self).prefix(),
            ({
                let cid = client_order_id@;
                let e = old(self).orders()[cid];
                let o = after_response(e.order, *resp);
                if old(self).orders().contains_key(cid) {
                    &&& r == reported(e, o)
                    &&& final(self).orders() == orders_after(old(self).orders(), cid, settled(e, o, false))
                    &&& final(self).ids() == ids_after(old(self).ids(), e, o)
                } else {
                    &&& r is None
                    &&& final(self).orders() == old(self).orders()
                    &&& final(self).ids() == old(self).ids()
                }
            }),
    {
        let i = match find_key(&self.orders, client_order_id.as_str()) {
            Some(i) => i,
            None => return None,
        };
        let o = self.orders[i].1.order;
        let ts = resp.update_time * 1_000_000;
        let updated = if ts >= o.exch_timestamp {
            TrackedOrder {
                fill: resp.fill,
                side: resp.side,
                time_in_force: resp.time_in_force,
                exch_timestamp: ts,
                status: resp.status,
                order_type: resp.ty,
                req: Status::NoStatus,
                ..o
            }
        } else {
            o
        };
        self.settle(i, updated, false)
    }

    /// Records that a REST request on the order of `client_order_id` failed: its status becomes
    /// `status` where one is given, and no request is in flight any more.
    pub fn update_from_rest_fail(&mut self, client_order_id: &ClientOrderId, status: Option<Status>) -> (r:
        Option<TrackedOrder<B, F>>)
        requires
            old(self).wf(),
        ensures
            final(self).wf(),
            final(self).prefix() == old(self).prefix(),
            ({
                let cid = client_order_id@;
                let e = old(self).orders()[cid];
                let o = after_request_failure(e.order, status);
                if old(self).orders().contains_key(cid) {
                    &&& r == reported(e, o)
                    &&& final(self).orders() == orders_after(old(self).orders(), cid, settled(e, o, false))
                    &&& final(self).ids() == ids_after(old(self).ids(), e, o)
                } else {
                    &&& r is None
                    &&& final(self).orders() == old(self).orders()
                    &&& final(self).ids() == old(self).ids()
                }
            }),
    {
        let i = match find_key(&self.orders, client_order_id.as_str()) {
            Some(i) => i,
            None => return None,
        };
        let o = self.orders[i].1.order;
        let updated = TrackedOrder {
            status: match status {
                Some(s) => s,
                None => o.status,
            },
            req: Status::NoStatus,
            ..o
        };
        self.settle(i, updated, false)
    }

    /// A submission that failed leaves the order expired, whatever the error.
    pub fn update_submit_fail(&mut self, client_order_id: &ClientOrderId, error: &BinanceFuturesError) -> (r:
        Option<TrackedOrder<B, F>>)
        requires
            old(self).wf(),
        ensures
            final(self).wf(),
            final(self).prefix() == old(self).prefix(),
            ({
                let cid = client_order_id@;
                let e = old(self).orders()[cid];
                let o = after_request_failure(e.order, Some(Status::Expired));
                if old(self).orders().contains_key(cid) {
                    &&& r == reported(e, o)
                    &&& final(self).orders() == orders_after(old(self).orders(), cid, settled(e, o, false))
                    &&& final(self).ids() == ids_after(old(self).ids(), e, o)
                } else {
                    &&& r is None
                    &&& final(self).orders() == old(self).orders()
                    &&& final(self).ids() == old(self).ids()
                }
            }),
    {
        self.update_from_rest_fail(client_order_id, Some(Status::Expired))
    }

    /// A cancel that failed because the order is unknown to Binance leaves its status unknown;
    /// any other failure leaves the status as it was.
    pub fn update_cancel_fail(&mut self, client_order_id: &ClientOrderId, error: &BinanceFuturesError) -> (r:
        Option<TrackedOrder<B, F>>)
        requires
            old(self).wf(),
        ensures
            final(self).wf(),
            final(self).prefix() == old(self).prefix(),
            ({
                let cid = client_order_id@;
                let e = old(self).orders()[cid];
                let o = after_request_failure(e.order, cancel_failure_status(*error));
                if old(self).orders().contains_key(cid) {
                    &&& r == reported(e, o)
                    &&& final(self).orders() == orders_after(old(self).orders(), cid, settled(e, o, false))
                    &&& final(self).ids() == ids_after(old(self).ids(), e, o)
                } else {
                    &&& r is None
                    &&& final(self).orders() == old(self).orders()
                    &&& final(self).ids() == old(self).ids()
                }
            }),
    {
        let status = match error {
            BinanceFuturesError::OrderError { code, .. } => if *code == -2011 {
                Some(Status::NoStatus)
            } else {
                None
            },
            _ => None,
        };
        self.update_from_rest_fail(client_order_id, status)
    }

    /// Starts tracking `order` of `symbol` under `client_order_id`. Refused, with nothing
    /// changed, while another live order has the same symbol and order id, or when the client
    /// order id is taken.
    pub fn prepare_with_client_order_id(
        &mut self,
        symbol: String,
        order: TrackedOrder<B, F>,
        client_order_id: ClientOrderId,
    ) -> (r: Option<ClientOrderId>)
        requires
            old(self).wf(),
        ensures
            final(self).wf(),
            final(self).prefix() == old(self).prefix(),
            r is Some <==> !old(self).ids().contains_key((symbol@, order.order_id))
                && !old(self).orders().contains_key(client_order_id@),
            r matches Some(c) ==> {
                &&& c@ == client_order_id@
                &&& final(self).orders() == old(self).orders().insert(
                    client_order_id@,
                    OrderExt { symbol, order, removed_by_ws: false, removed_by_rest: false },
                )
                &&& final(self).ids() == old(self).ids().insert((symbol@, order.order_id), client_order_id@)
            },
            r is None ==> final(self).orders() == old(self).orders() && final(self).ids() == old(
                self,
            ).ids(),
    {
        if self.order_id_map.get(symbol.as_str(), order.order_id).is_some() {
            return None;
        }
        if find_key(&self.orders, client_order_id.as_str()).is_some() {
            return None;
        }
        let ghost old_orders = self.orders();
        let ghost old_ids = self.ids();
        let ghost sym = symbol@;
        let key = SymbolOrderId::new(symbol.clone(), order.order_id);
        self.order_id_map.insert(key, client_order_id.clone());
        let returned = client_order_id.clone();
        let ext = OrderExt { symbol, order, removed_by_ws: false, removed_by_rest: false };
        let entry = (client_order_id, ext);
        proof {
            lemma_map_of_push(self.orders@, entry);
        }
        self.orders.push(entry);
        proof {
            let o2 = self.orders();
            let ids2 = self.ids();
            let c = returned@;
            assert(o2 == old_orders.insert(c, ext));
            assert(ids2 == old_ids.insert((sym, order.order_id), c));
            assert forall|k: (Seq<char>, u64)| #[trigger] ids2.contains_key(k) implies {
                &&& o2.contains_key(ids2[k])
                &&& o2[ids2[k]].symbol@ == k.0
                &&& o2[ids2[k]].order.order_id == k.1
                &&& !already_removed(o2[ids2[k]])
            } by {
                if k != (sym, order.order_id) {
                    assert(old_ids.contains_key(k));
                    assert(old_orders.contains_key(old_ids[k]));
                }
            }
            assert forall|c2: Seq<char>| #[trigger] o2.contains_key(c2) implies !(o2[c2].removed_by_ws
                && o2[c2].removed_by_rest) by {
                if c2 != c {
                    assert(old_orders.contains_key(c2));
                }
            }
        }
        Some(returned)
    }

    /// Issues a client order id for `order` of `symbol` and starts tracking the order. `None`,
    /// with nothing changed, while another live order has the same symbol and order id, or when
    /// the fresh id happens to be taken already.
    pub fn prepare_client_order_id(&mut self, symbol: String, order: TrackedOrder<B, F>) -> (r: Option<String>)
        requires
            old(self).wf(),
        ensures
            final(self).wf(),
            final(self).prefix() == old(self).prefix(),
            old(self).ids().contains_key((symbol@, order.order_id)) ==> r is None,
            r matches Some(c) ==> {
                &&& is_encoding_of(old(self).prefix(), order.order_id, c@)
                &&& !old(self).orders().contains_key(c@)
                &&& final(self).orders() == old(self).orders().insert(
                    c@,
                    OrderExt { symbol, order, removed_by_ws: false, removed_by_rest: false },
                )
                &&& final(self).ids() == old(self).ids().insert((symbol@, order.order_id), c@)
            },
            r is None ==> final(self).orders() == old(self).orders() && final(self).ids() == old(
                self,
            ).ids(),
            r is None && !old(self).ids().contains_key((symbol@, order.order_id)) ==> exists|c: Seq<
                char,
            >| is_encoding_of(old(self).prefix(), order.order_id, c) && old(self).orders().contains_key(c),
    {
        if self.order_id_map.get(symbol.as_str(), order.order_id).is_some() {
            return None;
        }
        let client_order_id = self.client_order_ids.encode(order.order_id);
        let ghost c = client_order_id@;
        let r = self.prepare_with_client_order_id(symbol, order, client_order_id);
        proof {
            if r is None {
                assert(is_encoding_of(self.prefix(), order.order_id, c));
            }
        }
        r
    }

    /// The client order id of the live order of `symbol` and `order_id`, if any.
    pub fn get_client_order_id(&self, symbol: &str, order_id: OrderId) -> (r: Option<String>)
        requires
            self.wf(),
        ensures
            r is Some <==> self.ids().contains_key((symbol@, order_id)),
            r matches Some(c) ==> c@ == self.ids()[(symbol@, order_id)],
    {
        self.order_id_map.get(symbol, order_id)
    }

    /// Drops the orders whose end one channel reported and the other has not confirmed, and
    /// that the exchange last touched more than `STALE_ORDER_AGE_NS` before `now`: the other
    /// channel is no longer waited for. Every other order, and every (symbol, order id), stays.
    pub fn gc_at(&mut self, now: i64)
        requires
            old(self).wf(),
            now >= i64::MIN + STALE_ORDER_AGE_NS,
        ensures
            final(self).wf(),
            final(self).prefix() == old(self).prefix(),
            final(self).orders() == orders_without_stale(old(self).orders(), now - STALE_ORDER_AGE_NS),
            final(self).ids() == old(self).ids(),
    {
        let stale_ts = now - STALE_ORDER_AGE_NS;
        let ghost ts = stale_ts as int;
        let ghost before = self.orders@;
        let ghost old_orders = self.orders();
        let ghost old_ids = self.ids();
        let mut rest: Vec<(ClientOrderId, OrderExt<B, F>)> = Vec::new();
        std::mem::swap(&mut rest, &mut self.orders);
        let mut kept: Vec<(ClientOrderId, OrderExt<B, F>)> = Vec::new();
        while rest.len() > 0
            invariant
                rest@ == before.subrange(0, rest.len() as int),
                rest.len() <= before.len(),
                distinct_keys(before),
                old_orders == map_of(before),
                stale_ts == ts,
                distinct_keys(kept@),
                forall|c: Seq<char>| #[trigger] map_of(kept@).contains_key(c) <==> (from_position(before, rest.len() as int, c)
                    && !is_stale(old_orders[c], ts)),
                forall|c: Seq<char>| #[trigger] map_of(kept@).contains_key(c) ==> map_of(kept@)[c] == old_orders[c],
            decreases rest.len(),
        {
            let ghost n = rest.len() as int;
            let ghost old_kept = kept@;
            let (cid, ext) = rest.pop().unwrap();
            proof {
                assert(before[n - 1] == (cid, ext));
                lemma_index_of(before, n - 1);
                assert(key_at(before, n - 1) == cid@);
                assert(old_orders[cid@] == ext);
                assert forall|c: Seq<char>| from_position(before, n - 1, c) <==> (from_position(before, n, c) || c == cid@) by {
                    if from_position(before, n - 1, c) && index_of(before, c) == n - 1 {
                        assert(key_at(before, index_of(before, c)) == c);
                    }
                }
            }
            if ext.removed_by_ws != ext.removed_by_rest && ext.order.exch_timestamp < stale_ts {
                proof {
                    assert(is_stale(ext, ts));
                    assert forall|c: Seq<char>| #[trigger] map_of(kept@).contains_key(c) <==> (from_position(before, n - 1, c)
                        && !is_stale(old_orders[c], ts)) by {}
                }
            } else {
                proof {
                    assert(!is_stale(ext, ts));
                    assert(!has_key(old_kept, cid@)) by {
                        if has_key(old_kept, cid@) {
                            assert(map_of(old_kept).contains_key(cid@));
                        }
                    }
                    lemma_map_of_push(old_kept, (cid, ext));
                }
                kept.push((cid, ext));
            }
        }
        proof {
            assert forall|c: Seq<char>| from_position(before, 0, c) == old_orders.contains_key(c) by {
                if has_key(before, c) {
                    assert(key_at(before, index_of(before, c)) == c);
                }
            }
            assert(map_of(kept@) =~= orders_without_stale(old_orders, ts));
        }
        self.orders = kept;
        proof {
            let o2 = self.orders();
            let ids2 = self.ids();
            assert forall|k: (Seq<char>, u64)| #[trigger] ids2.contains_key(k) implies {
                &&& o2.contains_key(ids2[k])
                &&& o2[ids2[k]].symbol@ == k.0
                &&& o2[ids2[k]].order.order_id == k.1
                &&& !already_removed(o2[ids2[k]])
            } by {
                let c = old_ids[k];
                assert(old_orders.contains_key(c));
                assert(!is_stale(old_orders[c], ts));
            }
            assert forall|c: Seq<char>| #[trigger] o2.contains_key(c) implies !(o2[c].removed_by_ws
                && o2[c].removed_by_rest) by {
                assert(old_orders.contains_key(c));
            }
        }
    }

    /// Collects stale orders as of the current time (see `gc_at`); at a clock reading too
    /// close to the lowest `i64` for the age to be subtracted, nothing is collected.
    pub fn gc(&mut self)
        requires
            old(self).wf(),
        ensures
            final(self).wf(),
            final(self).prefix() == old(self).prefix(),
            exists|now: i64| #[trigger] collected_at(
                old(self).orders(),
                old(self).ids(),
                final(self).orders(),
                final(self).ids(),
                now,
            ),
    {
        let now = crate::clock::now_ns();
        if now >= i64::MIN + STALE_ORDER_AGE_NS {
            self.gc_at(now);
        }
        assert(collected_at(old(self).orders(), old(self).ids(), self.orders(), self.ids(), now));
    }

    /// The open orders of `symbol` (live, or submitted and not yet answered), one for each
    /// tracked client order id, in no stated order.
    pub fn active_orders(&self, symbol: &str) -> (r: Vec<TrackedOrder<B, F>>)
        requires
            self.wf(),
        ensures
            lists_active_orders(self.orders(), symbol@, r@),
    {
        let ghost entries = self.orders@;
        let mut r: Vec<TrackedOrder<B, F>> = Vec::new();
        let ghost mut cids: Seq<Seq<char>> = Seq::empty();
        let mut i: usize = 0;
        while i < self.orders.len()
            invariant
                i <= self.orders.len(),
                entries == self.orders@,
                distinct_keys(entries),
                cids.len() == r.len(),
                forall|t: int| 0 <= t < cids.len() ==> listed_from(entries, symbol@, i as int, cids[t], #[trigger] r@[t]),
                forall|a: int, b: int| 0 <= a < b < cids.len() ==> cids[a] != cids[b],
                forall|j: int| 0 <= j < i ==> (entries[j].1.symbol@ == symbol@ && is_open_order(entries[j].1.order)
                    <==> cids.contains(#[trigger] key_at(entries, j))),
            decreases self.orders.len() - i,
        {
            let e = &self.orders[i].1;
            let ghost old_cids = cids;
            if str_equal(e.symbol.as_str(), symbol) && open_order(&e.order) {
                r.push(e.order);
                proof {
                    let c = key_at(entries, i as int);
                    assert forall|t: int| 0 <= t < old_cids.len() implies old_cids[t] != c by {
                        assert(listed_from(entries, symbol@, i as int, old_cids[t], r@[t]));
                        let j = choose|j: int| 0 <= j < i && key_at(entries, j) == old_cids[t];
                    }
                    cids = cids.push(c);
                    assert forall|j: int| 0 <= j < i + 1 implies (entries[j].1.symbol@ == symbol@
                        && is_open_order(entries[j].1.order) <==> cids.contains(#[trigger] key_at(entries, j))) by {
                        if j < i {
                            assert(key_at(entries, j) != c);
                            if old_cids.contains(key_at(entries, j)) {
                                let t = choose|t: int| 0 <= t < old_cids.len() && old_cids[t] == key_at(entries, j);
                                assert(cids[t] == key_at(entries, j));
                            }
                            if cids.contains(key_at(entries, j)) {
                                let t = choose|t: int| 0 <= t < cids.len() && cids[t] == key_at(entries, j);
                                assert(t < old_cids.len());
                                assert(old_cids[t] == key_at(entries, j));
                            }
                        } else {
                            assert(cids[old_cids.len() as int] == c);
                        }
                    }
                    assert forall|t: int| 0 <= t < cids.len() implies listed_from(entries, symbol@, i + 1, cids[t], #[trigger] r@[t]) by {
                        if t < old_cids.len() {
                            assert(listed_from(entries, symbol@, i as int, old_cids[t], r@[t]));
                        } else {
                            assert(key_at(entries, i as int) == cids[t]);
                        }
                    }
                }
            } else {
                proof {
                    let c = key_at(entries, i as int);
                    assert(!cids.contains(c)) by {
                        if cids.contains(c) {
                            let t = choose|t: int| 0 <= t < cids.len() && cids[t] == c;
                            assert(listed_from(entries, symbol@, i as int, cids[t], r@[t]));
                            let j = choose|j: int| 0 <= j < i && key_at(entries, j) == cids[t]
                                && r@[t] == entries[j].1.order && entries[j].1.symbol@ == symbol@
                                && is_open_order(entries[j].1.order);
                        }
                    }
                    assert forall|t: int| 0 <= t < cids.len() implies listed_from(entries, symbol@, i + 1, cids[t], #[trigger] r@[t]) by {
                        assert(listed_from(entries, symbol@, i as int, cids[t], r@[t]));
                    }
                }
            }
            i = i + 1;
        }
        proof {
            let orders = map_of(entries);
            assert(cids.no_duplicates());
            assert forall|t: int| 0 <= t < cids.len() implies orders.contains_key(cids[t]) && #[trigger] r@[t]
                == orders[cids[t]].order by {
                assert(listed_from(entries, symbol@, i as int, cids[t], r@[t]));
                let j = choose|j: int| 0 <= j < i && key_at(entries, j) == cids[t]
                    && r@[t] == entries[j].1.order && entries[j].1.symbol@ == symbol@
                    && is_open_order(entries[j].1.order);
                lemma_index_of(entries, j);
            }
            assert forall|c: Seq<char>| (orders.contains_key(c) && orders[c].symbol@ == symbol@
                && is_open_order(orders[c].order)) <==> #[trigger] cids.contains(c) by {
                if orders.contains_key(c) {
                    let j = choose|j: int| 0 <= j < entries.len() && key_at(entries, j) == c;
                    lemma_index_of(entries, j);
                }
                if cids.contains(c) {
                    let t = choose|t: int| 0 <= t < cids.len() && cids[t] == c;
                    assert(listed_from(entries, symbol@, i as int, cids[t], r@[t]));
                    let j = choose|j: int| 0 <= j < i && key_at(entries, j) == cids[t]
                        && r@[t] == entries[j].1.order && entries[j].1.symbol@ == symbol@
                        && is_open_order(entries[j].1.order);
                    lemma_index_of(entries, j);
                }
            }
        }
        r
    }
}

} // verus!

verus! {

/// In a well-formed manager every (symbol, order id) names a live order of that symbol and id,
/// and no order whose end both channels reported is still tracked.
pub proof fn tracked_tables_agree<B: Copy, F: Copy>(m: &OrderManager<B, F>)
    requires
        m.wf(),
    ensures
        tables_agree(m.orders(), m.ids()),
{
}

/// The end of an order is reported to the strategy once: the first channel that reports it
/// passes the order on and frees its (symbol, order id); whatever the other channel reports
/// afterwards is not passed on, and once that channel too reports the order ended, the order
/// leaves the table.
pub proof fn end_of_order_is_reported_once<B, F>(
    ids: Map<(Seq<char>, u64), Seq<char>>,
    orders: Map<Seq<char>, OrderExt<B, F>>,
    cid: Seq<char>,
    first: TrackedOrder<B, F>,
    second: TrackedOrder<B, F>,
    first_by_stream: bool,
)
    requires
        orders.contains_key(cid),
        !already_removed(orders[cid]),
        first.order_id == orders[cid].order.order_id,
        !spec_is_active(first.status),
    ensures
        reported(orders[cid], first) == Some(first),
        ({
            let e1 = settled(orders[cid], first, first_by_stream);
            let orders1 = orders_after(orders, cid, e1);
            &&& orders1.contains_key(cid)
            &&& !ids_after(ids, orders[cid], first).contains_key((orders[cid].symbol@, first.order_id))
            &&& reported(orders1[cid], second) is None
            &&& ids_after(ids_after(ids, orders[cid], first), orders1[cid], second) == ids_after(ids, orders[cid], first)
            &&& (!spec_is_active(second.status) ==> !orders_after(
                orders1,
                cid,
                settled(orders1[cid], second, !first_by_stream),
            ).contains_key(cid))
        }),
{
    let e1 = settled(orders[cid], first, first_by_stream);
    let orders1 = orders_after(orders, cid, e1);
    assert(orders1[cid] == e1);
}

/// Collecting stale orders never drops an order whose end no channel reported: in-flight
/// submissions and live orders stay, whatever their status and age.
pub proof fn gc_keeps_unended_orders<B, F>(
    orders: Map<Seq<char>, OrderExt<B, F>>,
    stale_ts: int,
    cid: Seq<char>,
)
    requires
        orders.contains_key(cid),
        !orders[cid].removed_by_ws,
        !orders[cid].removed_by_rest,
    ensures
        orders_without_stale(orders, stale_ts).contains_key(cid),
        orders_without_stale(orders, stale_ts)[cid] == orders[cid],
{
}

/// One update of an order's entry: the order it now holds and the channel that reported it
/// (the user data stream, or a REST response or failure).
pub struct Settlement<B, F> {
    pub order: TrackedOrder<B, F>,
    pub by_stream: bool,
}

/// The order table after the updates `evs` of the entry of `cid`, in order.
pub open spec fn orders_after_all<B, F>(
    orders: Map<Seq<char>, OrderExt<B, F>>,
    cid: Seq<char>,
    evs: Seq<Settlement<B, F>>,
) -> Map<Seq<char>, OrderExt<B, F>>
    decreases evs.len(),
{
    if evs.len() == 0 {
        orders
    } else {
        let before = orders_after_all(orders, cid, evs.drop_last());
        settle_orders(before, cid, evs.last().order, evs.last().by_stream)
    }
}

/// What the update `evs[k]` reports to the strategy, after the updates before it.
pub open spec fn report_at<B, F>(
    orders: Map<Seq<char>, OrderExt<B, F>>,
    cid: Seq<char>,
    evs: Seq<Settlement<B, F>>,
    k: int,
) -> Option<TrackedOrder<B, F>> {
    settle_report(orders_after_all(orders, cid, evs.take(k)), cid, evs[k].order)
}

/// The order of `cid` is gone from the table, or one channel has reported its end.
pub open spec fn end_known<B, F>(orders: Map<Seq<char>, OrderExt<B, F>>, cid: Seq<char>) -> bool {
    orders.contains_key(cid) ==> already_removed(orders[cid])
}

proof fn lemma_take_step<B, F>(evs: Seq<Settlement<B, F>>, k: int)
    requires
        0 <= k < evs.len(),
    ensures
        evs.take(k + 1).drop_last() == evs.take(k),
        evs.take(k + 1).last() == evs[k],
{
    assert(evs.take(k + 1).drop_last() =~= evs.take(k));
}

proof fn lemma_end_stays_known<B, F>(
    orders: Map<Seq<char>, OrderExt<B, F>>,
    cid: Seq<char>,
    evs: Seq<Settlement<B, F>>,
    i: int,
    j: int,
)
    requires
        0 <= i <= j <= evs.len(),
        end_known(orders_after_all(orders, cid, evs.take(i)), cid),
    ensures
        end_known(orders_after_all(orders, cid, evs.take(j)), cid),
    decreases j - i,
{
    if i < j {
        lemma_take_step(evs, i);
        lemma_end_stays_known(orders, cid, evs, i + 1, j);
    }
}

/// The end of an order is handed to the strategy once, over any sequence of updates from
/// either channel: after an update reports the order ended, no later update reports it again.
/// The order stays in the table until an update leaves both channels' ends recorded, and its
/// entry never holds both ends while it is tracked.
pub proof fn terminal_order_reported_once<B, F>(
    orders: Map<Seq<char>, OrderExt<B, F>>,
    cid: Seq<char>,
    evs: Seq<Settlement<B, F>>,
    i: int,
    j: int,
)
    requires
        0 <= i < j < evs.len(),
        report_at(orders, cid, evs, i) matches Some(o) && !spec_is_active(o.status),
    ensures
        report_at(orders, cid, evs, j) is None,
        ({
            let t = orders_after_all(orders, cid, evs.take(j));
            let t1 = orders_after_all(orders, cid, evs.take(j + 1));
            &&& t.contains_key(cid) ==> !(t[cid].removed_by_ws && t[cid].removed_by_rest)
            &&& t.contains_key(cid) && !t1.contains_key(cid) ==> ({
                let e = settled(t[cid], evs[j].order, evs[j].by_stream);
                e.removed_by_ws && e.removed_by_rest
            })
        }),
{
    lemma_take_step(evs, i);
    lemma_take_step(evs, j);
    lemma_end_stays_known(orders, cid, evs, i + 1, j);
    lemma_tracked_entries_hold_one_end(orders, cid, evs.take(j));
}

/// While the order of `cid` is tracked, its entry does not hold both ends, provided it did not
/// at the start.
proof fn lemma_tracked_entries_hold_one_end<B, F>(
    orders: Map<Seq<char>, OrderExt<B, F>>,
    cid: Seq<char>,
    evs: Seq<Settlement<B, F>>,
)
    ensures
        evs.len() > 0 ==> ({
            let t = orders_after_all(orders, cid, evs);
            t.contains_key(cid) ==> !(t[cid].removed_by_ws && t[cid].removed_by_rest)
        }),
{
}

/// A user-stream trade update of a tracked order that is not older than the order replaces
/// what the update reports: status, side, time in force, order type, quantities, the last fill
/// price and the exchange time (the transaction time in nanoseconds); the order id, the request
/// in flight and the fixed part stay. That order is what the table then holds and what is
/// reported, unless the order's end was reported before. An older update changes nothing.
pub proof fn stream_update_applies_its_fields<B, F>(
    orders: Map<Seq<char>, OrderExt<B, F>>,
    cid: Seq<char>,
    u: OrderTradeUpdate<F>,
)
    requires
        orders.contains_key(cid),
        fits_in_ns(u.transaction_time),
    ensures
        ({
            let e = orders[cid];
            let o = after_trade_update(e.order, u);
            let stored = orders_after(orders, cid, settled(e, o, true));
            &&& u.transaction_time * 1_000_000 >= e.order.exch_timestamp ==> {
                &&& o.exec_price_tick == u.exec_price_tick
                &&& o.status == u.order_status
                &&& o.side == u.side
                &&& o.time_in_force == u.time_in_force
                &&& o.order_type == u.order_type
                &&& o.fill == u.fill
                &&& o.exch_timestamp == u.transaction_time * 1_000_000
                &&& o.order_id == e.order.order_id
                &&& o.req == e.order.req
                &&& o.base == e.order.base
            }
            &&& u.transaction_time * 1_000_000 < e.order.exch_timestamp ==> o == e.order
            &&& stored.contains_key(cid) ==> stored[cid].order == o
            &&& !(e.removed_by_ws || e.removed_by_rest) ==> reported(e, o) == Some(o)
            &&& (e.removed_by_ws || e.removed_by_rest) ==> reported(e, o) is None
        }),
{
}

/// A REST response on a tracked order that is not older than the order replaces the status,
/// side, time in force, order type, quantities and exchange time (the update time in
/// nanoseconds), and settles the request in flight; the order id, the last fill price and the
/// fixed part stay. An older response changes nothing. A failed request settles the request in
/// flight and sets the given status, if any. The table then holds that order, and it is reported
/// unless the order's end was reported before.
pub proof fn rest_updates_apply_their_fields<B, F>(
    orders: Map<Seq<char>, OrderExt<B, F>>,
    cid: Seq<char>,
    resp: OrderResponse<F>,
    status: Option<Status>,
)
    requires
        orders.contains_key(cid),
        fits_in_ns(resp.update_time),
    ensures
        ({
            let e = orders[cid];
            let o = after_response(e.order, resp);
            let f = after_request_failure(e.order, status);
            &&& resp.update_time * 1_000_000 >= e.order.exch_timestamp ==> {
                &&& o.status == resp.status
                &&& o.side == resp.side
                &&& o.time_in_force == resp.time_in_force
                &&& o.order_type == resp.ty
                &&& o.fill == resp.fill
                &&& o.exch_timestamp == resp.update_time * 1_000_000
                &&& o.req == Status::NoStatus
                &&& o.order_id == e.order.order_id
                &&& o.exec_price_tick == e.order.exec_price_tick
                &&& o.base == e.order.base
            }
            &&& resp.update_time * 1_000_000 < e.order.exch_timestamp ==> o == e.order
            &&& f.req == Status::NoStatus
            &&& f.status == (match status { Some(st) => st, None => e.order.status })
            &&& f.order_id == e.order.order_id && f.fill == e.order.fill && f.exch_timestamp == e.order.exch_timestamp
            &&& orders_after(orders, cid, settled(e, o, false)).contains_key(cid) ==> orders_after(orders, cid, settled(e, o, false))[cid].order == o
            &&& !(e.removed_by_ws || e.removed_by_rest) ==> reported(e, o) == Some(o) && reported(e, f) == Some(f)
        }),
{
}

} // verus!
