//! The market and account state that one live strategy reads: its depth book, position, open
//! orders and recent trades, and which changes call for a new decision.
//!
//! Prices and quantities stay the caller's: a depth level comes in ticks and lots, a position
//! and each order's quantities come with their canonical bits (those of the value, with `-0.0`
//! taken as `0.0`), by which a change is seen.
use vstd::prelude::*;
use std::collections::HashMap;
use std::collections::VecDeque;

use crate::hash_depth::{is_price_tick, HashMapMarketDepth};
use crate::market_stream::{lowercase, to_lowercase};
use crate::roi_depth::Level;
use crate::text::str_equal;
use crate::types::{
    event_is, is_active, is_pending, spec_event_is, spec_is_active, Side, Status, BUY_EVENT,
    DEPTH_CLEAR_EVENT, DEPTH_EVENT, SELL_EVENT, TRADE_EVENT,
};

verus! {

broadcast use vstd::std_specs::hash::group_hash_axioms;

/// How many recent trades a runtime keeps.
pub const TRADE_HISTORY: usize = 1024;

/// An order as the strategy sees it. `quantities` holds the canonical bits of the quantity, the
/// remaining quantity and the executed quantity, or `None` where one of them is not a number
/// (then the order never equals another); `order` is the caller's full order.
pub struct RuntimeOrder<O> {
    pub order_id: u64,
    pub status: Status,
    pub req: Status,
    pub side: Side,
    pub price_tick: i64,
    pub quantities: Option<(u64, u64, u64)>,
    pub order: O,
}

/// What reaches a runtime.
pub enum RuntimeEvent<Q, T, O, P> {
    /// A market event of the symbol: its kind flags and local time; for a depth update the price
    /// tick, the quantity in lots and the level; for a trade the trade.
    Feed { symbol: String, ev: u64, local_ts: i64, price_tick: i64, qty_lot: i64, level: Level<Q>, trade: T },
    /// An order update of the symbol.
    Order { symbol: String, order: RuntimeOrder<O> },
    /// A position update of the symbol: the quantity, its canonical bits (`None` where it is not
    /// finite) and the exchange time.
    Position { symbol: String, qty: P, qty_key: Option<u64>, exch_ts: i64 },
}

/// An update that leaves the order as it was for the strategy: same status, side, price and
/// quantities, none of them not a number.
pub open spec fn same_order<O>(a: RuntimeOrder<O>, b: RuntimeOrder<O>) -> bool {
    &&& a.status == b.status
    &&& a.side == b.side
    &&& a.price_tick == b.price_tick
    &&& a.quantities is Some
    &&& a.quantities == b.quantities
}

/// The runtime of one symbol.
pub struct StrategyRuntime<Q, T, O, P> {
    symbol: String,
    depth: HashMapMarketDepth<Q>,
    position: P,
    position_key: u64,
    orders: HashMap<u64, RuntimeOrder<O>>,
    last_trades: VecDeque<T>,
    timestamp: i64,
    position_exch_timestamp: i64,
    depth_dirty: bool,
    quote_dirty: bool,
}

/// What a runtime holds.
pub struct RuntimeView<Q, T, O, P> {
    pub symbol: Seq<char>,
    pub depth: HashMapMarketDepth<Q>,
    pub position: P,
    pub position_key: u64,
    pub orders: Map<u64, RuntimeOrder<O>>,
    pub last_trades: Seq<T>,
    pub timestamp: i64,
    pub position_exch_timestamp: i64,
    pub depth_dirty: bool,
    pub quote_dirty: bool,
}

/// The trades kept once `trade` arrives: the oldest leaves when the history is full.
pub open spec fn trades_after<T>(trades: Seq<T>, trade: T) -> Seq<T> {
    if trades.len() == TRADE_HISTORY {
        trades.drop_first().push(trade)
    } else {
        trades.push(trade)
    }
}

/// What an event does to a runtime, and whether the event was applied to its account state (a
/// trade, an order update, or a position update that is finite and not older than the last).
pub open spec fn runtime_applied<Q: Copy, T, O, P>(
    o: RuntimeView<Q, T, O, P>,
    n: RuntimeView<Q, T, O, P>,
    e: RuntimeEvent<Q, T, O, P>,
    applied: bool,
) -> bool {
    match e {
        RuntimeEvent::Feed { symbol, ev, local_ts, price_tick, qty_lot, level, trade } => if symbol@
            != o.symbol {
            n == o && !applied
        } else if spec_event_is(ev, DEPTH_EVENT | BUY_EVENT) {
            &&& !applied
            &&& exists|r: (i64, i64, i64, Q, Q, i64)|
                HashMapMarketDepth::bid_update(o.depth, n.depth, price_tick, qty_lot, level, local_ts, r)
            &&& n == RuntimeView { depth: n.depth, timestamp: local_ts, depth_dirty: true, quote_dirty: true, ..o }
        } else if spec_event_is(ev, DEPTH_EVENT | SELL_EVENT) {
            &&& !applied
            &&& exists|r: (i64, i64, i64, Q, Q, i64)|
                HashMapMarketDepth::ask_update(o.depth, n.depth, price_tick, qty_lot, level, local_ts, r)
            &&& n == RuntimeView { depth: n.depth, timestamp: local_ts, depth_dirty: true, quote_dirty: true, ..o }
        } else if spec_event_is(ev, DEPTH_CLEAR_EVENT) {
            &&& !applied
            &&& HashMapMarketDepth::depth_cleared(o.depth, n.depth, Side::NoSide, None)
            &&& n == RuntimeView { depth: n.depth, timestamp: local_ts, depth_dirty: true, quote_dirty: true, ..o }
        } else if spec_event_is(ev, TRADE_EVENT) {
            applied && n == RuntimeView { last_trades: trades_after(o.last_trades, trade), timestamp: local_ts, ..o }
        } else {
            !applied && n == RuntimeView { timestamp: local_ts, ..o }
        },
        RuntimeEvent::Order { symbol, order } => if symbol@ != o.symbol {
            n == o && !applied
        } else {
            let changed = !o.orders.contains_key(order.order_id) || !same_order(o.orders[order.order_id], order);
            &&& applied
            &&& n == RuntimeView {
                orders: if spec_is_active(order.status) || order.req != Status::NoStatus {
                    o.orders.insert(order.order_id, order)
                } else {
                    o.orders.remove(order.order_id)
                },
                quote_dirty: o.quote_dirty || changed,
                ..o
            }
        },
        RuntimeEvent::Position { symbol, qty, qty_key, exch_ts } => if symbol@ != o.symbol {
            n == o && !applied
        } else {
            match qty_key {
                None => n == o && !applied,
                Some(key) => if exch_ts < o.position_exch_timestamp {
                    n == o && !applied
                } else if key != o.position_key {
                    applied && n == RuntimeView {
                        position: qty,
                        position_key: key,
                        position_exch_timestamp: exch_ts,
                        quote_dirty: true,
                        ..o
                    }
                } else {
                    applied && n == RuntimeView { position_exch_timestamp: exch_ts, ..o }
                },
            }
        },
    }
}

impl<Q: Copy, T, O, P> StrategyRuntime<Q, T, O, P> {
    pub closed spec fn view(&self) -> RuntimeView<Q, T, O, P> {
        RuntimeView {
            symbol: self.symbol@,
            depth: self.depth,
            position: self.position,
            position_key: self.position_key,
            orders: self.orders@,
            last_trades: self.last_trades@,
            timestamp: self.timestamp,
            position_exch_timestamp: self.position_exch_timestamp,
            depth_dirty: self.depth_dirty,
            quote_dirty: self.quote_dirty,
        }
    }

    /// The book is well formed and the trade history within its bound.
    pub open spec fn wf(&self) -> bool {
        &&& self.view().depth.wf()
        &&& self.view().last_trades.len() <= TRADE_HISTORY
    }

    /// The runtime of `symbol` (kept in lower case): an empty book whose missing levels read as
    /// `zero_qty`, a flat position `zero_position` (whose canonical bits are zero), no order and
    /// no trade, nothing dirty, and no position time yet.
    pub fn new(symbol: &str, zero_qty: Q, zero_position: P) -> (r: Self)
        ensures
            r.wf(),
            r.view().symbol == lowercase(symbol@),
            r.view().depth.zero == zero_qty,
            r.view().depth.model() == crate::hash_depth::map_snapshot_model(
                Seq::<crate::roi_depth::SnapshotRow<Q>>::empty(),
            ),
            r.view().position == zero_position,
            r.view().position_key == 0,
            r.view().orders == Map::<u64, RuntimeOrder<O>>::empty(),
            r.view().last_trades == Seq::<T>::empty(),
            r.view().timestamp == 0,
            r.view().position_exch_timestamp == i64::MIN,
            !r.view().depth_dirty,
            !r.view().quote_dirty,
    {
        StrategyRuntime {
            symbol: to_lowercase(symbol),
            depth: HashMapMarketDepth::new(zero_qty),
            position: zero_position,
            position_key: 0,
            orders: HashMap::new(),
            last_trades: VecDeque::new(),
            timestamp: 0,
            position_exch_timestamp: i64::MIN,
            depth_dirty: false,
            quote_dirty: false,
        }
    }

    pub fn symbol(&self) -> (r: &str)
        ensures
            r@ == self.view().symbol,
    {
        self.symbol.as_str()
    }

    /// Applies an event of any symbol; events of other symbols change nothing. Returns whether
    /// the event reached the account state (see `runtime_applied`).
    pub fn apply(&mut self, event: RuntimeEvent<Q, T, O, P>) -> (applied: bool)
        requires
            old(self).wf(),
            event matches RuntimeEvent::Feed { price_tick, .. } ==> is_price_tick(price_tick),
        ensures
            final(self).wf(),
            runtime_applied(old(self).view(), final(self).view(), event, applied),
    {
        let ghost e = event;
        match event {
            RuntimeEvent::Feed { symbol, ev, local_ts, price_tick, qty_lot, level, trade } => {
                if !str_equal(symbol.as_str(), self.symbol.as_str()) {
                    return false;
                }
                self.timestamp = local_ts;
                if event_is(ev, DEPTH_EVENT | BUY_EVENT) {
                    self.depth.update_bid_depth(price_tick, qty_lot, level, local_ts);
                    self.depth_dirty = true;
                    self.quote_dirty = true;
                    false
                } else if event_is(ev, DEPTH_EVENT | SELL_EVENT) {
                    self.depth.update_ask_depth(price_tick, qty_lot, level, local_ts);
                    self.depth_dirty = true;
                    self.quote_dirty = true;
                    false
                } else if event_is(ev, DEPTH_CLEAR_EVENT) {
                    self.depth.clear_depth(Side::NoSide, None);
                    self.depth_dirty = true;
                    self.quote_dirty = true;
                    false
                } else if event_is(ev, TRADE_EVENT) {
                    if self.last_trades.len() == TRADE_HISTORY {
                        self.last_trades.pop_front();
                    }
                    self.last_trades.push_back(trade);
                    true
                } else {
                    false
                }
            },
            RuntimeEvent::Order { symbol, order } => {
                if !str_equal(symbol.as_str(), self.symbol.as_str()) {
                    return false;
                }
                let changed = match self.orders.get(&order.order_id) {
                    None => true,
                    Some(existing) => !(existing.status == order.status && existing.side == order.side
                        && existing.price_tick == order.price_tick && match (existing.quantities, order.quantities) {
                        (Some(a), Some(b)) => a.0 == b.0 && a.1 == b.1 && a.2 == b.2,
                        _ => false,
                    }),
                };
                if is_active(order.status) || is_pending(order.req) {
                    self.orders.insert(order.order_id, order);
                } else {
                    self.orders.remove(&order.order_id);
                }
                if changed {
                    self.quote_dirty = true;
                }
                true
            },
            RuntimeEvent::Position { symbol, qty, qty_key, exch_ts } => {
                if !str_equal(symbol.as_str(), self.symbol.as_str()) {
                    return false;
                }
                let key = match qty_key {
                    None => return false,
                    Some(key) => key,
                };
                if exch_ts < self.position_exch_timestamp {
                    return false;
                }
                if self.position_key != key {
                    self.position = qty;
                    self.position_key = key;
                    self.quote_dirty = true;
                }
                self.position_exch_timestamp = exch_ts;
                true
            },
        }
    }

    /// Whether the depth changed since the last call; clears the mark.
    pub fn take_depth_dirty(&mut self) -> (r: bool)
        ensures
            r == old(self).view().depth_dirty,
            final(self).view() == (RuntimeView { depth_dirty: false, ..old(self).view() }),
    {
        let r = self.depth_dirty;
        self.depth_dirty = false;
        r
    }

    /// Whether anything the quotes depend on changed (depth, an order, the position).
    pub fn quote_dirty(&self) -> (r: bool)
        ensures
            r == self.view().quote_dirty,
    {
        self.quote_dirty
    }

    /// Whether the quotes need a new decision; clears the mark.
    pub fn take_quote_dirty(&mut self) -> (r: bool)
        ensures
            r == old(self).view().quote_dirty,
            final(self).view() == (RuntimeView { quote_dirty: false, ..old(self).view() }),
    {
        let r = self.quote_dirty;
        self.quote_dirty = false;
        r
    }

    /// The position.
    pub fn position(&self) -> (r: &P)
        ensures
            *r == self.view().position,
    {
        &self.position
    }

    /// The depth book.
    pub fn depth(&self) -> (r: &HashMapMarketDepth<Q>)
        ensures
            *r == self.view().depth,
    {
        &self.depth
    }

    /// The open and pending orders, by order id.
    pub fn orders(&self) -> (r: &HashMap<u64, RuntimeOrder<O>>)
        ensures
            r@ == self.view().orders,
    {
        &self.orders
    }

    /// How many orders are open or pending.
    pub fn open_orders(&self) -> (r: usize)
        ensures
            r == self.view().orders.len(),
    {
        self.orders.len()
    }

    /// The recent trades, oldest first.
    pub fn last_trades(&self) -> (r: &VecDeque<T>)
        ensures
            r@ == self.view().last_trades,
    {
        &self.last_trades
    }

    /// The local time of the last market event.
    pub fn timestamp(&self) -> (r: i64)
        ensures
            r == self.view().timestamp,
    {
        self.timestamp
    }
}

/// Every kept order is open or has a request outstanding, under its own order id.
pub open spec fn orders_open<O>(orders: Map<u64, RuntimeOrder<O>>) -> bool {
    forall|id: u64| #[trigger] orders.contains_key(id) ==> {
        &&& orders[id].order_id == id
        &&& spec_is_active(orders[id].status) || orders[id].req != Status::NoStatus
    }
}

/// Whatever event arrives, the runtime keeps only open or pending orders, each under its own
/// id; its position time never goes back, so an older position update never replaces a newer
/// one; and the trade history stays within its bound.
pub proof fn runtime_event_keeps_state_sound<Q: Copy, T, O, P>(
    o: RuntimeView<Q, T, O, P>,
    n: RuntimeView<Q, T, O, P>,
    e: RuntimeEvent<Q, T, O, P>,
    applied: bool,
)
    requires
        orders_open(o.orders),
        o.last_trades.len() <= TRADE_HISTORY,
        runtime_applied(o, n, e, applied),
    ensures
        orders_open(n.orders),
        n.position_exch_timestamp >= o.position_exch_timestamp,
        n.last_trades.len() <= TRADE_HISTORY,
        e matches RuntimeEvent::Position { qty_key: Some(_), exch_ts, symbol, .. } && symbol@ == o.symbol
            && exch_ts < o.position_exch_timestamp ==> n.position == o.position && !applied,
{
}

} // verus!
