//! How the grid market maker brings its open orders in line with the quotes it wants.
//!
//! The quotes themselves (prices and quantities) are floating point and are worked out by the
//! caller; here each open order is matched with the nearest quote of its side, kept when it is
//! close enough and of the same size, or canceled once it has lived long enough, and the quotes
//! that no order stands for are submitted.
use vstd::prelude::*;

use crate::types::{OrdType, Side, Status, TimeInForce};
use crate::user_stream::{ms_to_ns_saturating, saturating_ms_to_ns};

verus! {

/// A quote the grid wants on the book; `matched` once an open order stands for it.
#[derive(Clone, Copy, Debug)]
pub struct DesiredQuote<Q> {
    pub order_id: u64,
    pub price_tick: i64,
    pub price: Q,
    pub qty: Q,
    pub side: Side,
    pub matched: bool,
}

/// What the grid reads of one of its open orders.
#[derive(Clone, Copy, Debug)]
pub struct GridOrder {
    pub order_id: u64,
    pub price_tick: i64,
    pub side: Side,
    pub status: Status,
    pub req: Status,
    pub local_timestamp: i64,
}

/// An action a strategy asks for.
#[derive(Clone, Copy, Debug)]
pub enum StrategyCommand<Q> {
    Submit { order_id: u64, price: Q, qty: Q, side: Side, time_in_force: TimeInForce, order_type: OrdType },
    Modify { order_id: u64, price: Q, qty: Q },
    Cancel { order_id: u64 },
}

/// The settings and state that the matching reads: whether inventory is in the stop zone, the
/// current time in nanoseconds, how many ticks a kept order may stand from its quote, and how
/// long an order lives at least before it is replaced.
#[derive(Clone, Copy, Debug)]
pub struct GridParams {
    pub emergency_inventory: bool,
    pub timestamp: i64,
    pub requote_ticks: u64,
    pub min_quote_lifetime_ms: u64,
}

/// The order is live at the exchange with no request in flight.
pub open spec fn is_cancellable(order: GridOrder) -> bool {
    (order.status == Status::New || order.status == Status::PartiallyFilled) && order.req == Status::NoStatus
}

/// Whether an order can be canceled: live, with no request in flight.
pub fn cancellable(order: &GridOrder) -> (r: bool)
    ensures
        r == is_cancellable(*order),
{
    (order.status == Status::New || order.status == Status::PartiallyFilled) && order.req == Status::NoStatus
}

/// An order placed at `local_timestamp` has lived `min_quote_lifetime_ms` by `timestamp`; an
/// order or a clock without a time counts as old enough.
pub open spec fn is_old_enough(timestamp: i64, local_timestamp: i64, min_quote_lifetime_ms: u64) -> bool {
    if local_timestamp <= 0 || timestamp <= 0 {
        true
    } else {
        let ms: i64 = if min_quote_lifetime_ms > i64::MAX as u64 { i64::MAX } else { min_quote_lifetime_ms as i64 };
        timestamp - local_timestamp >= ms_to_ns_saturating(ms)
    }
}

/// Whether an order placed at `local_timestamp` has lived its minimum lifetime by `timestamp`.
pub fn quote_old_enough(timestamp: i64, local_timestamp: i64, min_quote_lifetime_ms: u64) -> (r: bool)
    ensures
        r == is_old_enough(timestamp, local_timestamp, min_quote_lifetime_ms),
{
    if local_timestamp <= 0 || timestamp <= 0 {
        return true;
    }
    let ms: i64 = if min_quote_lifetime_ms > i64::MAX as u64 { i64::MAX } else { min_quote_lifetime_ms as i64 };
    let min_lifetime_ns = saturating_ms_to_ns(ms);
    timestamp - local_timestamp >= min_lifetime_ns
}

/// How many ticks apart two prices are.
pub open spec fn tick_distance(a: i64, b: i64) -> int {
    if a >= b { a - b } else { b - a }
}

/// The unmatched quote of the order's side nearest to its price among the first `n`, the
/// earliest where several are as near.
pub open spec fn nearest_quote<Q>(quotes: Seq<DesiredQuote<Q>>, order: GridOrder, n: int) -> Option<int>
    decreases n,
{
    if n <= 0 {
        None
    } else {
        let best = nearest_quote(quotes, order, n - 1);
        let i = n - 1;
        if !quotes[i].matched && quotes[i].side == order.side && match best {
            None => true,
            Some(b) => tick_distance(order.price_tick, quotes[i].price_tick) < tick_distance(order.price_tick, quotes[b].price_tick),
        } {
            Some(i)
        } else {
            best
        }
    }
}

/// Where the matching stands: the quotes with their marks, the commands so far, and the ids of
/// the orders it canceled.
pub struct GridPass<Q> {
    pub quotes: Seq<DesiredQuote<Q>>,
    pub commands: Seq<StrategyCommand<Q>>,
    pub canceled: Seq<u64>,
}

pub open spec fn mark_matched<Q>(quotes: Seq<DesiredQuote<Q>>, i: int) -> Seq<DesiredQuote<Q>> {
    let q = quotes[i];
    quotes.update(i, DesiredQuote { order_id: q.order_id, price_tick: q.price_tick, price: q.price, qty: q.qty, side: q.side, matched: true })
}

/// One open order against the quotes: without a quote of its side it is canceled when it can be
/// and has lived long enough (or inventory is in the stop zone); with one, that quote is taken,
/// and the order is canceled unless it stands within the requote distance with the same size,
/// is too young, or cannot be canceled.
pub open spec fn settle_order<Q>(s: GridPass<Q>, order: GridOrder, qty_matches: Seq<bool>, p: GridParams) -> GridPass<Q> {
    let stale = p.emergency_inventory || is_old_enough(p.timestamp, order.local_timestamp, p.min_quote_lifetime_ms);
    let cancel = StrategyCommand::<Q>::Cancel { order_id: order.order_id };
    match nearest_quote(s.quotes, order, s.quotes.len() as int) {
        None => if is_cancellable(order) && stale {
            GridPass { quotes: s.quotes, commands: s.commands.push(cancel), canceled: s.canceled.push(order.order_id) }
        } else {
            s
        },
        Some(i) => {
            let keep = tick_distance(order.price_tick, s.quotes[i].price_tick) <= p.requote_ticks && qty_matches[i];
            let quotes = mark_matched(s.quotes, i);
            if keep || !stale || !is_cancellable(order) {
                GridPass { quotes, commands: s.commands, canceled: s.canceled }
            } else {
                GridPass { quotes, commands: s.commands.push(cancel), canceled: s.canceled.push(order.order_id) }
            }
        },
    }
}

/// The first `n` open orders settled in turn, `qty_matches[k][i]` saying whether order `k` has
/// the size of quote `i`.
pub open spec fn settle_orders<Q>(
    desired: Seq<DesiredQuote<Q>>,
    orders: Seq<GridOrder>,
    qty_matches: Seq<Seq<bool>>,
    p: GridParams,
    n: int,
) -> GridPass<Q>
    decreases n,
{
    if n <= 0 {
        GridPass { quotes: desired, commands: Seq::empty(), canceled: Seq::empty() }
    } else {
        settle_order(settle_orders(desired, orders, qty_matches, p, n - 1), orders[n - 1], qty_matches[n - 1], p)
    }
}

pub open spec fn has_order_id(orders: Seq<GridOrder>, id: u64) -> bool {
    exists|k: int| 0 <= k < orders.len() && #[trigger] orders[k].order_id == id
}

pub open spec fn submit_of<Q>(q: DesiredQuote<Q>) -> StrategyCommand<Q> {
    StrategyCommand::Submit {
        order_id: q.order_id,
        price: q.price,
        qty: q.qty,
        side: q.side,
        time_in_force: TimeInForce::GTX,
        order_type: OrdType::Limit,
    }
}

/// The submissions of the first `n` quotes that no order stands for, whose id is neither
/// canceled in this pass nor that of an open order, as post-only limit orders.
pub open spec fn submissions<Q>(quotes: Seq<DesiredQuote<Q>>, canceled: Seq<u64>, orders: Seq<GridOrder>, n: int) -> Seq<StrategyCommand<Q>>
    decreases n,
{
    if n <= 0 {
        Seq::empty()
    } else {
        let prev = submissions(quotes, canceled, orders, n - 1);
        let q = quotes[n - 1];
        if q.matched || canceled.contains(q.order_id) || has_order_id(orders, q.order_id) {
            prev
        } else {
            prev.push(submit_of(q))
        }
    }
}

/// The commands that bring the open orders in line with the desired quotes: nothing when no
/// quote is wanted; else the cancels of settling the orders in turn, then the submissions.
pub open spec fn grid_commands<Q>(
    desired: Seq<DesiredQuote<Q>>,
    orders: Seq<GridOrder>,
    qty_matches: Seq<Seq<bool>>,
    p: GridParams,
) -> Seq<StrategyCommand<Q>> {
    if desired.len() == 0 {
        Seq::empty()
    } else {
        let s = settle_orders(desired, orders, qty_matches, p, orders.len() as int);
        s.commands + submissions(s.quotes, s.canceled, orders, s.quotes.len() as int)
    }
}

pub open spec fn rows(m: Seq<Vec<bool>>) -> Seq<Seq<bool>> {
    m.map_values(|r: Vec<bool>| r@)
}


/// How many ticks apart two prices are.
fn tick_distance_of(a: i64, b: i64) -> (r: u64)
    ensures
        r == tick_distance(a, b),
{
    let d: i128 = if a >= b { a as i128 - b as i128 } else { b as i128 - a as i128 };
    d as u64
}

/// The unmatched quote of the order's side nearest to its price, the earliest where several
/// are as near.
fn find_nearest<Q: Copy>(quotes: &Vec<DesiredQuote<Q>>, order: &GridOrder) -> (r: Option<usize>)
    ensures
        r matches Some(i) ==> i < quotes.len() && nearest_quote(quotes@, *order, quotes.len() as int) == Some(i as int),
        r is None ==> nearest_quote(quotes@, *order, quotes.len() as int) is None,
{
    let mut best: Option<usize> = None;
    let mut best_distance: u64 = 0;
    let mut i: usize = 0;
    while i < quotes.len()
        invariant
            i <= quotes.len(),
            best matches Some(b) ==> nearest_quote(quotes@, *order, i as int) == Some(b as int) && b < i
                && best_distance == tick_distance(order.price_tick, quotes@[b as int].price_tick),
            best is None ==> nearest_quote(quotes@, *order, i as int) is None,
        decreases quotes.len() - i,
    {
        let q = quotes[i];
        if !q.matched && q.side == order.side {
            let distance = tick_distance_of(order.price_tick, q.price_tick);
            match best {
                None => {
                    best = Some(i);
                    best_distance = distance;
                },
                Some(_) => {
                    if distance < best_distance {
                        best = Some(i);
                        best_distance = distance;
                    }
                },
            }
        }
        i = i + 1;
    }
    best
}

fn contains_id(ids: &Vec<u64>, id: u64) -> (r: bool)
    ensures
        r == ids@.contains(id),
{
    let mut i: usize = 0;
    while i < ids.len()
        invariant
            i <= ids.len(),
            forall|j: int| 0 <= j < i ==> ids@[j] != id,
        decreases ids.len() - i,
    {
        if ids[i] == id {
            return true;
        }
        i = i + 1;
    }
    false
}

fn has_order(orders: &Vec<GridOrder>, id: u64) -> (r: bool)
    ensures
        r == has_order_id(orders@, id),
{
    let mut i: usize = 0;
    while i < orders.len()
        invariant
            i <= orders.len(),
            forall|j: int| 0 <= j < i ==> orders@[j].order_id != id,
        decreases orders.len() - i,
    {
        if orders[i].order_id == id {
            return true;
        }
        i = i + 1;
    }
    false
}

/// The commands that bring the open `orders` in line with the `desired` quotes;
/// `qty_matches[k][i]` says whether order `k` has the size of quote `i`.
pub fn reconcile_quotes<Q: Copy>(
    desired: Vec<DesiredQuote<Q>>,
    orders: &Vec<GridOrder>,
    qty_matches: &Vec<Vec<bool>>,
    p: GridParams,
) -> (r: Vec<StrategyCommand<Q>>)
    requires
        qty_matches.len() == orders.len(),
        forall|k: int| 0 <= k < qty_matches.len() ==> (#[trigger] qty_matches@[k]).len() == desired.len(),
    ensures
        r@ == grid_commands(desired@, orders@, rows(qty_matches@), p),
{
    if desired.len() == 0 {
        return Vec::new();
    }
    let ghost d = desired@;
    let ghost m = rows(qty_matches@);
    let mut quotes = desired;
    let mut commands: Vec<StrategyCommand<Q>> = Vec::new();
    let mut canceled: Vec<u64> = Vec::new();
    let mut k: usize = 0;
    while k < orders.len()
        invariant
            k <= orders.len(),
            qty_matches.len() == orders.len(),
            forall|j: int| 0 <= j < qty_matches.len() ==> (#[trigger] qty_matches@[j]).len() == d.len(),
            m == rows(qty_matches@),
            quotes@.len() == d.len(),
            quotes@ == settle_orders(d, orders@, m, p, k as int).quotes,
            commands@ == settle_orders(d, orders@, m, p, k as int).commands,
            canceled@ == settle_orders(d, orders@, m, p, k as int).canceled,
        decreases orders.len() - k,
    {
        let order = orders[k];
        let stale = p.emergency_inventory || quote_old_enough(p.timestamp, order.local_timestamp, p.min_quote_lifetime_ms);
        let ghost before = settle_orders(d, orders@, m, p, k as int);
        assert(m[k as int] == qty_matches@[k as int]@);
        match find_nearest(&quotes, &order) {
            None => {
                if cancellable(&order) && stale {
                    commands.push(StrategyCommand::Cancel { order_id: order.order_id });
                    canceled.push(order.order_id);
                }
            },
            Some(i) => {
                let q = quotes[i];
                let keep = tick_distance_of(order.price_tick, q.price_tick) <= p.requote_ticks && qty_matches[k][i];
                quotes.set(i, DesiredQuote { order_id: q.order_id, price_tick: q.price_tick, price: q.price, qty: q.qty, side: q.side, matched: true });
                if !(keep || !stale || !cancellable(&order)) {
                    commands.push(StrategyCommand::Cancel { order_id: order.order_id });
                    canceled.push(order.order_id);
                }
            },
        }
        k = k + 1;
    }
    let ghost settled = settle_orders(d, orders@, m, p, orders.len() as int);
    let mut i: usize = 0;
    while i < quotes.len()
        invariant
            i <= quotes.len(),
            quotes@ == settled.quotes,
            canceled@ == settled.canceled,
            commands@ == settled.commands + submissions(settled.quotes, settled.canceled, orders@, i as int),
        decreases quotes.len() - i,
    {
        let q = quotes[i];
        if !q.matched && !contains_id(&canceled, q.order_id) && !has_order(orders, q.order_id) {
            commands.push(StrategyCommand::Submit {
                order_id: q.order_id,
                price: q.price,
                qty: q.qty,
                side: q.side,
                time_in_force: TimeInForce::GTX,
                order_type: OrdType::Limit,
            });
        }
        i = i + 1;
    }
    commands
}


proof fn lemma_nearest_bounds<Q>(quotes: Seq<DesiredQuote<Q>>, order: GridOrder, n: int)
    ensures
        nearest_quote(quotes, order, n) matches Some(i) ==> 0 <= i < n,
    decreases n,
{
    if n > 0 {
        lemma_nearest_bounds(quotes, order, n - 1);
    }
}

proof fn lemma_settled_commands_cancel<Q>(
    desired: Seq<DesiredQuote<Q>>,
    orders: Seq<GridOrder>,
    qty_matches: Seq<Seq<bool>>,
    p: GridParams,
    n: int,
)
    requires
        n <= orders.len(),
    ensures
        ({
            let s = settle_orders(desired, orders, qty_matches, p, n);
            &&& s.quotes.len() == desired.len()
            &&& forall|j: int| 0 <= j < s.commands.len() ==> ((#[trigger] s.commands[j]) matches StrategyCommand::Cancel { order_id }
                && s.canceled.contains(order_id) && has_order_id(orders, order_id))
        }),
    decreases n,
{
    if n > 0 {
        lemma_settled_commands_cancel(desired, orders, qty_matches, p, n - 1);
        let prev = settle_orders(desired, orders, qty_matches, p, n - 1);
        let s = settle_orders(desired, orders, qty_matches, p, n);
        let order = orders[n - 1];
        assert(orders[n - 1].order_id == order.order_id);
        lemma_nearest_bounds(prev.quotes, order, prev.quotes.len() as int);
        assert forall|j: int| 0 <= j < s.commands.len() implies ((#[trigger] s.commands[j]) matches StrategyCommand::Cancel { order_id }
            && s.canceled.contains(order_id) && has_order_id(orders, order_id)) by {
            if j < prev.commands.len() {
                assert(s.commands[j] == prev.commands[j]);
                if let StrategyCommand::Cancel { order_id } = prev.commands[j] {
                    let w = choose|w: int| 0 <= w < prev.canceled.len() && prev.canceled[w] == order_id;
                    assert(s.canceled[w] == order_id);
                }
            } else {
                assert(s.canceled[s.canceled.len() - 1] == order.order_id);
            }
        }
    }
}

proof fn lemma_submissions_are_fresh<Q>(quotes: Seq<DesiredQuote<Q>>, canceled: Seq<u64>, orders: Seq<GridOrder>, n: int)
    requires
        n <= quotes.len(),
    ensures
        forall|j: int| 0 <= j < submissions(quotes, canceled, orders, n).len() ==>
            ((#[trigger] submissions(quotes, canceled, orders, n)[j]) matches StrategyCommand::Submit { order_id, .. }
            && !canceled.contains(order_id) && !has_order_id(orders, order_id)),
    decreases n,
{
    if n > 0 {
        lemma_submissions_are_fresh(quotes, canceled, orders, n - 1);
    }
}

/// A pass never submits an order under the id of an order it cancels or of an open order: a
/// replaced quote is submitted only after the exchange has ended the old order.
pub proof fn grid_never_resubmits_a_live_id<Q>(
    desired: Seq<DesiredQuote<Q>>,
    orders: Seq<GridOrder>,
    qty_matches: Seq<Seq<bool>>,
    p: GridParams,
)
    ensures
        ({
            let r = grid_commands(desired, orders, qty_matches, p);
            forall|i: int| 0 <= i < r.len() ==> match #[trigger] r[i] {
                StrategyCommand::Submit { order_id, .. } => {
                    &&& !has_order_id(orders, order_id)
                    &&& forall|j: int| 0 <= j < r.len() ==> r[j] != (StrategyCommand::<Q>::Cancel { order_id })
                },
                StrategyCommand::Cancel { order_id } => has_order_id(orders, order_id),
                StrategyCommand::Modify { .. } => false,
            }
        }),
{
    if desired.len() > 0 {
        let s = settle_orders(desired, orders, qty_matches, p, orders.len() as int);
        let subs = submissions(s.quotes, s.canceled, orders, s.quotes.len() as int);
        let r = grid_commands(desired, orders, qty_matches, p);
        lemma_settled_commands_cancel(desired, orders, qty_matches, p, orders.len() as int);
        lemma_submissions_are_fresh(s.quotes, s.canceled, orders, s.quotes.len() as int);
        assert(r == s.commands + subs);
        assert forall|i: int| 0 <= i < r.len() implies match #[trigger] r[i] {
            StrategyCommand::Submit { order_id, .. } => {
                &&& !has_order_id(orders, order_id)
                &&& forall|j: int| 0 <= j < r.len() ==> r[j] != (StrategyCommand::<Q>::Cancel { order_id })
            },
            StrategyCommand::Cancel { order_id } => has_order_id(orders, order_id),
            StrategyCommand::Modify { .. } => false,
        } by {
            if i < s.commands.len() {
                assert(r[i] == s.commands[i]);
            } else {
                assert(r[i] == subs[i - s.commands.len()]);
                if let StrategyCommand::Submit { order_id, .. } = r[i] {
                    assert forall|j: int| 0 <= j < r.len() implies r[j] != (StrategyCommand::<Q>::Cancel { order_id }) by {
                        if j < s.commands.len() {
                            assert(r[j] == s.commands[j]);
                        } else {
                            assert(r[j] == subs[j - s.commands.len()]);
                        }
                    }
                }
            }
        }
    }
}

proof fn lemma_nearest_none_without_side<Q>(quotes: Seq<DesiredQuote<Q>>, order: GridOrder, n: int)
    requires
        n <= quotes.len(),
        forall|i: int| 0 <= i < quotes.len() ==> (#[trigger] quotes[i]).side != order.side,
    ensures
        nearest_quote(quotes, order, n) is None,
    decreases n,
{
    if n > 0 {
        lemma_nearest_none_without_side(quotes, order, n - 1);
    }
}

/// Settling orders keeps every quote's side and every command given so far.
proof fn lemma_settle_keeps<Q>(
    desired: Seq<DesiredQuote<Q>>,
    orders: Seq<GridOrder>,
    qty_matches: Seq<Seq<bool>>,
    p: GridParams,
    n: int,
    m: int,
)
    requires
        0 <= n <= m <= orders.len(),
    ensures
        ({
            let a = settle_orders(desired, orders, qty_matches, p, n);
            let b = settle_orders(desired, orders, qty_matches, p, m);
            &&& b.quotes.len() == desired.len()
            &&& forall|i: int| 0 <= i < desired.len() ==> (#[trigger] b.quotes[i]).side == desired[i].side
            &&& a.commands.len() <= b.commands.len()
            &&& forall|j: int| 0 <= j < a.commands.len() ==> #[trigger] b.commands[j] == a.commands[j]
        }),
    decreases m,
{
    if m > n {
        lemma_settle_keeps(desired, orders, qty_matches, p, n, m - 1);
        let prev = settle_orders(desired, orders, qty_matches, p, m - 1);
        lemma_nearest_bounds(prev.quotes, orders[m - 1], prev.quotes.len() as int);
    } else if m > 0 {
        lemma_settle_keeps(desired, orders, qty_matches, p, 0, m - 1);
        let prev = settle_orders(desired, orders, qty_matches, p, m - 1);
        lemma_nearest_bounds(prev.quotes, orders[m - 1], prev.quotes.len() as int);
    }
}

/// An open order that no wanted quote of its side stands for, that can be canceled (live, with
/// no request in flight) and that has lived at least the minimum quote lifetime is canceled,
/// whether or not inventory is in the stop zone.
pub proof fn old_orders_without_a_quote_are_canceled<Q>(
    desired: Seq<DesiredQuote<Q>>,
    orders: Seq<GridOrder>,
    qty_matches: Seq<Seq<bool>>,
    p: GridParams,
    k: int,
)
    requires
        desired.len() > 0,
        0 <= k < orders.len(),
        forall|i: int| 0 <= i < desired.len() ==> (#[trigger] desired[i]).side != orders[k].side,
        orders[k].status == Status::New || orders[k].status == Status::PartiallyFilled,
        orders[k].req == Status::NoStatus,
        p.timestamp - orders[k].local_timestamp >= p.min_quote_lifetime_ms * 1_000_000,
    ensures
        grid_commands(desired, orders, qty_matches, p).contains(
            StrategyCommand::Cancel { order_id: orders[k].order_id },
        ),
{
    let order = orders[k];
    let before = settle_orders(desired, orders, qty_matches, p, k);
    let after = settle_orders(desired, orders, qty_matches, p, k + 1);
    let all = settle_orders(desired, orders, qty_matches, p, orders.len() as int);
    lemma_settle_keeps(desired, orders, qty_matches, p, k, k);
    lemma_nearest_none_without_side(before.quotes, order, before.quotes.len() as int);
    assert(is_old_enough(p.timestamp, order.local_timestamp, p.min_quote_lifetime_ms));
    let cancel = StrategyCommand::<Q>::Cancel { order_id: order.order_id };
    assert(after.commands == before.commands.push(cancel));
    let j = before.commands.len() as int;
    lemma_settle_keeps(desired, orders, qty_matches, p, k + 1, orders.len() as int);
    assert(all.commands[j] == cancel);
    let r = grid_commands(desired, orders, qty_matches, p);
    let subs = submissions(all.quotes, all.canceled, orders, all.quotes.len() as int);
    assert(r == all.commands + subs);
    assert(r[j] == cancel);
}

proof fn lemma_nearest_is_of_the_side<Q>(quotes: Seq<DesiredQuote<Q>>, order: GridOrder, n: int)
    ensures
        nearest_quote(quotes, order, n) matches Some(i) ==> quotes[i].side == order.side,
    decreases n,
{
    if n > 0 {
        lemma_nearest_is_of_the_side(quotes, order, n - 1);
    }
}

/// A quote of a side that no open order has is left as it was by settling, and every id the
/// settling cancels is that of an open order.
proof fn lemma_settle_leaves_quote<Q>(
    desired: Seq<DesiredQuote<Q>>,
    orders: Seq<GridOrder>,
    qty_matches: Seq<Seq<bool>>,
    p: GridParams,
    n: int,
    i: int,
)
    requires
        0 <= n <= orders.len(),
        0 <= i < desired.len(),
        forall|k: int| 0 <= k < n ==> (#[trigger] orders[k]).side != desired[i].side,
    ensures
        settle_orders(desired, orders, qty_matches, p, n).quotes[i] == desired[i],
        forall|j: int| 0 <= j < settle_orders(desired, orders, qty_matches, p, n).canceled.len()
            ==> has_order_id(orders, #[trigger] settle_orders(desired, orders, qty_matches, p, n).canceled[j]),
    decreases n,
{
    if n > 0 {
        lemma_settle_leaves_quote(desired, orders, qty_matches, p, n - 1, i);
        lemma_settle_keeps(desired, orders, qty_matches, p, 0, n - 1);
        let prev = settle_orders(desired, orders, qty_matches, p, n - 1);
        let order = orders[n - 1];
        lemma_nearest_is_of_the_side(prev.quotes, order, prev.quotes.len() as int);
        lemma_nearest_bounds(prev.quotes, order, prev.quotes.len() as int);
        let cur = settle_orders(desired, orders, qty_matches, p, n);
        assert(orders[n - 1].order_id == order.order_id);
        assert forall|j: int| 0 <= j < cur.canceled.len() implies has_order_id(orders, #[trigger] cur.canceled[j]) by {
            if j < prev.canceled.len() {
                assert(cur.canceled[j] == prev.canceled[j]);
            }
        }
    }
}

proof fn lemma_submissions_include<Q>(quotes: Seq<DesiredQuote<Q>>, canceled: Seq<u64>, orders: Seq<GridOrder>, n: int, i: int)
    requires
        0 <= i < n <= quotes.len(),
        !quotes[i].matched,
        !canceled.contains(quotes[i].order_id),
        !has_order_id(orders, quotes[i].order_id),
    ensures
        submissions(quotes, canceled, orders, n).contains(submit_of(quotes[i])),
    decreases n,
{
    let sub = submissions(quotes, canceled, orders, n);
    if i < n - 1 {
        lemma_submissions_include(quotes, canceled, orders, n - 1, i);
        let prev = submissions(quotes, canceled, orders, n - 1);
        let w = choose|w: int| 0 <= w < prev.len() && prev[w] == submit_of(quotes[i]);
        assert(sub[w] == prev[w]);
    } else {
        assert(sub[sub.len() - 1] == submit_of(quotes[i]));
    }
}

/// A wanted quote that is not yet stood for, of a side that no open order has, and whose id is
/// not that of an open order, is submitted as a post-only limit order at its price and size.
pub proof fn quotes_without_an_order_are_submitted<Q>(
    desired: Seq<DesiredQuote<Q>>,
    orders: Seq<GridOrder>,
    qty_matches: Seq<Seq<bool>>,
    p: GridParams,
    i: int,
)
    requires
        0 <= i < desired.len(),
        !desired[i].matched,
        forall|k: int| 0 <= k < orders.len() ==> (#[trigger] orders[k]).side != desired[i].side,
        forall|k: int| 0 <= k < orders.len() ==> (#[trigger] orders[k]).order_id != desired[i].order_id,
    ensures
        grid_commands(desired, orders, qty_matches, p).contains(
            StrategyCommand::Submit {
                order_id: desired[i].order_id,
                price: desired[i].price,
                qty: desired[i].qty,
                side: desired[i].side,
                time_in_force: TimeInForce::GTX,
                order_type: OrdType::Limit,
            },
        ),
{
    let n = orders.len() as int;
    let all = settle_orders(desired, orders, qty_matches, p, n);
    lemma_settle_leaves_quote(desired, orders, qty_matches, p, n, i);
    lemma_settle_keeps(desired, orders, qty_matches, p, 0, n);
    let id = desired[i].order_id;
    assert(!has_order_id(orders, id));
    assert(!all.canceled.contains(id)) by {
        if all.canceled.contains(id) {
            let j = choose|j: int| 0 <= j < all.canceled.len() && all.canceled[j] == id;
            assert(has_order_id(orders, all.canceled[j]));
        }
    }
    lemma_submissions_include(all.quotes, all.canceled, orders, all.quotes.len() as int, i);
    let subs = submissions(all.quotes, all.canceled, orders, all.quotes.len() as int);
    let r = grid_commands(desired, orders, qty_matches, p);
    assert(r == all.commands + subs);
    let w = choose|w: int| 0 <= w < subs.len() && subs[w] == submit_of(all.quotes[i]);
    assert(r[all.commands.len() + w] == subs[w]);
}

/// No wanted quote, no command.
pub proof fn no_quotes_no_commands<Q>(orders: Seq<GridOrder>, qty_matches: Seq<Seq<bool>>, p: GridParams)
    ensures
        grid_commands(Seq::<DesiredQuote<Q>>::empty(), orders, qty_matches, p).len() == 0,
{
}

proof fn lemma_nearest_some<Q>(quotes: Seq<DesiredQuote<Q>>, order: GridOrder, n: int, i: int)
    requires
        0 <= i < n <= quotes.len(),
        !quotes[i].matched,
        quotes[i].side == order.side,
    ensures
        nearest_quote(quotes, order, n) is Some,
    decreases n,
{
    if i < n - 1 {
        lemma_nearest_some(quotes, order, n - 1, i);
    }
}

/// A cancel among the settled commands is that of an order whose own settling gave it.
proof fn lemma_cancel_origin<Q>(
    desired: Seq<DesiredQuote<Q>>,
    orders: Seq<GridOrder>,
    qty_matches: Seq<Seq<bool>>,
    p: GridParams,
    n: int,
    id: u64,
)
    requires
        0 <= n <= orders.len(),
        settle_orders(desired, orders, qty_matches, p, n).commands.contains(StrategyCommand::<Q>::Cancel { order_id: id }),
    ensures
        exists|j: int| 0 <= j < n && orders[j].order_id == id && #[trigger] settle_orders(desired, orders, qty_matches, p, j + 1).commands
            == settle_orders(desired, orders, qty_matches, p, j).commands.push(StrategyCommand::<Q>::Cancel { order_id: id }),
    decreases n,
{
    let c = StrategyCommand::<Q>::Cancel { order_id: id };
    let prev = settle_orders(desired, orders, qty_matches, p, n - 1);
    let cur = settle_orders(desired, orders, qty_matches, p, n);
    let w = choose|w: int| 0 <= w < cur.commands.len() && cur.commands[w] == c;
    if w < prev.commands.len() && cur.commands.len() >= prev.commands.len() && cur.commands.subrange(0, prev.commands.len() as int) == prev.commands {
        assert(prev.commands[w] == c);
        lemma_cancel_origin(desired, orders, qty_matches, p, n - 1, id);
        let j = choose|j: int| 0 <= j < n - 1 && orders[j].order_id == id && #[trigger] settle_orders(desired, orders, qty_matches, p, j + 1).commands
            == settle_orders(desired, orders, qty_matches, p, j).commands.push(c);
        assert(0 <= j < n && orders[j].order_id == id);
    } else {
        assert(n - 1 + 1 == n);
        assert(cur.commands == prev.commands || cur.commands == prev.commands.push(StrategyCommand::<Q>::Cancel { order_id: orders[n - 1].order_id }));
        if cur.commands == prev.commands {
            assert(cur.commands.subrange(0, prev.commands.len() as int) =~= prev.commands);
        } else {
            assert(cur.commands.subrange(0, prev.commands.len() as int) =~= prev.commands);
            assert(w == prev.commands.len());
            assert(orders[n - 1].order_id == id);
        }
    }
}

/// An open order that is the only one of its side, with no other open order under its id, is
/// kept when every quote of its side is within the requote distance of it and of its size, and
/// there is such a quote: it is not canceled, whatever its age or the inventory.
pub proof fn orders_near_their_quote_are_kept<Q>(
    desired: Seq<DesiredQuote<Q>>,
    orders: Seq<GridOrder>,
    qty_matches: Seq<Seq<bool>>,
    p: GridParams,
    k: int,
    i: int,
)
    requires
        0 <= k < orders.len(),
        0 <= i < desired.len(),
        qty_matches.len() == orders.len(),
        qty_matches[k].len() == desired.len(),
        forall|j: int| 0 <= j < orders.len() && j != k ==> (#[trigger] orders[j]).side != orders[k].side
            && orders[j].order_id != orders[k].order_id,
        !desired[i].matched,
        desired[i].side == orders[k].side,
        forall|q: int| 0 <= q < desired.len() && (#[trigger] desired[q]).side == orders[k].side ==> qty_matches[k][q]
            && (if orders[k].price_tick >= desired[q].price_tick {
                orders[k].price_tick - desired[q].price_tick
            } else {
                desired[q].price_tick - orders[k].price_tick
            }) <= p.requote_ticks,
    ensures
        !grid_commands(desired, orders, qty_matches, p).contains(
            StrategyCommand::Cancel { order_id: orders[k].order_id },
        ),
{
    let id = orders[k].order_id;
    let c = StrategyCommand::<Q>::Cancel { order_id: id };
    let n = orders.len() as int;
    let before = settle_orders(desired, orders, qty_matches, p, k);
    lemma_settle_keeps(desired, orders, qty_matches, p, 0, k);
    assert forall|q: int| 0 <= q < desired.len() && (#[trigger] desired[q]).side == orders[k].side implies before.quotes[q] == desired[q] by {
        lemma_settle_leaves_quote(desired, orders, qty_matches, p, k, q);
    }
    assert(before.quotes[i] == desired[i]);
    lemma_nearest_some(before.quotes, orders[k], before.quotes.len() as int, i);
    lemma_nearest_is_of_the_side(before.quotes, orders[k], before.quotes.len() as int);
    lemma_nearest_bounds(before.quotes, orders[k], before.quotes.len() as int);
    let b = nearest_quote(before.quotes, orders[k], before.quotes.len() as int)->0;
    assert(before.quotes[b].side == orders[k].side);
    assert(before.quotes[b] == desired[b]);
    let after = settle_orders(desired, orders, qty_matches, p, k + 1);
    assert(after.commands == before.commands);
    let all = settle_orders(desired, orders, qty_matches, p, n);
    if all.commands.contains(c) {
        lemma_cancel_origin(desired, orders, qty_matches, p, n, id);
        let j = choose|j: int| 0 <= j < n && orders[j].order_id == id && #[trigger] settle_orders(desired, orders, qty_matches, p, j + 1).commands
            == settle_orders(desired, orders, qty_matches, p, j).commands.push(c);
        assert(j == k);
        assert(settle_orders(desired, orders, qty_matches, p, j + 1).commands.len() == before.commands.len() + 1);
    }
    let r = grid_commands(desired, orders, qty_matches, p);
    let subs = submissions(all.quotes, all.canceled, orders, all.quotes.len() as int);
    lemma_submissions_are_fresh(all.quotes, all.canceled, orders, all.quotes.len() as int);
    lemma_settle_keeps(desired, orders, qty_matches, p, 0, n);
    assert(r == all.commands + subs);
    if r.contains(c) {
        let w = choose|w: int| 0 <= w < r.len() && r[w] == c;
        if w < all.commands.len() {
            assert(all.commands[w] == c);
        } else {
            assert(subs[w - all.commands.len()] == c);
        }
    }
}

/// An open order that is the only one of its side is canceled (to be requoted) when it can be
/// canceled and has lived at least the minimum quote lifetime, but no quote of its side is both
/// within the requote distance of it and of its size.
pub proof fn orders_away_from_their_quotes_are_canceled<Q>(
    desired: Seq<DesiredQuote<Q>>,
    orders: Seq<GridOrder>,
    qty_matches: Seq<Seq<bool>>,
    p: GridParams,
    k: int,
    i: int,
)
    requires
        0 <= k < orders.len(),
        0 <= i < desired.len(),
        qty_matches.len() == orders.len(),
        qty_matches[k].len() == desired.len(),
        forall|j: int| 0 <= j < orders.len() && j != k ==> (#[trigger] orders[j]).side != orders[k].side,
        !desired[i].matched,
        desired[i].side == orders[k].side,
        forall|q: int| 0 <= q < desired.len() && (#[trigger] desired[q]).side == orders[k].side ==> !qty_matches[k][q]
            || (if orders[k].price_tick >= desired[q].price_tick {
                orders[k].price_tick - desired[q].price_tick
            } else {
                desired[q].price_tick - orders[k].price_tick
            }) > p.requote_ticks,
        orders[k].status == Status::New || orders[k].status == Status::PartiallyFilled,
        orders[k].req == Status::NoStatus,
        p.timestamp - orders[k].local_timestamp >= p.min_quote_lifetime_ms * 1_000_000,
    ensures
        grid_commands(desired, orders, qty_matches, p).contains(
            StrategyCommand::Cancel { order_id: orders[k].order_id },
        ),
{
    let c = StrategyCommand::<Q>::Cancel { order_id: orders[k].order_id };
    let n = orders.len() as int;
    let before = settle_orders(desired, orders, qty_matches, p, k);
    lemma_settle_keeps(desired, orders, qty_matches, p, 0, k);
    assert forall|q: int| 0 <= q < desired.len() && (#[trigger] desired[q]).side == orders[k].side implies before.quotes[q] == desired[q] by {
        lemma_settle_leaves_quote(desired, orders, qty_matches, p, k, q);
    }
    assert(before.quotes[i] == desired[i]);
    lemma_nearest_some(before.quotes, orders[k], before.quotes.len() as int, i);
    lemma_nearest_is_of_the_side(before.quotes, orders[k], before.quotes.len() as int);
    lemma_nearest_bounds(before.quotes, orders[k], before.quotes.len() as int);
    let b = nearest_quote(before.quotes, orders[k], before.quotes.len() as int)->0;
    assert(before.quotes[b] == desired[b]);
    assert(is_old_enough(p.timestamp, orders[k].local_timestamp, p.min_quote_lifetime_ms));
    let after = settle_orders(desired, orders, qty_matches, p, k + 1);
    assert(after.commands == before.commands.push(c));
    let j = before.commands.len() as int;
    lemma_settle_keeps(desired, orders, qty_matches, p, k + 1, n);
    let all = settle_orders(desired, orders, qty_matches, p, n);
    assert(all.commands[j] == c);
    let r = grid_commands(desired, orders, qty_matches, p);
    let subs = submissions(all.quotes, all.canceled, orders, all.quotes.len() as int);
    assert(r == all.commands + subs);
    assert(r[j] == c);
}

} // verus!
