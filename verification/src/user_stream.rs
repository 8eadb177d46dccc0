//! What the private user data stream and the account snapshot taken when it connects make of
//! positions and order updates. Positions are only accepted in one-way mode, with finite
//! amounts; quantities are floating point and stay with the caller, which says whether each one
//! is finite.
use vstd::prelude::*;

use crate::binance::BinanceFuturesError;
use crate::id::spec_decode;
use crate::orders::{
    after_trade_update, ids_after, orders_after, reported, settled, OrderManager, OrderTradeUpdate,
    TrackedOrder,
};
use crate::keyed::{TextMap, TextSet};
use crate::subscriptions::texts;
use crate::symbol_set::{symbol_set_contents, SymbolSet};
use crate::text::chars_of;

verus! {

/// A time in milliseconds taken to nanoseconds, saturating at the bounds of `i64`.
pub open spec fn ms_to_ns_saturating(ms: i64) -> i64 {
    if ms * 1_000_000 > i64::MAX {
        i64::MAX
    } else if ms * 1_000_000 < i64::MIN {
        i64::MIN
    } else {
        (ms * 1_000_000) as i64
    }
}

/// `i64::saturating_mul(ms, 1_000_000)`.
pub fn saturating_ms_to_ns(ms: i64) -> (r: i64)
    ensures
        r == ms_to_ns_saturating(ms),
{
    if ms > 9_223_372_036_854 {
        i64::MAX
    } else if ms < -9_223_372_036_854 {
        i64::MIN
    } else {
        ms * 1_000_000
    }
}

/// A position as the exchange reports it: `amount` is the signed quantity, of which the caller
/// says whether it is finite.
#[derive(Clone, Debug)]
pub struct PositionEntry<Q> {
    pub symbol: String,
    pub position_side: String,
    pub amount: Q,
    pub amount_is_finite: bool,
    /// When the position last changed, in milliseconds (snapshots only).
    pub update_time: i64,
}

/// A position published to the live service, stamped in nanoseconds.
#[derive(Clone, Debug)]
pub struct PositionEvent<Q> {
    pub symbol: String,
    pub qty: Q,
    pub exch_ts: i64,
}

pub open spec fn both_sides() -> Seq<char> {
    seq!['B', 'O', 'T', 'H']
}

/// A position that can be accepted: one-way mode and a finite amount.
pub open spec fn acceptable_position<Q>(p: PositionEntry<Q>) -> bool {
    p.position_side@ == both_sides() && p.amount_is_finite
}

/// The error an unacceptable position raises: hedge mode is unsupported, a non-finite amount is
/// an invalid account state.
pub open spec fn position_error<Q>(p: PositionEntry<Q>) -> BinanceFuturesError {
    if p.position_side@ != both_sides() {
        BinanceFuturesError::UnsupportedPositionMode
    } else {
        BinanceFuturesError::InvalidAccountState
    }
}

/// The first `n` positions are acceptable.
pub open spec fn all_acceptable<Q>(positions: Seq<PositionEntry<Q>>, n: int) -> bool {
    forall|i: int| 0 <= i < n ==> acceptable_position(#[trigger] positions[i])
}

fn is_one_way(side: &str) -> (r: bool)
    ensures
        r == (side@ == both_sides()),
{
    let b = chars_of("BOTH");
    proof {
        reveal_strlit("BOTH");
        assert(b@ =~= both_sides());
    }
    let s = chars_of(side);
    crate::text::chars_equal(&s, &b)
}

/// The positions of an account update, in order, each stamped with the update's transaction
/// time; publication stops at the first position that cannot be accepted, whose error is
/// returned with those published before it.
pub fn account_update_positions<Q: Copy>(positions: Vec<PositionEntry<Q>>, transaction_time: i64) -> (r: (
    Vec<PositionEvent<Q>>,
    Result<(), BinanceFuturesError>,
))
    ensures
        ({
            let (published, outcome) = r;
            let n = published.len() as int;
            &&& n <= positions.len()
            &&& all_acceptable(positions@, n)
            &&& forall|i: int| 0 <= i < n ==> (#[trigger] published@[i]).symbol@ == positions@[i].symbol@
                && published@[i].qty == positions@[i].amount && published@[i].exch_ts
                == ms_to_ns_saturating(transaction_time)
            &&& match outcome {
                Ok(()) => n == positions.len(),
                Err(e) => n < positions.len() && !acceptable_position(positions@[n]) && e == position_error(positions@[n]),
            }
        }),
{
    let exch_ts = saturating_ms_to_ns(transaction_time);
    let mut published: Vec<PositionEvent<Q>> = Vec::new();
    let mut i: usize = 0;
    while i < positions.len()
        invariant
            i <= positions.len(),
            published.len() == i,
            exch_ts == ms_to_ns_saturating(transaction_time),
            all_acceptable(positions@, i as int),
            forall|j: int| 0 <= j < i ==> (#[trigger] published@[j]).symbol@ == positions@[j].symbol@
                && published@[j].qty == positions@[j].amount && published@[j].exch_ts == exch_ts,
        decreases positions.len() - i,
    {
        let p = &positions[i];
        if !is_one_way(p.position_side.as_str()) {
            return (published, Err(BinanceFuturesError::UnsupportedPositionMode));
        }
        if !p.amount_is_finite {
            return (published, Err(BinanceFuturesError::InvalidAccountState));
        }
        published.push(PositionEvent { symbol: p.symbol.clone(), qty: p.amount, exch_ts });
        i = i + 1;
    }
    (published, Ok(()))
}

/// Applies an order update of the private stream: updates of another namespace are ignored,
/// other refusals are errors.
pub fn on_order_trade_update<B: Copy, F: Copy>(manager: &mut OrderManager<B, F>, update: &OrderTradeUpdate<F>) -> (r:
    Result<Option<TrackedOrder<B, F>>, BinanceFuturesError>)
    requires
        old(manager).wf(),
        crate::orders::fits_in_ns(update.transaction_time),
    ensures
        final(manager).wf(),
        final(manager).prefix() == old(manager).prefix(),
        ({
            let cid = update.client_order_id@;
            let e = old(manager).orders()[cid];
            let o = after_trade_update(e.order, *update);
            match spec_decode(old(manager).prefix(), cid) {
                Ok(Some(_)) => if old(manager).orders().contains_key(cid) {
                    &&& r == Ok::<Option<TrackedOrder<B, F>>, BinanceFuturesError>(reported(e, o))
                    &&& final(manager).orders() == orders_after(old(manager).orders(), cid, settled(e, o, true))
                    &&& final(manager).ids() == ids_after(old(manager).ids(), e, o)
                } else {
                    &&& r == Err::<Option<TrackedOrder<B, F>>, BinanceFuturesError>(BinanceFuturesError::OrderNotFound)
                    &&& final(manager).orders() == old(manager).orders()
                    &&& final(manager).ids() == old(manager).ids()
                },
                Ok(None) => {
                    &&& r == Ok::<Option<TrackedOrder<B, F>>, BinanceFuturesError>(None)
                    &&& final(manager).orders() == old(manager).orders()
                    &&& final(manager).ids() == old(manager).ids()
                },
                Err(_) => {
                    &&& r == Err::<Option<TrackedOrder<B, F>>, BinanceFuturesError>(BinanceFuturesError::MalformedClientOrderId)
                    &&& final(manager).orders() == old(manager).orders()
                    &&& final(manager).ids() == old(manager).ids()
                },
            }
        }),
{
    match manager.update_from_ws(update) {
        Err(BinanceFuturesError::PrefixUnmatched) => Ok(None),
        other => other,
    }
}


/// The positions of an account snapshot, by symbol, among the configured symbols: each
/// position's amount and update time. Positions of other symbols are skipped; hedge mode, a
/// non-finite amount or a second position for a symbol refuses the snapshot.
pub open spec fn snapshot_of<Q>(configured: Seq<Seq<char>>, positions: Seq<PositionEntry<Q>>) -> Result<
    Map<Seq<char>, (Q, i64)>,
    BinanceFuturesError,
>
    decreases positions.len(),
{
    if positions.len() == 0 {
        Ok(Map::empty())
    } else {
        match snapshot_of(configured, positions.drop_last()) {
            Err(e) => Err(e),
            Ok(m) => {
                let p = positions.last();
                if !configured.contains(p.symbol@) {
                    Ok(m)
                } else if p.position_side@ != both_sides() {
                    Err(BinanceFuturesError::UnsupportedPositionMode)
                } else if !p.amount_is_finite || m.contains_key(p.symbol@) {
                    Err(BinanceFuturesError::InvalidAccountState)
                } else {
                    Ok(m.insert(p.symbol@, (p.amount, p.update_time)))
                }
            },
        }
    }
}

/// Collects the positions of an account snapshot for the configured symbols.
pub fn snapshot_positions<Q: Copy>(configured: &Vec<String>, positions: &Vec<PositionEntry<Q>>) -> (r: Result<
    TextMap<(Q, i64)>,
    BinanceFuturesError,
>)
    ensures
        match snapshot_of(texts(configured@), positions@) {
            Ok(m) => r matches Ok(t) && t.wf() && t@ == m,
            Err(e) => r matches Err(e2) && e2 == e,
        },
{
    let mut symbols = SymbolSet::new();
    let mut k: usize = 0;
    while k < configured.len()
        invariant
            k <= configured.len(),
            forall|t: Seq<char>| #[trigger] symbol_set_contents(symbols).contains(t) <==> exists|j: int|
                0 <= j < k && texts(configured@)[j] == t,
        decreases configured.len() - k,
    {
        symbols.insert(configured[k].as_str());
        proof {
            assert forall|t: Seq<char>| #[trigger] symbol_set_contents(symbols).contains(t) <==> exists|j: int|
                0 <= j < k + 1 && texts(configured@)[j] == t by {
                if t == configured@[k as int]@ {
                    assert(texts(configured@)[k as int] == t);
                }
            }
        }
        k = k + 1;
    }
    let mut acc: TextMap<(Q, i64)> = TextMap::new();
    let mut i: usize = 0;
    assert(positions@.take(0) =~= Seq::<PositionEntry<Q>>::empty());
    while i < positions.len()
        invariant
            i <= positions.len(),
            acc.wf(),
            snapshot_of(texts(configured@), positions@.take(i as int)) == Ok::<Map<Seq<char>, (Q, i64)>, BinanceFuturesError>(acc@),
            forall|t: Seq<char>| #[trigger] symbol_set_contents(symbols).contains(t) <==> texts(configured@).contains(t),
        decreases positions.len() - i,
    {
        let p = &positions[i];
        let ghost prefix = positions@.take(i + 1);
        assert(prefix.drop_last() =~= positions@.take(i as int));
        assert(prefix.last() == positions@[i as int]);
        if symbols.contains(p.symbol.as_str()) {
            if !is_one_way(p.position_side.as_str()) {
                assert(positions@.take(i + 1).len() > 0);
                proof {
                    lemma_snapshot_error_persists(texts(configured@), positions@, i as int + 1);
                }
                return Err(BinanceFuturesError::UnsupportedPositionMode);
            }
            if !p.amount_is_finite || acc.contains_key(p.symbol.as_str()) {
                proof {
                    lemma_snapshot_error_persists(texts(configured@), positions@, i as int + 1);
                }
                return Err(BinanceFuturesError::InvalidAccountState);
            }
            acc.insert(p.symbol.as_str(), (p.amount, p.update_time));
        }
        i = i + 1;
    }
    assert(positions@.take(positions.len() as int) =~= positions@);
    Ok(acc)
}

/// Once a prefix of the positions refuses the snapshot, the whole snapshot is refused with the
/// same error.
proof fn lemma_snapshot_error_persists<Q>(configured: Seq<Seq<char>>, positions: Seq<PositionEntry<Q>>, k: int)
    requires
        0 <= k <= positions.len(),
        snapshot_of(configured, positions.take(k)) is Err,
    ensures
        snapshot_of(configured, positions) == snapshot_of(configured, positions.take(k)),
    decreases positions.len() - k,
{
    if k < positions.len() {
        let next = positions.take(k + 1);
        assert(next.drop_last() =~= positions.take(k));
        lemma_snapshot_error_persists(configured, positions, k + 1);
    } else {
        assert(positions.take(k) =~= positions);
    }
}

/// `symbols[i]` occurs before position `i`.
pub open spec fn seen_before(symbols: Seq<Seq<char>>, i: int) -> bool {
    exists|j: int| 0 <= j < i && symbols[j] == symbols[i]
}

/// The position that an account snapshot publishes for the `i`-th configured symbol: its
/// amount and update time in nanoseconds where the snapshot holds it (taken once, by the first
/// listing of the symbol), a flat position at time zero otherwise.
pub open spec fn snapshot_position<Q>(
    positions: Map<Seq<char>, (Q, i64)>,
    symbols: Seq<Seq<char>>,
    i: int,
    flat: Q,
) -> (Q, i64) {
    if positions.contains_key(symbols[i]) && !seen_before(symbols, i) {
        (positions[symbols[i]].0, ms_to_ns_saturating(positions[symbols[i]].1))
    } else {
        (flat, 0)
    }
}

/// The positions that an account snapshot publishes, one per configured symbol, in order.
pub fn snapshot_position_events<Q: Copy>(symbols: &Vec<String>, positions: &TextMap<(Q, i64)>, flat: Q) -> (r: Vec<(
    Q,
    i64,
)>)
    requires
        positions.wf(),
    ensures
        r.len() == symbols.len(),
        forall|i: int| 0 <= i < symbols.len() ==> #[trigger] r@[i] == snapshot_position(positions@, texts(symbols@), i, flat),
{
    let ghost names = texts(symbols@);
    let mut taken = TextSet::new();
    let mut out: Vec<(Q, i64)> = Vec::new();
    let mut i: usize = 0;
    while i < symbols.len()
        invariant
            i <= symbols.len(),
            positions.wf(),
            taken.wf(),
            names == texts(symbols@),
            out.len() == i,
            forall|t: Seq<char>| #[trigger] taken@.contains(t) <==> exists|j: int| 0 <= j < i && names[j] == t,
            forall|k: int| 0 <= k < i ==> #[trigger] out@[k] == snapshot_position(positions@, names, k, flat),
        decreases symbols.len() - i,
    {
        let symbol = symbols[i].as_str();
        assert(names[i as int] == symbol@);
        let fresh = taken.insert(symbol);
        let entry = match positions.get(symbol) {
            Some(p) => if fresh {
                (p.0, saturating_ms_to_ns(p.1))
            } else {
                (flat, 0)
            },
            None => (flat, 0),
        };
        proof {
            if fresh {
                if seen_before(names, i as int) {
                    let j = choose|j: int| 0 <= j < i && names[j] == names[i as int];
                    assert(names[j] == symbol@);
                }
            } else {
                let j = choose|j: int| 0 <= j < i && names[j] == symbol@;
                assert(names[j] == names[i as int]);
            }
        }
        out.push(entry);
        proof {
            assert forall|t: Seq<char>| #[trigger] taken@.contains(t) <==> exists|j: int| 0 <= j < i + 1 && names[j] == t by {
                if t == symbol@ {
                    assert(names[i as int] == t);
                }
            }
        }
        i = i + 1;
    }
    out
}

} // verus!
