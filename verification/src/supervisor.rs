//! The decisions of the live service's event loop: which account and stream events change the
//! readiness and safety state, when a symbol's strategy may act, which orders a safety halt
//! cancels and how often, and when shutdown gives up waiting for cancels.
//!
//! The loop itself (channels, timers, the connector, the strategies) runs in the application; it
//! hands each event to a `LiveSupervisor` and performs what comes back.
use vstd::prelude::*;

use crate::id::SymbolOrderId;
use crate::order_keys::{ids_distinct, ids_map, kept_for_symbol, retain_for_symbol, upsert_id, find_id};
use crate::ports::RunMode;
use crate::readiness::{ready_is_safe, AccountReadiness, ReadinessView};
use crate::safety::{elapsed, latches_kept, spec_can_submit, spec_is_halted, SafetyState, SafetyView};
use crate::types::Status;

verus! {

/// How long after a safety cancel of an order the same order may be canceled again, in
/// milliseconds.
pub const SAFETY_CANCEL_RETRY_MS: u64 = 250;

/// An order may be canceled for safety again: never requested, or requested at least the
/// retry interval ago.
pub open spec fn retry_due(requested: Map<(Seq<char>, u64), u64>, key: (Seq<char>, u64), now_ms: u64) -> bool {
    !requested.contains_key(key) || elapsed(requested[key], now_ms) >= SAFETY_CANCEL_RETRY_MS
}

/// Position `j` holds the first occurrence of its order id.
pub open spec fn first_occurrence(ids: Seq<u64>, j: int) -> bool {
    forall|i: int| 0 <= i < j ==> ids[i] != ids[j]
}

/// The safety cancels of `symbol` at `now_ms` given its open orders' ids: none unless trading
/// and the symbol is halted; otherwise the first occurrence of each id whose retry is due.
pub open spec fn is_safety_cancel(
    mode: RunMode,
    safety: SafetyView,
    requested: Map<(Seq<char>, u64), u64>,
    symbol: Seq<char>,
    ids: Seq<u64>,
    now_ms: u64,
    j: int,
) -> bool {
    &&& mode == RunMode::Execute
    &&& spec_is_halted(safety, symbol)
    &&& 0 <= j < ids.len()
    &&& first_occurrence(ids, j)
    &&& retry_due(kept_for_symbol(requested, symbol, ids), (symbol, ids[j]), now_ms)
}

/// The request times after the safety cancels of `symbol` at `now_ms`: requests for orders of
/// the symbol that are no longer open are forgotten, and each canceled order is stamped `now_ms`.
pub open spec fn requested_after(
    mode: RunMode,
    safety: SafetyView,
    requested: Map<(Seq<char>, u64), u64>,
    symbol: Seq<char>,
    ids: Seq<u64>,
    now_ms: u64,
) -> Map<(Seq<char>, u64), u64> {
    if !(mode == RunMode::Execute && spec_is_halted(safety, symbol)) {
        requested
    } else {
        let kept = kept_for_symbol(requested, symbol, ids);
        Map::new(
            |k: (Seq<char>, u64)| kept.contains_key(k) || (k.0 == symbol && ids.contains(k.1)),
            |k: (Seq<char>, u64)| if k.0 == symbol && ids.contains(k.1) && retry_due(kept, k, now_ms) {
                now_ms
            } else {
                kept[k]
            },
        )
    }
}


/// The request times once the first `j` open orders of `symbol` have been considered.
pub open spec fn requested_partial(
    kept: Map<(Seq<char>, u64), u64>,
    symbol: Seq<char>,
    ids: Seq<u64>,
    now_ms: u64,
    j: int,
) -> Map<(Seq<char>, u64), u64> {
    Map::new(
        |k: (Seq<char>, u64)| kept.contains_key(k) || (k.0 == symbol && ids.take(j).contains(k.1)),
        |k: (Seq<char>, u64)| if k.0 == symbol && ids.take(j).contains(k.1) && retry_due(kept, k, now_ms) {
            now_ms
        } else {
            kept[k]
        },
    )
}

/// When each order was last canceled for safety.
pub struct SafetyCancels {
    requested: Vec<(SymbolOrderId, u64)>,
}

impl View for SafetyCancels {
    type V = Map<(Seq<char>, u64), u64>;

    closed spec fn view(&self) -> Map<(Seq<char>, u64), u64> {
        ids_map(self.requested@)
    }
}

impl SafetyCancels {
    pub closed spec fn wf(&self) -> bool {
        ids_distinct(self.requested@)
    }

    pub fn new() -> (r: Self)
        ensures
            r.wf(),
            r@ == Map::<(Seq<char>, u64), u64>::empty(),
    {
        let r = SafetyCancels { requested: Vec::new() };
        assert(r@ =~= Map::<(Seq<char>, u64), u64>::empty());
        r
    }

    /// The open orders of `symbol` (by position in `open_order_ids`) to cancel at `now_ms`
    /// because the symbol is halted: none unless trading and halted; otherwise each order not
    /// canceled within the retry interval, once even if listed twice. Requests for orders of the
    /// symbol that are no longer open are forgotten.
    pub fn plan(
        &mut self,
        mode: RunMode,
        safety: &SafetyState,
        symbol: &str,
        open_order_ids: &Vec<u64>,
        now_ms: u64,
    ) -> (r: Vec<usize>)
        requires
            old(self).wf(),
            safety.wf(),
        ensures
            final(self).wf(),
            final(self)@ == requested_after(
                mode,
                safety@,
                old(self)@,
                symbol@,
                open_order_ids@,
                now_ms,
            ),
            forall|t: int| 0 <= t < r.len() ==> is_safety_cancel(
                mode,
                safety@,
                old(self)@,
                symbol@,
                open_order_ids@,
                now_ms,
                #[trigger] r@[t] as int,
            ),
            forall|j: int| #[trigger] is_safety_cancel(
                mode,
                safety@,
                old(self)@,
                symbol@,
                open_order_ids@,
                now_ms,
                j,
            ) ==> r@.contains(j as usize),
            forall|a: int, b: int| 0 <= a < b < r.len() ==> r@[a] < r@[b],
    {
        let trading = mode.allows_trading();
        if !trading || !safety.requires_cancel(symbol) {
            return Vec::new();
        }
        let ghost ids = open_order_ids@;
        let ghost old_map = self@;
        retain_for_symbol(&mut self.requested, symbol, open_order_ids);
        let ghost kept = self@;
        assert(kept == kept_for_symbol(old_map, symbol@, ids));
        let mut out: Vec<usize> = Vec::new();
        let mut j: usize = 0;
        assert(self@ =~= requested_partial(kept, symbol@, ids, now_ms, 0));
        while j < open_order_ids.len()
            invariant
                j <= open_order_ids.len(),
                ids == open_order_ids@,
                mode == RunMode::Execute && spec_is_halted(safety@, symbol@),
                ids_distinct(self.requested@),
                self@ == requested_partial(kept, symbol@, ids, now_ms, j as int),
                kept == kept_for_symbol(old_map, symbol@, ids),
                forall|t: int| 0 <= t < out.len() ==> (out@[t] < j && is_safety_cancel(
                    mode,
                    safety@,
                    old_map,
                    symbol@,
                    ids,
                    now_ms,
                    #[trigger] out@[t] as int,
                )),
                forall|i: int| 0 <= i < j && #[trigger] is_safety_cancel(mode, safety@, old_map, symbol@, ids, now_ms, i)
                    ==> out@.contains(i as usize),
                forall|a: int, b: int| 0 <= a < b < out.len() ==> out@[a] < out@[b],
            decreases open_order_ids.len() - j,
        {
            let id = open_order_ids[j];
            let ghost key = (symbol@, id);
            let ghost before = self@;
            let due = match find_id(&self.requested, symbol, id) {
                None => true,
                Some(i) => {
                    let at = self.requested[i].1;
                    now_ms >= at && now_ms - at >= SAFETY_CANCEL_RETRY_MS
                },
            };
            proof {
                let prefix = ids.take(j as int);
                let longer = ids.take(j + 1);
                assert(longer =~= prefix.push(id));
                if prefix.contains(id) {
                    let w = choose|w: int| 0 <= w < prefix.len() && prefix[w] == id;
                    assert(ids[w] == ids[j as int]);
                    assert(!first_occurrence(ids, j as int));
                    assert(!due) by {
                        if retry_due(kept, key, now_ms) {
                            assert(before[key] == now_ms);
                        } else {
                            assert(before[key] == kept[key]);
                        }
                    }
                } else {
                    assert forall|i: int| 0 <= i < j implies ids[i] != ids[j as int] by {
                        assert(prefix[i] == ids[i]);
                    }
                    assert(first_occurrence(ids, j as int));
                    if kept.contains_key(key) {
                        assert(before[key] == kept[key]);
                    }
                    assert(due == retry_due(kept, key, now_ms));
                }
            }
            let ghost old_out = out@;
            if due {
                let k = SymbolOrderId::new(symbol.to_owned(), id);
                upsert_id(&mut self.requested, k, now_ms);
                out.push(j);
                proof {
                    assert(out@[old_out.len() as int] == j);
                    assert forall|i: int| 0 <= i < j + 1 && #[trigger] is_safety_cancel(mode, safety@, old_map, symbol@, ids, now_ms, i)
                        implies out@.contains(i as usize) by {
                        if i < j {
                            let t = choose|t: int| 0 <= t < old_out.len() && old_out[t] == i as usize;
                            assert(out@[t] == i as usize);
                        }
                    }
                    assert(self@ =~= requested_partial(kept, symbol@, ids, now_ms, j + 1)) by {
                        let longer = ids.take(j + 1);
                        assert forall|k2: (Seq<char>, u64)| longer.contains(k2.1) == (ids.take(j as int).contains(k2.1) || k2.1 == id) by {
                            if longer.contains(k2.1) {
                                let w = choose|w: int| 0 <= w < longer.len() && longer[w] == k2.1;
                                if w < j {
                                    assert(ids.take(j as int)[w] == k2.1);
                                }
                            }
                            if ids.take(j as int).contains(k2.1) {
                                let w = choose|w: int| 0 <= w < j && ids.take(j as int)[w] == k2.1;
                                assert(longer[w] == k2.1);
                            }
                            if k2.1 == id {
                                assert(longer[j as int] == id);
                            }
                        }
                    }
                }
            } else {
                proof {
                    assert(self@ =~= requested_partial(kept, symbol@, ids, now_ms, j + 1)) by {
                        let longer = ids.take(j + 1);
                        assert forall|k2: (Seq<char>, u64)| longer.contains(k2.1) == (ids.take(j as int).contains(k2.1) || k2.1 == id) by {
                            if longer.contains(k2.1) {
                                let w = choose|w: int| 0 <= w < longer.len() && longer[w] == k2.1;
                                if w < j {
                                    assert(ids.take(j as int)[w] == k2.1);
                                }
                            }
                            if ids.take(j as int).contains(k2.1) {
                                let w = choose|w: int| 0 <= w < j && ids.take(j as int)[w] == k2.1;
                                assert(longer[w] == k2.1);
                            }
                            if k2.1 == id {
                                assert(longer[j as int] == id);
                            }
                        }
                    }
                }
            }
            j = j + 1;
        }
        assert(ids.take(ids.len() as int) =~= ids);
        assert(self@ =~= requested_after(mode, safety@, old_map, symbol@, ids, now_ms));
        out
    }
}


/// Whether the strategy of `symbol` may act at `now_ms`, after its market batch was recorded:
/// always in a dry run; when trading, only on a symbol whose account state is ready and whose
/// market is fresh and not halted.
pub fn execution_allowed(
    mode: RunMode,
    readiness: &AccountReadiness,
    safety: &SafetyState,
    symbol: &str,
    now_ms: u64,
) -> (r: bool)
    requires
        readiness.wf(),
        safety.wf(),
    ensures
        r == (mode != RunMode::Execute || (readiness@.ready.contains(symbol@) && spec_can_submit(
            safety@,
            symbol@,
            now_ms,
        ))),
{
    !mode.allows_trading() || (readiness.contains(symbol) && safety.can_submit(symbol, now_ms))
}

/// The period of the safety clock: a quarter of the stale-market timeout, between 25 and 250
/// milliseconds.
pub fn safety_tick_ms(stale_market_timeout_ms: u64) -> (r: u64)
    ensures
        r == (if stale_market_timeout_ms / 4 < 25 {
            25
        } else if stale_market_timeout_ms / 4 > 250 {
            250
        } else {
            stale_market_timeout_ms / 4
        }),
{
    let quarter = stale_market_timeout_ms / 4;
    if quarter < 25 {
        25
    } else if quarter > 250 {
        250
    } else {
        quarter
    }
}

/// Where a shutdown stands while it waits for its cancels to be confirmed.
#[derive(Clone, Copy, Debug, PartialEq, Eq, Structural)]
pub enum ShutdownProgress {
    /// No strategy order remains open.
    Complete,
    /// Orders remain and the deadline has not passed: check again shortly.
    Waiting,
    /// Orders remain at the deadline: shutdown fails with their number.
    TimedOut(usize),
}

/// The progress of a shutdown with `remaining` open orders at `now_ms`, given its deadline.
pub fn shutdown_progress(remaining: usize, now_ms: u64, deadline_ms: u64) -> (r: ShutdownProgress)
    ensures
        remaining == 0 ==> r == ShutdownProgress::Complete,
        remaining > 0 && now_ms >= deadline_ms ==> r == ShutdownProgress::TimedOut(remaining),
        remaining > 0 && now_ms < deadline_ms ==> r == ShutdownProgress::Waiting,
{
    if remaining == 0 {
        ShutdownProgress::Complete
    } else if now_ms >= deadline_ms {
        ShutdownProgress::TimedOut(remaining)
    } else {
        ShutdownProgress::Waiting
    }
}

/// What looking up the kill-switch file found.
#[derive(Clone, Copy, Debug, PartialEq, Eq, Structural)]
pub enum KillSwitchLookup {
    /// The file exists.
    Present,
    /// There is no such file.
    Missing,
    /// Its state could not be read.
    Unreadable,
}

/// Whether the kill switch is active: a configured file that exists, or whose state cannot be
/// read (an unreadable file counts as set). Without a configured file it never is.
pub fn kill_switch_is_active(lookup: Option<KillSwitchLookup>) -> (r: bool)
    ensures
        r == (lookup == Some(KillSwitchLookup::Present) || lookup == Some(KillSwitchLookup::Unreadable)),
{
    match lookup {
        None => false,
        Some(KillSwitchLookup::Present) => true,
        Some(KillSwitchLookup::Missing) => false,
        Some(KillSwitchLookup::Unreadable) => true,
    }
}

/// While the kill switch is latched, no strategy may act when trading.
pub proof fn kill_switch_stops_all_execution(
    readiness: ReadinessView,
    safety: SafetyView,
    symbol: Seq<char>,
    now_ms: u64,
)
    requires
        safety.kill_latched,
    ensures
        !(readiness.ready.contains(symbol) && spec_can_submit(safety, symbol, now_ms)),
{
}

/// When trading, a strategy acts only on a symbol recovered from an account snapshot, with an
/// applied position, no fill waiting for its position update, not halted, and with fresh market
/// data.
pub proof fn execution_requires_recovered_fresh_state(
    readiness: ReadinessView,
    safety: SafetyView,
    symbol: Seq<char>,
    now_ms: u64,
)
    requires
        ready_is_safe(readiness),
        readiness.ready.contains(symbol) && spec_can_submit(safety, symbol, now_ms),
    ensures
        readiness.recovered.contains(symbol),
        readiness.positions.contains_key(symbol),
        !readiness.pending_fill.contains_key(symbol),
        !readiness.halted.contains(symbol),
        !safety.kill_latched,
        elapsed(safety.symbols[symbol].last_market_ms, now_ms) < safety.timeout_ms,
{
}

/// A safety cancel of an order is repeated no sooner than the retry interval after the last
/// one, and it is put on record.
pub proof fn safety_cancels_are_spaced(
    mode: RunMode,
    safety: SafetyView,
    requested: Map<(Seq<char>, u64), u64>,
    symbol: Seq<char>,
    ids: Seq<u64>,
    now_ms: u64,
    j: int,
)
    requires
        is_safety_cancel(mode, safety, requested, symbol, ids, now_ms, j),
    ensures
        requested.contains_key((symbol, ids[j])) ==> elapsed(requested[(symbol, ids[j])], now_ms)
            >= SAFETY_CANCEL_RETRY_MS,
        requested_after(mode, safety, requested, symbol, ids, now_ms)[(symbol, ids[j])] == now_ms,
{
    let kept = kept_for_symbol(requested, symbol, ids);
    assert(ids.contains(ids[j]));
    if requested.contains_key((symbol, ids[j])) {
        assert(kept.contains_key((symbol, ids[j])));
    }
}


/// When trading, every open order of a halted symbol has a safety cancel on record once the
/// symbol's cancels are planned.
pub proof fn open_orders_of_halted_symbols_are_canceled(
    safety: SafetyView,
    requested: Map<(Seq<char>, u64), u64>,
    symbol: Seq<char>,
    ids: Seq<u64>,
    now_ms: u64,
    j: int,
)
    requires
        spec_is_halted(safety, symbol),
        0 <= j < ids.len(),
    ensures
        requested_after(RunMode::Execute, safety, requested, symbol, ids, now_ms).contains_key((symbol, ids[j])),
{
    assert(ids.contains(ids[j]));
}

} // verus!
