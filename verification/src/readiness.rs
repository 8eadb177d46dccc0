//! Which symbols the live service may trade: a symbol becomes ready only after a REST snapshot of
//! its position and open orders, and stops being ready when a fill is not yet reflected in a
//! position, when the account stream drops, or when it is halted.
use vstd::prelude::*;

use crate::keyed::{TextMap, TextSet};
use crate::types::{is_fill_status, spec_is_fill_status, Status};

verus! {

/// The account state of every symbol.
pub struct ReadinessView {
    /// Symbols on which execution is enabled.
    pub ready: Set<Seq<char>>,
    /// Symbols latched off until restart.
    pub halted: Set<Seq<char>>,
    /// Symbols whose position and open orders were recovered from a snapshot.
    pub recovered: Set<Seq<char>>,
    /// The newest applied position timestamp of each symbol.
    pub positions: Map<Seq<char>, i64>,
    /// The exchange timestamp a position update must reach before the symbol is ready again.
    pub pending_fill: Map<Seq<char>, i64>,
}

/// Execution is enabled only on a symbol recovered from a snapshot, not halted, with an applied
/// position and no fill still waiting for its position update.
pub open spec fn ready_is_safe(v: ReadinessView) -> bool {
    forall|s: Seq<char>| #[trigger] v.ready.contains(s) ==> {
        &&& v.recovered.contains(s)
        &&& !v.halted.contains(s)
        &&& v.positions.contains_key(s)
        &&& !v.pending_fill.contains_key(s)
    }
}

/// The state after a REST snapshot of `s` completes.
pub open spec fn reconcile_view(o: ReadinessView, s: Seq<char>) -> ReadinessView {
    if o.halted.contains(s) || !o.positions.contains_key(s) {
        o
    } else if o.pending_fill.contains_key(s) {
        ReadinessView { recovered: o.recovered.insert(s), ..o }
    } else {
        ReadinessView { recovered: o.recovered.insert(s), ready: o.ready.insert(s), ..o }
    }
}

/// The state after a position update of `s` at `exch_ts` was applied (or not).
pub open spec fn observe_position_view(o: ReadinessView, s: Seq<char>, exch_ts: i64, applied: bool) -> ReadinessView {
    let ts = if o.positions.contains_key(s) && o.positions[s] > exch_ts {
        o.positions[s]
    } else {
        exch_ts
    };
    let current = o.pending_fill.contains_key(s) && exch_ts >= o.pending_fill[s];
    if !applied {
        o
    } else if current {
        ReadinessView {
            positions: o.positions.insert(s, ts),
            pending_fill: o.pending_fill.remove(s),
            ready: if o.recovered.contains(s) && !o.halted.contains(s) {
                o.ready.insert(s)
            } else {
                o.ready
            },
            ..o
        }
    } else {
        ReadinessView { positions: o.positions.insert(s, ts), ..o }
    }
}

/// The state after an order update of `s` with the given status at `exch_timestamp`.
pub open spec fn observe_order_view(
    o: ReadinessView,
    s: Seq<char>,
    status: Status,
    executed: bool,
    exch_timestamp: i64,
) -> ReadinessView {
    let covered = o.positions.contains_key(s) && o.positions[s] >= exch_timestamp;
    let required = if o.pending_fill.contains_key(s) && o.pending_fill[s] > exch_timestamp {
        o.pending_fill[s]
    } else {
        exch_timestamp
    };
    if !spec_is_fill_status(status) || !executed || covered {
        o
    } else {
        ReadinessView { ready: o.ready.remove(s), pending_fill: o.pending_fill.insert(s, required), ..o }
    }
}

/// The state after the account stream dropped.
pub open spec fn disconnect_view(o: ReadinessView) -> ReadinessView {
    ReadinessView {
        ready: Set::empty(),
        recovered: Set::empty(),
        positions: Map::empty(),
        pending_fill: Map::empty(),
        ..o
    }
}

/// The state after `s` was halted.
pub open spec fn halt_view(o: ReadinessView, s: Seq<char>) -> ReadinessView {
    ReadinessView { ready: o.ready.remove(s), halted: o.halted.insert(s), ..o }
}

/// One call on the readiness state, with its arguments.
pub enum ReadinessEvent {
    Reconcile(Seq<char>),
    ObservePosition(Seq<char>, i64, bool),
    ObserveOrder(Seq<char>, Status, bool, i64),
    Disconnect,
    Halt(Seq<char>),
}

/// The state after one call.
pub open spec fn readiness_step(o: ReadinessView, e: ReadinessEvent) -> ReadinessView {
    match e {
        ReadinessEvent::Reconcile(s) => reconcile_view(o, s),
        ReadinessEvent::ObservePosition(s, ts, applied) => observe_position_view(o, s, ts, applied),
        ReadinessEvent::ObserveOrder(s, status, executed, ts) => observe_order_view(o, s, status, executed, ts),
        ReadinessEvent::Disconnect => disconnect_view(o),
        ReadinessEvent::Halt(s) => halt_view(o, s),
    }
}

/// The state after a sequence of calls, in order.
pub open spec fn readiness_after(o: ReadinessView, events: Seq<ReadinessEvent>) -> ReadinessView
    decreases events.len(),
{
    if events.len() == 0 {
        o
    } else {
        readiness_after(readiness_step(o, events[0]), events.drop_first())
    }
}

pub struct AccountReadiness {
    symbols: TextSet,
    halted: TextSet,
    recovered_snapshots: TextSet,
    position_timestamps: TextMap<i64>,
    pending_position_after_fill: TextMap<i64>,
}

impl View for AccountReadiness {
    type V = ReadinessView;

    closed spec fn view(&self) -> ReadinessView {
        ReadinessView {
            ready: self.symbols@,
            halted: self.halted@,
            recovered: self.recovered_snapshots@,
            positions: self.position_timestamps@,
            pending_fill: self.pending_position_after_fill@,
        }
    }
}

impl Default for AccountReadiness {
    fn default() -> (r: Self)
        ensures
            r.wf(),
            r@.ready == Set::<Seq<char>>::empty(),
            r@.halted == Set::<Seq<char>>::empty(),
            r@.recovered == Set::<Seq<char>>::empty(),
            r@.positions == Map::<Seq<char>, i64>::empty(),
            r@.pending_fill == Map::<Seq<char>, i64>::empty(),
    {
        AccountReadiness::new()
    }
}

impl AccountReadiness {
    pub closed spec fn wf(self) -> bool {
        &&& self.symbols.wf()
        &&& self.halted.wf()
        &&& self.recovered_snapshots.wf()
        &&& self.position_timestamps.wf()
        &&& self.pending_position_after_fill.wf()
        &&& ready_is_safe(self@)
    }

    pub fn new() -> (r: Self)
        ensures
            r.wf(),
            r@.ready == Set::<Seq<char>>::empty(),
            r@.halted == Set::<Seq<char>>::empty(),
            r@.recovered == Set::<Seq<char>>::empty(),
            r@.positions == Map::<Seq<char>, i64>::empty(),
            r@.pending_fill == Map::<Seq<char>, i64>::empty(),
    {
        AccountReadiness {
            symbols: TextSet::new(),
            halted: TextSet::new(),
            recovered_snapshots: TextSet::new(),
            position_timestamps: TextMap::new(),
            pending_position_after_fill: TextMap::new(),
        }
    }

    /// A REST snapshot of the symbol is complete. Returns whether execution became enabled.
    pub fn reconcile(&mut self, symbol: &str) -> (r: bool)
        requires
            old(self).wf(),
        ensures
            final(self).wf(),
            ready_is_safe(final(self)@),
            final(self)@ == reconcile_view(old(self)@, symbol@),
            r == (!old(self)@.halted.contains(symbol@) && old(self)@.positions.contains_key(symbol@)
                && !old(self)@.pending_fill.contains_key(symbol@) && !old(self)@.ready.contains(symbol@)),
    {
        if self.halted.contains(symbol) || !self.position_timestamps.contains_key(symbol) {
            return false;
        }
        let ghost o = self@;
        self.recovered_snapshots.insert(symbol);
        if self.pending_position_after_fill.contains_key(symbol) {
            proof {
                assert forall|t: Seq<char>| #[trigger] self@.ready.contains(t) implies self@.recovered.contains(t)
                    && !self@.halted.contains(t) && self@.positions.contains_key(t)
                    && !self@.pending_fill.contains_key(t) by {
                    assert(o.ready.contains(t));
                }
            }
            return false;
        }
        let r = self.symbols.insert(symbol);
        proof {
            assert forall|t: Seq<char>| #[trigger] self@.ready.contains(t) implies self@.recovered.contains(t)
                && !self@.halted.contains(t) && self@.positions.contains_key(t)
                && !self@.pending_fill.contains_key(t) by {
                if t != symbol@ {
                    assert(o.ready.contains(t));
                }
            }
        }
        r
    }

    /// A position update was applied (or not) at the exchange timestamp `exch_ts`.
    pub fn observe_position(&mut self, symbol: &str, exch_ts: i64, applied: bool)
        requires
            old(self).wf(),
        ensures
            final(self).wf(),
            ready_is_safe(final(self)@),
            final(self)@ == observe_position_view(old(self)@, symbol@, exch_ts, applied),
    {
        if !applied {
            return;
        }
        let ghost o = self@;
        let next = match self.position_timestamps.get(symbol) {
            Some(current) => if current > exch_ts {
                current
            } else {
                exch_ts
            },
            None => exch_ts,
        };
        self.position_timestamps.insert(symbol, next);
        let position_is_current = match self.pending_position_after_fill.get(symbol) {
            Some(required) => exch_ts >= required,
            None => false,
        };
        let ghost mid = self@;
        assert(forall|t: Seq<char>| #[trigger] mid.ready.contains(t) ==> o.ready.contains(t));
        if position_is_current {
            self.pending_position_after_fill.remove(symbol);
            let ghost mid2 = self@;
            if self.recovered_snapshots.contains(symbol) && !self.halted.contains(symbol) {
                self.symbols.insert(symbol);
            }
            proof {
                assert forall|t: Seq<char>| #[trigger] self@.ready.contains(t) implies self@.recovered.contains(t)
                    && !self@.halted.contains(t) && self@.positions.contains_key(t)
                    && !self@.pending_fill.contains_key(t) by {
                    if t != symbol@ {
                        assert(mid2.ready.contains(t));
                        assert(o.ready.contains(t));
                    } else if !mid2.ready.contains(t) {
                    } else {
                        assert(o.ready.contains(t));
                    }
                }
            }
        } else {
            proof {
                assert forall|t: Seq<char>| #[trigger] self@.ready.contains(t) implies self@.recovered.contains(t)
                    && !self@.halted.contains(t) && self@.positions.contains_key(t)
                    && !self@.pending_fill.contains_key(t) by {
                    assert(o.ready.contains(t));
                }
            }
        }
    }

    /// An order update was applied. A fill (partially filled or filled, with a positive executed
    /// quantity) newer than the symbol's position disables execution until a position update at
    /// least as new arrives.
    pub fn observe_order(&mut self, symbol: &str, status: Status, executed: bool, exch_timestamp: i64)
        requires
            old(self).wf(),
        ensures
            final(self).wf(),
            ready_is_safe(final(self)@),
            final(self)@ == observe_order_view(old(self)@, symbol@, status, executed, exch_timestamp),
    {
        if !is_fill_status(status) || !executed {
            return;
        }
        let position_is_current = match self.position_timestamps.get(symbol) {
            Some(position_ts) => position_ts >= exch_timestamp,
            None => false,
        };
        if position_is_current {
            return;
        }
        let ghost o = self@;
        self.symbols.remove(symbol);
        let next = match self.pending_position_after_fill.get(symbol) {
            Some(required) => if required > exch_timestamp {
                required
            } else {
                exch_timestamp
            },
            None => exch_timestamp,
        };
        self.pending_position_after_fill.insert(symbol, next);
        proof {
            assert forall|t: Seq<char>| #[trigger] self@.ready.contains(t) implies self@.recovered.contains(t)
                && !self@.halted.contains(t) && self@.positions.contains_key(t)
                && !self@.pending_fill.contains_key(t) by {
                assert(o.ready.contains(t));
            }
        }
    }

    /// The account stream dropped: every symbol must be recovered again.
    pub fn disconnect(&mut self)
        requires
            old(self).wf(),
        ensures
            final(self).wf(),
            final(self)@ == disconnect_view(old(self)@),
    {
        self.symbols.clear();
        self.recovered_snapshots.clear();
        self.position_timestamps.clear();
        self.pending_position_after_fill.clear();
    }

    /// Whether execution is enabled on the symbol.
    pub fn contains(&self, symbol: &str) -> (r: bool)
        requires
            self.wf(),
        ensures
            r == self@.ready.contains(symbol@),
    {
        self.symbols.contains(symbol)
    }

    /// Latches execution off on the symbol until restart.
    pub fn halt(&mut self, symbol: &str)
        requires
            old(self).wf(),
        ensures
            final(self).wf(),
            final(self)@ == halt_view(old(self)@, symbol@),
    {
        let ghost o = self@;
        self.symbols.remove(symbol);
        self.halted.insert(symbol);
        proof {
            assert forall|t: Seq<char>| #[trigger] self@.ready.contains(t) implies self@.recovered.contains(t)
                && !self@.halted.contains(t) && self@.positions.contains_key(t)
                && !self@.pending_fill.contains_key(t) by {
                assert(o.ready.contains(t));
            }
        }
    }
}

/// Once halted, a symbol stays halted and never becomes ready: no operation removes a halt.
pub proof fn halted_symbols_are_never_ready(v: ReadinessView, s: Seq<char>)
    requires
        ready_is_safe(v),
        v.halted.contains(s),
    ensures
        !v.ready.contains(s),
{
}

/// Every call keeps execution enabled only where it is safe, and keeps every halt.
pub proof fn readiness_step_keeps_safety(o: ReadinessView, e: ReadinessEvent)
    requires
        ready_is_safe(o),
    ensures
        ready_is_safe(readiness_step(o, e)),
        o.halted.subset_of(readiness_step(o, e).halted),
{
    let n = readiness_step(o, e);
    assert forall|t: Seq<char>| #[trigger] n.ready.contains(t) implies {
        &&& n.recovered.contains(t)
        &&& !n.halted.contains(t)
        &&& n.positions.contains_key(t)
        &&& !n.pending_fill.contains_key(t)
    } by {
        match e {
            ReadinessEvent::Reconcile(s) => {
                if t != s {
                    assert(o.ready.contains(t));
                }
            },
            ReadinessEvent::ObservePosition(s, ts, applied) => {
                if t != s || !n.ready.contains(t) || !o.pending_fill.contains_key(s) {
                    assert(o.ready.contains(t));
                } else if !o.ready.contains(t) {
                }
            },
            ReadinessEvent::ObserveOrder(s, status, executed, ts) => {
                assert(o.ready.contains(t));
            },
            ReadinessEvent::Disconnect => {
            },
            ReadinessEvent::Halt(s) => {
                assert(o.ready.contains(t));
            },
        }
    }
}

/// Once halted, a symbol is never ready again, whatever calls follow: the halt latches until
/// restart, and every later state keeps execution enabled only where it is safe. A halt
/// changes the readiness of no other symbol.
pub proof fn halt_is_permanent(o: ReadinessView, s: Seq<char>, events: Seq<ReadinessEvent>)
    requires
        ready_is_safe(o),
    ensures
        readiness_after(halt_view(o, s), events).halted.contains(s),
        !readiness_after(halt_view(o, s), events).ready.contains(s),
        ready_is_safe(readiness_after(halt_view(o, s), events)),
        forall|t: Seq<char>| t != s ==> (halt_view(o, s).ready.contains(t) == o.ready.contains(t)),
{
    readiness_step_keeps_safety(o, ReadinessEvent::Halt(s));
    lemma_halt_stays(halt_view(o, s), s, events);
}

proof fn lemma_halt_stays(o: ReadinessView, s: Seq<char>, events: Seq<ReadinessEvent>)
    requires
        ready_is_safe(o),
        o.halted.contains(s),
    ensures
        readiness_after(o, events).halted.contains(s),
        !readiness_after(o, events).ready.contains(s),
        ready_is_safe(readiness_after(o, events)),
    decreases events.len(),
{
    if events.len() > 0 {
        readiness_step_keeps_safety(o, events[0]);
        lemma_halt_stays(readiness_step(o, events[0]), s, events.drop_first());
    }
}

} // verus!
