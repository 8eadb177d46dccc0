//! The decisions of the live service's event loop: what each event does to the account
//! readiness and the market safety state, and what the loop must do next. The loop itself
//! (channels, timers, the strategies and the connector) stays outside; it hands each event to
//! `LiveSupervisor::on_event` and performs the action it gets back.
use vstd::prelude::*;

use crate::ports::RunMode;
use crate::readiness::{
    disconnect_view, halt_view, observe_order_view, observe_position_view,
    readiness_step_keeps_safety, ready_is_safe, reconcile_view, AccountReadiness, ReadinessEvent,
    ReadinessView,
};
use crate::safety::{after_tick, spec_can_submit, SafetyState, SafetyView, SymbolSafety};
use crate::types::Status;

verus! {

/// What reaches the event loop.
pub enum ServiceEvent {
    /// A position update of the symbol, applied (or not) by its strategy runtime.
    Position { symbol: String, exch_ts: i64, applied: bool },
    /// An order update of the symbol that its strategy runtime applied; `executed` tells whether
    /// a positive quantity was executed.
    Order { symbol: String, status: Status, executed: bool, exch_ts: i64 },
    /// The depth of the symbol changed in the market batch that ended at `now_ms`.
    MarketBatch { symbol: String, now_ms: u64, has_open_orders: bool },
    AccountStreamDisconnected,
    MarketStreamDisconnected,
    /// The REST snapshot of the symbol's position and open orders is complete.
    AccountSnapshotReady { symbol: String },
    /// The outcome of an order submission of the symbol is unknown.
    ExecutionUncertain { symbol: String },
    /// The safety clock reached `now_ms`; `kill_switch_active` tells whether the external kill
    /// switch is set.
    Tick { now_ms: u64, kill_switch_active: bool },
}

/// What the event loop must do after an event.
#[derive(Clone, Copy, Debug, PartialEq, Eq, Structural)]
pub enum ServiceAction {
    Nothing,
    /// Let the strategy of the symbol of the market batch decide, and execute its commands.
    Decide,
    /// Cancel the open orders of the halted symbols (see `SafetyCancels::plan`).
    CancelSafetyOrders,
}

/// The state of the supervised service.
pub struct ServiceView {
    pub mode: RunMode,
    pub readiness: ReadinessView,
    pub safety: SafetyView,
}

/// Every symbol's market goes stale.
pub open spec fn all_stale(v: SafetyView) -> SafetyView {
    SafetyView {
        symbols: v.symbols.map_values(|s: SymbolSafety| SymbolSafety { stale: true, ..s }),
        ..v
    }
}

/// The clock reached `now_ms`.
pub open spec fn ticked(v: SafetyView, now_ms: u64) -> SafetyView {
    SafetyView {
        symbols: v.symbols.map_values(|s: SymbolSafety| after_tick(s, now_ms, v.timeout_ms)),
        ..v
    }
}

/// Market data of a known symbol arrived at `now_ms`.
pub open spec fn market_arrived(v: SafetyView, symbol: Seq<char>, now_ms: u64, has_open_orders: bool) -> SafetyView {
    if v.symbols.contains_key(symbol) {
        SafetyView {
            symbols: v.symbols.insert(
                symbol,
                SymbolSafety {
                    last_market_ms: now_ms,
                    stale: v.symbols[symbol].stale && has_open_orders,
                    ..v.symbols[symbol]
                },
            ),
            ..v
        }
    } else {
        v
    }
}

/// A known symbol is halted until restart.
pub open spec fn symbol_halted(v: SafetyView, symbol: Seq<char>) -> SafetyView {
    if v.symbols.contains_key(symbol) {
        SafetyView { symbols: v.symbols.insert(symbol, SymbolSafety { halted: true, ..v.symbols[symbol] }), ..v }
    } else {
        v
    }
}

/// What an event does to the service, and the action that follows. Events of symbols the
/// service does not run leave the account state alone; a market batch lets the strategy decide
/// in a dry run, and when trading only on a symbol that is ready and fresh.
pub open spec fn service_step(v: ServiceView, e: ServiceEvent) -> (ServiceView, ServiceAction) {
    let known = |s: Seq<char>| v.safety.symbols.contains_key(s);
    match e {
        ServiceEvent::Position { symbol, exch_ts, applied } => {
            let r = if known(symbol@) {
                observe_position_view(v.readiness, symbol@, exch_ts, applied)
            } else {
                v.readiness
            };
            (ServiceView { readiness: r, ..v }, ServiceAction::Nothing)
        },
        ServiceEvent::Order { symbol, status, executed, exch_ts } => {
            let r = if known(symbol@) {
                observe_order_view(v.readiness, symbol@, status, executed, exch_ts)
            } else {
                v.readiness
            };
            (ServiceView { readiness: r, ..v }, ServiceAction::Nothing)
        },
        ServiceEvent::MarketBatch { symbol, now_ms, has_open_orders } => {
            let s = market_arrived(v.safety, symbol@, now_ms, has_open_orders);
            let allowed = v.mode != RunMode::Execute || (v.readiness.ready.contains(symbol@)
                && spec_can_submit(s, symbol@, now_ms));
            (
                ServiceView { safety: s, ..v },
                if allowed {
                    ServiceAction::Decide
                } else {
                    ServiceAction::Nothing
                },
            )
        },
        ServiceEvent::AccountStreamDisconnected => (
            ServiceView { readiness: disconnect_view(v.readiness), safety: all_stale(v.safety), ..v },
            ServiceAction::CancelSafetyOrders,
        ),
        ServiceEvent::MarketStreamDisconnected => (
            ServiceView { safety: all_stale(v.safety), ..v },
            ServiceAction::CancelSafetyOrders,
        ),
        ServiceEvent::AccountSnapshotReady { symbol } => {
            let r = if known(symbol@) {
                reconcile_view(v.readiness, symbol@)
            } else {
                v.readiness
            };
            (ServiceView { readiness: r, ..v }, ServiceAction::CancelSafetyOrders)
        },
        ServiceEvent::ExecutionUncertain { symbol } => (
            ServiceView {
                readiness: halt_view(v.readiness, symbol@),
                safety: symbol_halted(v.safety, symbol@),
                ..v
            },
            ServiceAction::CancelSafetyOrders,
        ),
        ServiceEvent::Tick { now_ms, kill_switch_active } => {
            let t = ticked(v.safety, now_ms);
            let s = if kill_switch_active {
                SafetyView { kill_latched: true, ..t }
            } else {
                t
            };
            (ServiceView { safety: s, ..v }, ServiceAction::CancelSafetyOrders)
        },
    }
}

/// The account readiness and market safety state of the live service, in one run mode.
pub struct LiveSupervisor {
    mode: RunMode,
    readiness: AccountReadiness,
    safety: SafetyState,
}

impl View for LiveSupervisor {
    type V = ServiceView;

    closed spec fn view(&self) -> ServiceView {
        ServiceView { mode: self.mode, readiness: self.readiness@, safety: self.safety@ }
    }
}

impl LiveSupervisor {
    pub closed spec fn wf(&self) -> bool {
        self.readiness.wf() && self.safety.wf()
    }

    /// A service running `symbols` in `mode`: no symbol ready, none halted, market time zero;
    /// the kill switch is latched at once when it is set at start.
    pub fn new(mode: RunMode, stale_market_timeout_ms: u64, symbols: Vec<String>, kill_switch_active: bool) -> (r: Self)
        ensures
            r.wf(),
            r@.mode == mode,
            r@.readiness.ready.is_empty(),
            r@.readiness.halted.is_empty(),
            r@.readiness.recovered.is_empty(),
            r@.readiness.positions == Map::<Seq<char>, i64>::empty(),
            r@.readiness.pending_fill == Map::<Seq<char>, i64>::empty(),
            r@.safety.timeout_ms == stale_market_timeout_ms,
            r@.safety.kill_latched == kill_switch_active,
            r@.safety.symbols.dom() == crate::subscriptions::texts(symbols@).to_set(),
            forall|k: Seq<char>| #[trigger] r@.safety.symbols.contains_key(k) ==> r@.safety.symbols[k]
                == (SymbolSafety { last_market_ms: 0, stale: false, halted: false }),
    {
        let readiness = AccountReadiness::new();
        let mut safety = SafetyState::new(stale_market_timeout_ms, symbols);
        if kill_switch_active {
            safety.trip_kill_switch();
        }
        LiveSupervisor { mode, readiness, safety }
    }

    /// The account readiness, for the cancel planner and the executor.
    pub fn readiness(&self) -> (r: &AccountReadiness)
        requires
            self.wf(),
        ensures
            r.wf(),
            r@ == self@.readiness,
    {
        &self.readiness
    }

    /// The market safety state, for the cancel planner.
    pub fn safety(&self) -> (r: &SafetyState)
        requires
            self.wf(),
        ensures
            r.wf(),
            r@ == self@.safety,
    {
        &self.safety
    }

    /// Applies one event and returns what the loop must do next.
    pub fn on_event(&mut self, event: &ServiceEvent) -> (r: ServiceAction)
        requires
            old(self).wf(),
        ensures
            final(self).wf(),
            (final(self)@, r) == service_step(old(self)@, *event),
    {
        let ghost o = self@;
        match event {
            ServiceEvent::Position { symbol, exch_ts, applied } => {
                if self.safety.knows(symbol.as_str()) {
                    self.readiness.observe_position(symbol.as_str(), *exch_ts, *applied);
                }
                ServiceAction::Nothing
            },
            ServiceEvent::Order { symbol, status, executed, exch_ts } => {
                if self.safety.knows(symbol.as_str()) {
                    self.readiness.observe_order(symbol.as_str(), *status, *executed, *exch_ts);
                }
                ServiceAction::Nothing
            },
            ServiceEvent::MarketBatch { symbol, now_ms, has_open_orders } => {
                self.safety.on_market_batch(symbol.as_str(), *now_ms, *has_open_orders);
                proof {
                    assert(self@.safety == market_arrived(o.safety, symbol@, *now_ms, *has_open_orders));
                }
                if !self.mode.allows_trading() || (self.readiness.contains(symbol.as_str())
                    && self.safety.can_submit(symbol.as_str(), *now_ms)) {
                    ServiceAction::Decide
                } else {
                    ServiceAction::Nothing
                }
            },
            ServiceEvent::AccountStreamDisconnected => {
                self.readiness.disconnect();
                self.safety.mark_disconnected();
                proof {
                    assert(self@.safety.symbols =~= all_stale(o.safety).symbols);
                }
                ServiceAction::CancelSafetyOrders
            },
            ServiceEvent::MarketStreamDisconnected => {
                self.safety.mark_disconnected();
                proof {
                    assert(self@.safety.symbols =~= all_stale(o.safety).symbols);
                }
                ServiceAction::CancelSafetyOrders
            },
            ServiceEvent::AccountSnapshotReady { symbol } => {
                if self.safety.knows(symbol.as_str()) {
                    self.readiness.reconcile(symbol.as_str());
                }
                ServiceAction::CancelSafetyOrders
            },
            ServiceEvent::ExecutionUncertain { symbol } => {
                self.readiness.halt(symbol.as_str());
                self.safety.halt_symbol(symbol.as_str());
                proof {
                    assert(self@.safety == symbol_halted(o.safety, symbol@));
                }
                ServiceAction::CancelSafetyOrders
            },
            ServiceEvent::Tick { now_ms, kill_switch_active } => {
                self.safety.on_tick(*now_ms);
                proof {
                    assert(self@.safety.symbols =~= ticked(o.safety, *now_ms).symbols);
                }
                if *kill_switch_active {
                    self.safety.trip_kill_switch();
                }
                ServiceAction::CancelSafetyOrders
            },
        }
    }
}

/// When trading, a strategy decides only on a symbol whose account state was recovered and is
/// ready, that is not halted, and whose market data is fresh at the batch's time.
pub proof fn decisions_need_ready_fresh_symbols(v: ServiceView, e: ServiceEvent)
    requires
        v.mode == RunMode::Execute,
        service_step(v, e).1 == ServiceAction::Decide,
    ensures
        e matches ServiceEvent::MarketBatch { symbol, now_ms, .. } && {
            let n = service_step(v, e).0;
            &&& n.readiness.ready.contains(symbol@)
            &&& spec_can_submit(n.safety, symbol@, now_ms)
        },
{
}

/// Every event that can leave an order unwanted (a dropped stream, a halt, a snapshot, a clock
/// tick) is followed by a cancel of the halted symbols' open orders.
pub proof fn unsafe_events_cancel(v: ServiceView, e: ServiceEvent)
    requires
        e is AccountStreamDisconnected || e is MarketStreamDisconnected || e is ExecutionUncertain
            || e is AccountSnapshotReady || e is Tick,
    ensures
        service_step(v, e).1 == ServiceAction::CancelSafetyOrders,
{
}

/// The state of a service that has just started (see `LiveSupervisor::new`): no symbol
/// recovered, ready or halted, no position and no fill waiting.
pub open spec fn fresh_service(v: ServiceView) -> bool {
    &&& v.readiness.ready.is_empty()
    &&& v.readiness.halted.is_empty()
    &&& v.readiness.recovered.is_empty()
    &&& v.readiness.positions == Map::<Seq<char>, i64>::empty()
    &&& v.readiness.pending_fill == Map::<Seq<char>, i64>::empty()
}

/// The state after a sequence of events, in order.
pub open spec fn service_after(v: ServiceView, events: Seq<ServiceEvent>) -> ServiceView
    decreases events.len(),
{
    if events.len() == 0 {
        v
    } else {
        service_after(service_step(v, events[0]).0, events.drop_first())
    }
}

/// The event is the completion of the account snapshot of `s`.
pub open spec fn is_snapshot_of(e: ServiceEvent, s: Seq<char>) -> bool {
    e matches ServiceEvent::AccountSnapshotReady { symbol } && symbol@ == s
}

proof fn lemma_step_keeps_unrecovered(v: ServiceView, e: ServiceEvent, s: Seq<char>)
    requires
        ready_is_safe(v.readiness),
        !v.readiness.recovered.contains(s),
        !is_snapshot_of(e, s),
    ensures
        ready_is_safe(service_step(v, e).0.readiness),
        !service_step(v, e).0.readiness.recovered.contains(s),
        service_step(v, e).0.mode == v.mode,
{
    match e {
        ServiceEvent::Position { symbol, exch_ts, applied } => {
            readiness_step_keeps_safety(v.readiness, ReadinessEvent::ObservePosition(symbol@, exch_ts, applied));
        },
        ServiceEvent::Order { symbol, status, executed, exch_ts } => {
            readiness_step_keeps_safety(v.readiness, ReadinessEvent::ObserveOrder(symbol@, status, executed, exch_ts));
        },
        ServiceEvent::AccountStreamDisconnected => {
            readiness_step_keeps_safety(v.readiness, ReadinessEvent::Disconnect);
        },
        ServiceEvent::AccountSnapshotReady { symbol } => {
            readiness_step_keeps_safety(v.readiness, ReadinessEvent::Reconcile(symbol@));
        },
        ServiceEvent::ExecutionUncertain { symbol } => {
            readiness_step_keeps_safety(v.readiness, ReadinessEvent::Halt(symbol@));
        },
        _ => {},
    }
}

/// When trading, no strategy decides on a symbol before the account snapshot of that symbol
/// completes, whatever other events come first: a position update alone never enables
/// execution. (From a fresh service, as `LiveSupervisor::new` makes it.)
pub proof fn no_decision_before_the_snapshot(v: ServiceView, events: Seq<ServiceEvent>, s: Seq<char>)
    requires
        v.mode == RunMode::Execute,
        fresh_service(v),
        forall|i: int| 0 <= i < events.len() ==> !is_snapshot_of(#[trigger] events[i], s),
    ensures
        forall|k: int|
            0 <= k < events.len() && (events[k] matches ServiceEvent::MarketBatch { symbol, .. } && symbol@
                == s) ==> #[trigger] service_step(service_after(v, events.take(k)), events[k]).1
                == ServiceAction::Nothing,
{
    assert forall|k: int|
        0 <= k < events.len() && (events[k] matches ServiceEvent::MarketBatch { symbol, .. } && symbol@
            == s) implies #[trigger] service_step(service_after(v, events.take(k)), events[k]).1
            == ServiceAction::Nothing by {
        lemma_unrecovered_after(v, events.take(k), s);
        let w = service_after(v, events.take(k));
        assert(!w.readiness.ready.contains(s));
    }
}

proof fn lemma_unrecovered_after(v: ServiceView, events: Seq<ServiceEvent>, s: Seq<char>)
    requires
        ready_is_safe(v.readiness) || fresh_service(v),
        !v.readiness.recovered.contains(s),
        forall|i: int| 0 <= i < events.len() ==> !is_snapshot_of(#[trigger] events[i], s),
    ensures
        ready_is_safe(service_after(v, events).readiness),
        !service_after(v, events).readiness.recovered.contains(s),
        service_after(v, events).mode == v.mode,
    decreases events.len(),
{
    assert(ready_is_safe(v.readiness));
    if events.len() > 0 {
        assert(!is_snapshot_of(events[0], s));
        lemma_step_keeps_unrecovered(v, events[0], s);
        let rest = events.drop_first();
        assert forall|i: int| 0 <= i < rest.len() implies !is_snapshot_of(#[trigger] rest[i], s) by {
            assert(rest[i] == events[i + 1]);
        }
        lemma_unrecovered_after(service_step(v, events[0]).0, rest, s);
    }
}

/// When trading, once a started service has an applied position update of a symbol and then
/// the symbol's account snapshot, the next market batch of the symbol lets its strategy decide,
/// provided the kill switch is off and the batch comes within the stale-market timeout.
pub proof fn the_snapshot_enables_decisions(
    v: ServiceView,
    position: ServiceEvent,
    snapshot: ServiceEvent,
    batch: ServiceEvent,
    s: Seq<char>,
)
    requires
        v.mode == RunMode::Execute,
        fresh_service(v),
        !v.safety.kill_latched,
        v.safety.symbols.contains_key(s),
        v.safety.symbols[s] == (SymbolSafety { last_market_ms: 0, stale: false, halted: false }),
        position matches ServiceEvent::Position { symbol, applied, .. } && symbol@ == s && applied,
        is_snapshot_of(snapshot, s),
        batch matches ServiceEvent::MarketBatch { symbol, now_ms, .. } && symbol@ == s && now_ms
            < v.safety.timeout_ms,
    ensures
        service_step(service_step(service_step(v, position).0, snapshot).0, batch).1
            == ServiceAction::Decide,
{
}

} // verus!
