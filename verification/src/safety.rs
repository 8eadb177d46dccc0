//! Live safety: halts on stale market data, on a tripped kill switch and on unresolved
//! executions, and the configuration that tunes them.
use vstd::prelude::*;

use crate::keyed::TextMap;
use crate::subscriptions::texts;

verus! {

pub fn default_stale_market_timeout_ms() -> (r: u64)
    ensures
        r == 5_000,
{
    5_000
}

pub fn default_shutdown_cancel_timeout_ms() -> (r: u64)
    ensures
        r == 10_000,
{
    10_000
}

pub fn default_requote_ticks() -> (r: u64)
    ensures
        r == 5,
{
    5
}

pub fn default_min_quote_lifetime_ms() -> (r: u64)
    ensures
        r == 500,
{
    500
}

pub fn default_max_open_orders() -> (r: usize)
    ensures
        r == 6,
{
    6
}

/// Timeouts of the live safety checks and the optional kill-switch file.
#[derive(Clone, Debug)]
pub struct SafetyConfig {
    pub stale_market_timeout_ms: u64,
    pub kill_switch_file: Option<String>,
    pub shutdown_cancel_timeout_ms: u64,
}

impl SafetyConfig {
    pub fn default() -> (r: Self)
        ensures
            r.stale_market_timeout_ms == 5_000,
            r.kill_switch_file is None,
            r.shutdown_cancel_timeout_ms == 10_000,
    {
        SafetyConfig {
            stale_market_timeout_ms: default_stale_market_timeout_ms(),
            kill_switch_file: None,
            shutdown_cancel_timeout_ms: default_shutdown_cancel_timeout_ms(),
        }
    }

    /// The configuration is usable: both timeouts are positive and a kill-switch path, when
    /// given, is not empty.
    pub open spec fn spec_valid(self) -> bool {
        &&& self.stale_market_timeout_ms != 0
        &&& self.shutdown_cancel_timeout_ms != 0
        &&& (self.kill_switch_file matches Some(path) ==> path@.len() != 0)
    }

    pub fn validate(&self) -> (r: Result<(), &'static str>)
        ensures
            r is Ok <==> self.spec_valid(),
            r matches Err(msg) ==> msg@ == "invalid live safety configuration"@,
    {
        let empty_path = match &self.kill_switch_file {
            Some(path) => path.as_str().is_empty(),
            None => false,
        };
        if self.stale_market_timeout_ms == 0 || self.shutdown_cancel_timeout_ms == 0 || empty_path {
            return Err("invalid live safety configuration");
        }
        Ok(())
    }
}

/// The safety state of one symbol.
#[derive(Clone, Copy, Debug, PartialEq, Eq, Structural)]
pub struct SymbolSafety {
    /// When the symbol's market data last arrived, in milliseconds since the service started.
    pub last_market_ms: u64,
    /// Halted because the market went stale or the stream dropped; cleared by fresh market data
    /// once no order of the symbol remains open.
    pub stale: bool,
    /// Halted until restart because an execution outcome is unknown.
    pub halted: bool,
}

pub struct SafetyView {
    pub timeout_ms: u64,
    pub kill_latched: bool,
    pub symbols: Map<Seq<char>, SymbolSafety>,
}

/// Milliseconds from `last` to `now`, zero when `now` is earlier.
pub open spec fn elapsed(last: u64, now: u64) -> int {
    if now >= last {
        now - last
    } else {
        0
    }
}

/// Whether the symbol's trading is halted.
pub open spec fn spec_is_halted(v: SafetyView, symbol: Seq<char>) -> bool {
    v.kill_latched || (v.symbols.contains_key(symbol) && (v.symbols[symbol].halted
        || v.symbols[symbol].stale))
}

/// Whether a new order on the symbol may be submitted at `now_ms`: the symbol is known, nothing
/// halts it, and its market data is younger than the timeout.
pub open spec fn spec_can_submit(v: SafetyView, symbol: Seq<char>, now_ms: u64) -> bool {
    &&& v.symbols.contains_key(symbol)
    &&& !spec_is_halted(v, symbol)
    &&& elapsed(v.symbols[symbol].last_market_ms, now_ms) < v.timeout_ms
}

/// The state of one symbol after a clock tick.
pub open spec fn after_tick(s: SymbolSafety, now_ms: u64, timeout_ms: u64) -> SymbolSafety {
    SymbolSafety { stale: s.stale || elapsed(s.last_market_ms, now_ms) >= timeout_ms, ..s }
}

/// No operation clears a latched kill switch or a symbol halt, and no symbol is forgotten.
pub open spec fn latches_kept(o: SafetyView, n: SafetyView) -> bool {
    &&& o.kill_latched ==> n.kill_latched
    &&& n.timeout_ms == o.timeout_ms
    &&& n.symbols.dom() == o.symbols.dom()
    &&& forall|s: Seq<char>| #[trigger] o.symbols.contains_key(s) && o.symbols[s].halted
        ==> n.symbols[s].halted
}

pub struct SafetyState {
    timeout_ms: u64,
    names: Vec<String>,
    symbols: TextMap<SymbolSafety>,
    kill_latched: bool,
}

impl View for SafetyState {
    type V = SafetyView;

    closed spec fn view(&self) -> SafetyView {
        SafetyView {
            timeout_ms: self.timeout_ms,
            kill_latched: self.kill_latched,
            symbols: self.symbols@,
        }
    }
}

impl SafetyState {
    pub closed spec fn wf(self) -> bool {
        &&& self.symbols.wf()
        &&& self.symbols@.dom() == texts(self.names@).to_set()
    }

    /// Tracks `symbols`, none halted, with market time zero.
    pub fn new(stale_market_timeout_ms: u64, symbols: Vec<String>) -> (r: Self)
        ensures
            r.wf(),
            r@.timeout_ms == stale_market_timeout_ms,
            !r@.kill_latched,
            r@.symbols.dom() == texts(symbols@).to_set(),
            forall|k: Seq<char>| #[trigger] r@.symbols.contains_key(k) ==> r@.symbols[k]
                == (SymbolSafety { last_market_ms: 0, stale: false, halted: false }),
    {
        let mut map: TextMap<SymbolSafety> = TextMap::new();
        let mut i: usize = 0;
        let ghost all = texts(symbols@);
        while i < symbols.len()
            invariant
                i <= symbols.len(),
                all == texts(symbols@),
                map.wf(),
                map@.dom() == all.take(i as int).to_set(),
                forall|k: Seq<char>| #[trigger] map@.contains_key(k) ==> map@[k]
                    == (SymbolSafety { last_market_ms: 0, stale: false, halted: false }),
            decreases symbols.len() - i,
        {
            let ghost before = map@;
            map.insert(symbols[i].as_str(), SymbolSafety { last_market_ms: 0, stale: false, halted: false });
            proof {
                let prev = all.take(i as int);
                let next = all.take(i + 1);
                assert(next =~= prev.push(symbols@[i as int]@));
                assert(next.to_set() =~= prev.to_set().insert(symbols@[i as int]@)) by {
                    assert forall|t: Seq<char>| next.to_set().contains(t) implies prev.to_set().insert(symbols@[i as int]@).contains(t) by {
                        let w = choose|w: int| 0 <= w < next.len() && next[w] == t;
                        if w < prev.len() {
                            assert(prev[w] == t);
                        }
                    }
                    assert forall|t: Seq<char>| prev.to_set().insert(symbols@[i as int]@).contains(t) implies next.to_set().contains(t) by {
                        if t == symbols@[i as int]@ {
                            assert(next[i as int] == t);
                        } else {
                            let w = choose|w: int| 0 <= w < prev.len() && prev[w] == t;
                            assert(next[w] == t);
                        }
                    }
                }
                assert(map@.dom() =~= before.dom().insert(symbols@[i as int]@));
                assert forall|k: Seq<char>| #[trigger] map@.contains_key(k) implies map@[k]
                    == (SymbolSafety { last_market_ms: 0, stale: false, halted: false }) by {
                    if k != symbols@[i as int]@ {
                        assert(before.contains_key(k));
                    }
                }
            }
            i = i + 1;
        }
        assert(all.take(symbols.len() as int) =~= all);
        SafetyState { timeout_ms: stale_market_timeout_ms, names: symbols, symbols: map, kill_latched: false }
    }

    /// Market data of the symbol arrived at `now_ms`; a stale halt clears once no order of the
    /// symbol remains open.
    pub fn on_market_batch(&mut self, symbol: &str, now_ms: u64, has_open_orders: bool)
        requires
            old(self).wf(),
        ensures
            final(self).wf(),
            final(self)@.kill_latched == old(self)@.kill_latched,
            final(self)@.timeout_ms == old(self)@.timeout_ms,
            old(self)@.symbols.contains_key(symbol@) ==> final(self)@.symbols == old(self)@.symbols.insert(
                symbol@,
                SymbolSafety {
                    last_market_ms: now_ms,
                    stale: old(self)@.symbols[symbol@].stale && has_open_orders,
                    ..old(self)@.symbols[symbol@]
                },
            ),
            !old(self)@.symbols.contains_key(symbol@) ==> final(self)@.symbols == old(self)@.symbols,
            latches_kept(old(self)@, final(self)@),
    {
        if let Some(s) = self.symbols.get(symbol) {
            let next = SymbolSafety { last_market_ms: now_ms, stale: s.stale && has_open_orders, halted: s.halted };
            self.symbols.insert(symbol, next);
            assert(self@.symbols.dom() =~= old(self)@.symbols.dom());
        }
    }

    /// The clock reached `now_ms`: symbols without market data for the timeout go stale.
    pub fn on_tick(&mut self, now_ms: u64)
        requires
            old(self).wf(),
        ensures
            final(self).wf(),
            final(self)@.kill_latched == old(self)@.kill_latched,
            final(self)@.timeout_ms == old(self)@.timeout_ms,
            final(self)@.symbols.dom() == old(self)@.symbols.dom(),
            forall|k: Seq<char>| #[trigger] old(self)@.symbols.contains_key(k) ==> final(self)@.symbols[k]
                == after_tick(old(self)@.symbols[k], now_ms, old(self)@.timeout_ms),
            latches_kept(old(self)@, final(self)@),
    {
        let ghost o = self@.symbols;
        let mut i: usize = 0;
        while i < self.names.len()
            invariant
                i <= self.names.len(),
                self.wf(),
                self.timeout_ms == old(self).timeout_ms,
                self.names == old(self).names,
                self.kill_latched == old(self).kill_latched,
                o == old(self)@.symbols,
                self@.symbols.dom() == o.dom(),
                forall|k: Seq<char>| #[trigger] o.contains_key(k) ==> (self@.symbols[k] == o[k]
                    || self@.symbols[k] == after_tick(o[k], now_ms, self.timeout_ms)),
                forall|k: Seq<char>| #[trigger] o.contains_key(k) && texts(self.names@).take(i as int).contains(k)
                    ==> self@.symbols[k] == after_tick(o[k], now_ms, self.timeout_ms),
            decreases self.names.len() - i,
        {
            let ghost before = self@.symbols;
            let name = self.names[i].clone();
            proof {
                assert(self.names@[i as int]@ == name@);
            }
            if let Some(s) = self.symbols.get(name.as_str()) {
                let gone = if now_ms >= s.last_market_ms {
                    now_ms - s.last_market_ms >= self.timeout_ms
                } else {
                    0 >= self.timeout_ms
                };
                let next = SymbolSafety { stale: s.stale || gone, ..s };
                self.symbols.insert(name.as_str(), next);
                proof {
                    assert(self@.symbols.dom() =~= before.dom());
                    // ticking twice in a row gives the same state
                    assert(after_tick(after_tick(o[name@], now_ms, self.timeout_ms), now_ms, self.timeout_ms)
                        == after_tick(o[name@], now_ms, self.timeout_ms));
                }
            }
            proof {
                assert forall|k: Seq<char>| #[trigger] o.contains_key(k) && texts(self.names@).take(i + 1).contains(k)
                    implies self@.symbols[k] == after_tick(o[k], now_ms, self.timeout_ms) by {
                    let j = choose|j: int| 0 <= j < texts(self.names@).take(i + 1).len() && #[trigger] texts(self.names@).take(i + 1)[j] == k;
                    assert(texts(self.names@)[j] == k);
                    if j < i {
                        assert(texts(self.names@).take(i as int)[j] == k);
                        if k != name@ {
                            assert(self@.symbols[k] == before[k]);
                        }
                    }
                }
            }
            i = i + 1;
        }
        proof {
            assert forall|k: Seq<char>| #[trigger] o.contains_key(k) implies self@.symbols[k]
                == after_tick(o[k], now_ms, self.timeout_ms) by {
                assert(texts(self.names@).to_set().contains(k));
                let j = choose|j: int| 0 <= j < texts(self.names@).len() && texts(self.names@)[j] == k;
                assert(texts(self.names@).take(self.names@.len() as int)[j] == k);
            }
        }
    }

    /// The market or account stream dropped: every symbol goes stale.
    pub fn mark_disconnected(&mut self)
        requires
            old(self).wf(),
        ensures
            final(self).wf(),
            final(self)@.kill_latched == old(self)@.kill_latched,
            final(self)@.symbols.dom() == old(self)@.symbols.dom(),
            forall|k: Seq<char>| #[trigger] old(self)@.symbols.contains_key(k) ==> final(self)@.symbols[k]
                == (SymbolSafety { stale: true, ..old(self)@.symbols[k] }),
            latches_kept(old(self)@, final(self)@),
    {
        let ghost o = self@.symbols;
        let mut i: usize = 0;
        while i < self.names.len()
            invariant
                i <= self.names.len(),
                self.wf(),
                self.timeout_ms == old(self).timeout_ms,
                self.names == old(self).names,
                self.kill_latched == old(self).kill_latched,
                o == old(self)@.symbols,
                self@.symbols.dom() == o.dom(),
                forall|k: Seq<char>| #[trigger] o.contains_key(k) ==> (self@.symbols[k] == o[k]
                    || self@.symbols[k] == (SymbolSafety { stale: true, ..o[k] })),
                forall|k: Seq<char>| #[trigger] o.contains_key(k) && texts(self.names@).take(i as int).contains(k)
                    ==> self@.symbols[k] == (SymbolSafety { stale: true, ..o[k] }),
            decreases self.names.len() - i,
        {
            let ghost before = self@.symbols;
            let name = self.names[i].clone();
            proof {
                assert(self.names@[i as int]@ == name@);
            }
            if let Some(s) = self.symbols.get(name.as_str()) {
                self.symbols.insert(name.as_str(), SymbolSafety { stale: true, ..s });
                proof {
                    assert(self@.symbols.dom() =~= before.dom());
                }
            }
            proof {
                assert forall|k: Seq<char>| #[trigger] o.contains_key(k) && texts(self.names@).take(i + 1).contains(k)
                    implies self@.symbols[k] == (SymbolSafety { stale: true, ..o[k] }) by {
                    let j = choose|j: int| 0 <= j < texts(self.names@).take(i + 1).len() && #[trigger] texts(self.names@).take(i + 1)[j] == k;
                    assert(texts(self.names@)[j] == k);
                    if j < i {
                        assert(texts(self.names@).take(i as int)[j] == k);
                        if k != name@ {
                            assert(self@.symbols[k] == before[k]);
                        }
                    }
                }
            }
            i = i + 1;
        }
        proof {
            assert forall|k: Seq<char>| #[trigger] o.contains_key(k) implies self@.symbols[k]
                == (SymbolSafety { stale: true, ..o[k] }) by {
                assert(texts(self.names@).to_set().contains(k));
                let j = choose|j: int| 0 <= j < texts(self.names@).len() && texts(self.names@)[j] == k;
                assert(texts(self.names@).take(self.names@.len() as int)[j] == k);
            }
        }
    }

    /// An execution outcome of the symbol is unknown: it is halted until restart.
    pub fn halt_symbol(&mut self, symbol: &str)
        requires
            old(self).wf(),
        ensures
            final(self).wf(),
            final(self)@.kill_latched == old(self)@.kill_latched,
            old(self)@.symbols.contains_key(symbol@) ==> final(self)@.symbols == old(self)@.symbols.insert(
                symbol@,
                SymbolSafety { halted: true, ..old(self)@.symbols[symbol@] },
            ),
            !old(self)@.symbols.contains_key(symbol@) ==> final(self)@.symbols == old(self)@.symbols,
            latches_kept(old(self)@, final(self)@),
    {
        if let Some(s) = self.symbols.get(symbol) {
            self.symbols.insert(symbol, SymbolSafety { halted: true, ..s });
            assert(self@.symbols.dom() =~= old(self)@.symbols.dom());
        }
    }

    /// Latches the kill switch; returns whether it was not latched before.
    pub fn trip_kill_switch(&mut self) -> (r: bool)
        requires
            old(self).wf(),
        ensures
            final(self).wf(),
            r == !old(self)@.kill_latched,
            final(self)@ == (SafetyView { kill_latched: true, ..old(self)@ }),
            latches_kept(old(self)@, final(self)@),
    {
        let was = self.kill_latched;
        self.kill_latched = true;
        !was
    }

    pub fn kill_latched(&self) -> (r: bool)
        ensures
            r == self@.kill_latched,
    {
        self.kill_latched
    }

    /// Whether the symbol is one of the tracked symbols.
    pub fn knows(&self, symbol: &str) -> (r: bool)
        requires
            self.wf(),
        ensures
            r == self@.symbols.contains_key(symbol@),
    {
        self.symbols.get(symbol).is_some()
    }

    /// Whether trading on the symbol is halted.
    pub fn is_halted(&self, symbol: &str) -> (r: bool)
        requires
            self.wf(),
        ensures
            r == spec_is_halted(self@, symbol@),
    {
        if self.kill_latched {
            return true;
        }
        match self.symbols.get(symbol) {
            Some(s) => s.halted || s.stale,
            None => false,
        }
    }

    /// Whether the symbol's open orders must be canceled: exactly when it is halted.
    pub fn requires_cancel(&self, symbol: &str) -> (r: bool)
        requires
            self.wf(),
        ensures
            r == spec_is_halted(self@, symbol@),
    {
        self.is_halted(symbol)
    }

    /// Whether a new order on the symbol may be submitted at `now_ms`.
    pub fn can_submit(&self, symbol: &str, now_ms: u64) -> (r: bool)
        requires
            self.wf(),
        ensures
            r == spec_can_submit(self@, symbol@, now_ms),
    {
        if self.kill_latched {
            return false;
        }
        match self.symbols.get(symbol) {
            Some(s) => {
                let age = if now_ms >= s.last_market_ms {
                    now_ms - s.last_market_ms
                } else {
                    0
                };
                !s.halted && !s.stale && age < self.timeout_ms
            },
            None => false,
        }
    }
}

/// A latched kill switch halts every symbol and blocks every submission.
pub proof fn kill_switch_blocks_every_symbol(v: SafetyView, symbol: Seq<char>, now_ms: u64)
    requires
        v.kill_latched,
    ensures
        spec_is_halted(v, symbol),
        !spec_can_submit(v, symbol, now_ms),
{
}

} // verus!
