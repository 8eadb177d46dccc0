//! Decisions of the public market data stream besides depth synchronisation: which trades are
//! published and as what, how a depth snapshot request is retried, and how symbols are
//! registered for subscription.
use vstd::prelude::*;

use crate::keyed::TextSet;
use crate::types::{LOCAL_BUY_TRADE_EVENT, LOCAL_SELL_TRADE_EVENT};

verus! {

/// The pauses before each attempt to fetch a depth snapshot, in milliseconds.
pub open spec fn snapshot_retry_delay(attempt: int) -> Option<u64> {
    if attempt == 0 {
        Some(0)
    } else if attempt == 1 {
        Some(100)
    } else if attempt == 2 {
        Some(250)
    } else if attempt == 3 {
        Some(500)
    } else if attempt == 4 {
        Some(1000)
    } else {
        None
    }
}

/// The pause before attempt `attempt` of a depth snapshot request, or `None` once the
/// attempts are exhausted.
pub fn snapshot_retry_delay_ms(attempt: usize) -> (r: Option<u64>)
    ensures
        r == snapshot_retry_delay(attempt as int),
{
    if attempt == 0 {
        Some(0)
    } else if attempt == 1 {
        Some(100)
    } else if attempt == 2 {
        Some(250)
    } else if attempt == 3 {
        Some(500)
    } else if attempt == 4 {
        Some(1000)
    } else {
        None
    }
}

pub open spec fn market_trade_type() -> Seq<char> {
    seq!['M', 'A', 'R', 'K', 'E', 'T']
}

/// The event kind a trade is published as: only market trades are, as a sell when the buyer
/// was the maker and as a buy otherwise.
pub fn trade_event_kind(trade_type: &str, buyer_is_maker: bool) -> (r: Option<u64>)
    ensures
        trade_type@ != market_trade_type() ==> r is None,
        trade_type@ == market_trade_type() ==> r == Some(
            if buyer_is_maker {
                LOCAL_SELL_TRADE_EVENT
            } else {
                LOCAL_BUY_TRADE_EVENT
            },
        ),
{
    let market = crate::text::chars_of("MARKET");
    proof {
        reveal_strlit("MARKET");
        assert(market@ =~= market_trade_type());
    }
    let t = crate::text::chars_of(trade_type);
    if !crate::text::chars_equal(&t, &market) {
        return None;
    }
    if buyer_is_maker {
        Some(LOCAL_SELL_TRADE_EVENT)
    } else {
        Some(LOCAL_BUY_TRADE_EVENT)
    }
}

/// What `str::to_lowercase` makes of a text (Unicode lower-case mapping).
pub uninterp spec fn lowercase(s: Seq<char>) -> Seq<char>;

/// `str::to_lowercase`: the text with every character in lower case, as Unicode defines it.
/// Its result is named `lowercase`.
#[verifier::external_body]
pub(crate) fn to_lowercase(s: &str) -> (r: String)
    ensures
        r@ == lowercase(s@),
{
    s.to_lowercase()
}

/// Registers a symbol for market data, in lower case: returns it when it is new, to be
/// subscribed, and `None` when it was registered before.
pub fn register_symbol(symbols: &mut TextSet, symbol: &str) -> (r: Option<String>)
    requires
        old(symbols).wf(),
    ensures
        final(symbols).wf(),
        final(symbols)@ == old(symbols)@.insert(lowercase(symbol@)),
        r is Some <==> !old(symbols)@.contains(lowercase(symbol@)),
        r matches Some(s) ==> s@ == lowercase(symbol@),
{
    let lower = to_lowercase(symbol);
    if symbols.insert(lower.as_str()) {
        Some(lower)
    } else {
        None
    }
}

/// Why the strategies of a configuration cannot run together.
#[derive(Clone, Debug, PartialEq, Eq)]
pub enum StrategySetError {
    /// No strategy is configured.
    NoStrategies,
    /// Two strategies trade this symbol (in lower case).
    DuplicateSymbol(String),
}

/// The configured symbols in lower case, each once: refused when there are none, or when two
/// configurations name the same symbol up to case.
pub fn strategy_symbols(symbols: &Vec<String>) -> (r: Result<Vec<String>, StrategySetError>)
    ensures
        symbols.len() == 0 ==> r == Err::<Vec<String>, StrategySetError>(StrategySetError::NoStrategies),
        r matches Ok(v) ==> v.len() == symbols.len() && forall|i: int| 0 <= i < v.len() ==> (#[trigger] v@[i])@
            == lowercase(symbols@[i]@),
        r matches Ok(v) ==> forall|i: int, j: int| 0 <= i < j < v.len() ==> v@[i]@ != v@[j]@,
        r matches Err(StrategySetError::DuplicateSymbol(s)) ==> exists|i: int, j: int|
            0 <= i < j < symbols.len() && lowercase(symbols@[i]@) == lowercase(symbols@[j]@) && s@ == lowercase(
                symbols@[j]@,
            ),
        symbols.len() > 0 && (forall|i: int, j: int| 0 <= i < j < symbols.len() ==> lowercase(symbols@[i]@)
            != lowercase(symbols@[j]@)) ==> r is Ok,
{
    if symbols.len() == 0 {
        return Err(StrategySetError::NoStrategies);
    }
    let mut seen = TextSet::new();
    let mut out: Vec<String> = Vec::new();
    let mut i: usize = 0;
    while i < symbols.len()
        invariant
            i <= symbols.len(),
            seen.wf(),
            out.len() == i,
            forall|k: int| 0 <= k < i ==> (#[trigger] out@[k])@ == lowercase(symbols@[k]@),
            forall|a: int, b: int| 0 <= a < b < i ==> out@[a]@ != out@[b]@,
            forall|t: Seq<char>| seen@.contains(t) <==> exists|k: int| 0 <= k < i && #[trigger] out@[k]@ == t,
        decreases symbols.len() - i,
    {
        let lower = to_lowercase(symbols[i].as_str());
        if !seen.insert(lower.as_str()) {
            proof {
                let k = choose|k: int| 0 <= k < i && #[trigger] out@[k]@ == lower@;
                assert(lowercase(symbols@[k]@) == lowercase(symbols@[i as int]@));
            }
            return Err(StrategySetError::DuplicateSymbol(lower));
        }
        let ghost before = out@;
        out.push(lower);
        proof {
            assert forall|t: Seq<char>| seen@.contains(t) <==> exists|k: int| 0 <= k < i + 1 && #[trigger] out@[k]@ == t by {
                if seen@.contains(t) && t != out@[i as int]@ {
                    let k = choose|k: int| 0 <= k < i && #[trigger] before[k]@ == t;
                    assert(out@[k] == before[k]);
                }
                if exists|k: int| 0 <= k < i + 1 && #[trigger] out@[k]@ == t {
                    let k = choose|k: int| 0 <= k < i + 1 && #[trigger] out@[k]@ == t;
                    if k < i {
                        assert(out@[k] == before[k]);
                    }
                }
            }
            assert forall|a: int, b: int| 0 <= a < b < i + 1 implies out@[a]@ != out@[b]@ by {
                if b == i {
                    assert(out@[a] == before[a]);
                    assert(seen@.contains(before[a]@)) by {
                        assert(exists|k: int| 0 <= k < i + 1 && #[trigger] out@[k]@ == before[a]@);
                    }
                }
            }
        }
        i = i + 1;
    }
    Ok(out)
}

} // verus!
