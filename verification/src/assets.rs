//! Which account asset backs a symbol: the quote asset is the longest asset name that ends the
//! symbol (`usdt` for `dogeusdt`, `usdc` for `btcusdc`). Balances are floating point and are
//! carried through as they are.
use vstd::prelude::*;

verus! {

/// `asset` ends `symbol`.
pub open spec fn is_suffix(asset: Seq<char>, symbol: Seq<char>) -> bool {
    asset.len() <= symbol.len() && symbol.subrange(symbol.len() - asset.len(), symbol.len() as int) == asset
}

/// Entry `i` names an asset that ends `symbol`, and no such asset is longer.
pub open spec fn is_longest_suffix<T>(assets: Seq<(String, T)>, symbol: Seq<char>, i: int) -> bool {
    &&& 0 <= i < assets.len()
    &&& is_suffix(assets[i].0@, symbol)
    &&& forall|j: int| 0 <= j < assets.len() && is_suffix(#[trigger] assets[j].0@, symbol) ==> assets[j].0@.len()
        <= assets[i].0@.len()
}

/// No asset ends `symbol`.
pub open spec fn no_suffix<T>(assets: Seq<(String, T)>, symbol: Seq<char>) -> bool {
    forall|j: int| 0 <= j < assets.len() ==> !is_suffix(#[trigger] assets[j].0@, symbol)
}

fn ends_with(symbol: &Vec<char>, asset: &Vec<char>) -> (r: bool)
    ensures
        r == is_suffix(asset@, symbol@),
{
    if asset.len() > symbol.len() {
        return false;
    }
    let offset = symbol.len() - asset.len();
    let mut k: usize = 0;
    while k < asset.len()
        invariant
            k <= asset.len(),
            offset + asset.len() == symbol.len(),
            forall|m: int| 0 <= m < k ==> symbol@[offset + m] == asset@[m],
        decreases asset.len() - k,
    {
        if symbol[offset + k] != asset[k] {
            assert(symbol@.subrange(offset as int, symbol.len() as int)[k as int] != asset@[k as int]);
            return false;
        }
        k = k + 1;
    }
    assert(symbol@.subrange(offset as int, symbol.len() as int) =~= asset@);
    true
}

/// The entry of the asset that margins `symbol`: the longest asset name ending the symbol, the
/// last of equally long ones.
pub fn margin_asset<T>(assets: &Vec<(String, T)>, symbol: &str) -> (r: Option<usize>)
    ensures
        r is None <==> no_suffix(assets@, symbol@),
        r matches Some(i) ==> is_longest_suffix(assets@, symbol@, i as int) && forall|j: int|
            i < j < assets.len() && is_suffix(#[trigger] assets@[j].0@, symbol@) ==> assets@[j].0@.len()
                < assets@[i as int].0@.len(),
{
    let s = crate::text::chars_of(symbol);
    let mut best: Option<usize> = None;
    let mut i: usize = 0;
    while i < assets.len()
        invariant
            i <= assets.len(),
            s@ == symbol@,
            best is None <==> no_suffix(assets@.take(i as int), symbol@),
            best matches Some(b) ==> b < i && is_longest_suffix(assets@.take(i as int), symbol@, b as int) && forall|j: int|
                b < j < i && is_suffix(#[trigger] assets@[j].0@, symbol@) ==> assets@[j].0@.len() < assets@[b as int].0@.len(),
        decreases assets.len() - i,
    {
        let name = crate::text::chars_of(assets[i].0.as_str());
        let ghost prev = assets@.take(i as int);
        let ghost next = assets@.take(i + 1);
        assert(next =~= prev.push(assets@[i as int]));
        if ends_with(&s, &name) {
            let better = match best {
                None => true,
                Some(b) => {
                    let current = crate::text::chars_of(assets[b].0.as_str());
                    name.len() >= current.len()
                },
            };
            if better {
                best = Some(i);
            }
        }
        proof {
            match best {
                None => {
                    assert forall|j: int| 0 <= j < next.len() implies !is_suffix(#[trigger] next[j].0@, symbol@) by {
                        if j < i {
                            assert(next[j] == prev[j]);
                        }
                    }
                },
                Some(b) => {
                    assert(is_suffix(next[b as int].0@, symbol@));
                },
            }
        }
        i = i + 1;
    }
    assert(assets@.take(assets.len() as int) =~= assets@);
    best
}

/// A balance published for a symbol.
#[derive(Clone, Debug)]
pub struct BalanceEvent<T> {
    pub symbol: String,
    pub balance: T,
    pub exch_ts: i64,
}

/// Entry `i` is the first of the longest assets ending `symbol`.
pub open spec fn is_first_longest_suffix<T>(assets: Seq<(String, T)>, symbol: Seq<char>, i: int) -> bool {
    &&& is_longest_suffix(assets, symbol, i)
    &&& forall|j: int| 0 <= j < i && is_suffix(#[trigger] assets[j].0@, symbol) ==> assets[j].0@.len()
        < assets[i].0@.len()
}

/// The balance of each symbol that an asset ends, with the update's time: the symbols in order,
/// each with the balance of its longest quote asset.
pub fn balance_events<T: Copy>(symbols: &Vec<String>, balances: &Vec<(String, T)>, exch_ts: i64) -> (r: Vec<BalanceEvent<T>>)
    ensures
        r.len() <= symbols.len(),
        forall|t: int| 0 <= t < r.len() ==> (#[trigger] r@[t]).exch_ts == exch_ts && exists|s: int, i: int|
            0 <= s < symbols.len() && symbols@[s]@ == r@[t].symbol@ && is_first_longest_suffix(balances@, symbols@[s]@, i)
                && r@[t].balance == balances@[i].1,
        forall|s: int| 0 <= s < symbols.len() && !no_suffix(balances@, symbols@[s]@) ==> exists|t: int|
            0 <= t < r.len() && #[trigger] r@[t].symbol@ == symbols@[s]@,
{
    let mut out: Vec<BalanceEvent<T>> = Vec::new();
    let mut k: usize = 0;
    while k < symbols.len()
        invariant
            k <= symbols.len(),
            out.len() <= k,
            forall|t: int| 0 <= t < out.len() ==> (#[trigger] out@[t]).exch_ts == exch_ts && exists|s: int, i: int|
                0 <= s < symbols.len() && symbols@[s]@ == out@[t].symbol@ && is_first_longest_suffix(balances@, symbols@[s]@, i)
                    && out@[t].balance == balances@[i].1,
            forall|s: int| 0 <= s < k && !no_suffix(balances@, symbols@[s]@) ==> exists|t: int|
                0 <= t < out.len() && #[trigger] out@[t].symbol@ == symbols@[s]@,
        decreases symbols.len() - k,
    {
        let symbol = symbols[k].as_str();
        match first_longest_asset(balances, symbol) {
            Some(i) => {
                let ghost old_out = out@;
                out.push(BalanceEvent { symbol: symbols[k].clone(), balance: balances[i].1, exch_ts });
                proof {
                    assert(out@[old_out.len() as int].symbol@ == symbols@[k as int]@);
                    assert forall|s: int| 0 <= s < k + 1 && !no_suffix(balances@, symbols@[s]@) implies exists|t: int|
                        0 <= t < out.len() && #[trigger] out@[t].symbol@ == symbols@[s]@ by {
                        if s < k {
                            let t = choose|t: int| 0 <= t < old_out.len() && #[trigger] old_out[t].symbol@ == symbols@[s]@;
                            assert(out@[t] == old_out[t]);
                        } else {
                            assert(out@[old_out.len() as int].symbol@ == symbols@[s]@);
                        }
                    }
                    assert forall|t: int| 0 <= t < out.len() implies (#[trigger] out@[t]).exch_ts == exch_ts && exists|s: int, i2: int|
                        0 <= s < symbols.len() && symbols@[s]@ == out@[t].symbol@ && is_first_longest_suffix(balances@, symbols@[s]@, i2)
                            && out@[t].balance == balances@[i2].1 by {
                        if t < old_out.len() {
                            assert(out@[t] == old_out[t]);
                        } else {
                            assert(symbols@[k as int]@ == out@[t].symbol@);
                            assert(is_first_longest_suffix(balances@, symbols@[k as int]@, i as int));
                        }
                    }
                }
            },
            None => {},
        }
        k = k + 1;
    }
    out
}

/// The entry of the first longest asset ending `symbol`.
pub fn first_longest_asset<T>(assets: &Vec<(String, T)>, symbol: &str) -> (r: Option<usize>)
    ensures
        r is None <==> no_suffix(assets@, symbol@),
        r matches Some(i) ==> is_first_longest_suffix(assets@, symbol@, i as int),
{
    let s = crate::text::chars_of(symbol);
    let mut best: Option<usize> = None;
    let mut i: usize = 0;
    while i < assets.len()
        invariant
            i <= assets.len(),
            s@ == symbol@,
            best is None <==> no_suffix(assets@.take(i as int), symbol@),
            best matches Some(b) ==> b < i && is_first_longest_suffix(assets@.take(i as int), symbol@, b as int),
        decreases assets.len() - i,
    {
        let name = crate::text::chars_of(assets[i].0.as_str());
        let ghost prev = assets@.take(i as int);
        let ghost next = assets@.take(i + 1);
        assert(next =~= prev.push(assets@[i as int]));
        if ends_with(&s, &name) {
            let better = match best {
                None => true,
                Some(b) => {
                    let current = crate::text::chars_of(assets[b].0.as_str());
                    name.len() > current.len()
                },
            };
            if better {
                best = Some(i);
            }
        }
        proof {
            match best {
                None => {
                    assert forall|j: int| 0 <= j < next.len() implies !is_suffix(#[trigger] next[j].0@, symbol@) by {
                        if j < i {
                            assert(next[j] == prev[j]);
                        }
                    }
                },
                Some(b) => {
                    assert(is_suffix(next[b as int].0@, symbol@));
                },
            }
        }
        i = i + 1;
    }
    assert(assets@.take(assets.len() as int) =~= assets@);
    best
}

} // verus!
