//! Decisions of the market-data collector: the combined stream it subscribes to and how it
//! paces its reconnections.
use vstd::prelude::*;

use crate::config::{replace_text, replaced};
use crate::market_stream::{lowercase, to_lowercase};
use crate::subscriptions::texts;
use crate::text::{chars_of, push_all, str_equal};

verus! {

/// The placeholder that a stream template writes for the symbol.
pub open spec fn symbol_placeholder() -> Seq<char> {
    "$symbol"@
}

/// The name of `stream` for `symbol`: each placeholder replaced by the symbol in lower case.
pub open spec fn stream_name(stream: Seq<char>, symbol: Seq<char>) -> Seq<char> {
    replaced(stream, symbol_placeholder(), lowercase(symbol))
}

/// The stream names of every symbol, symbol by symbol, each symbol's in the order of `streams`.
pub open spec fn stream_names(streams: Seq<Seq<char>>, symbols: Seq<Seq<char>>) -> Seq<Seq<char>>
    decreases symbols.len(),
{
    if symbols.len() == 0 {
        Seq::empty()
    } else {
        stream_names(streams, symbols.drop_last()) + streams.map_values(|s: Seq<char>| stream_name(s, symbols.last()))
    }
}

/// The texts with `sep` between each two.
pub open spec fn joined(parts: Seq<Seq<char>>, sep: Seq<char>) -> Seq<char>
    decreases parts.len(),
{
    if parts.len() == 0 {
        Seq::empty()
    } else if parts.len() == 1 {
        parts[0]
    } else {
        joined(parts.drop_last(), sep) + sep + parts.last()
    }
}

/// The stream names of the combined stream, joined with `/`.
pub fn combined_stream_names(streams: &Vec<String>, symbols: &Vec<String>) -> (r: String)
    ensures
        r@ == joined(stream_names(texts(streams@), texts(symbols@)), seq!['/']),
{
    let placeholder = chars_of("$symbol");
    proof {
        reveal_strlit("$symbol");
    }
    let ghost all_streams = texts(streams@);
    let mut names: Vec<Vec<char>> = Vec::new();
    let mut i: usize = 0;
    while i < symbols.len()
        invariant
            i <= symbols.len(),
            placeholder@ == symbol_placeholder(),
            placeholder@.len() > 0,
            all_streams == texts(streams@),
            names@.map_values(|v: Vec<char>| v@) == stream_names(all_streams, texts(symbols@).take(i as int)),
        decreases symbols.len() - i,
    {
        let lower = to_lowercase(symbols[i].as_str());
        let to = chars_of(lower.as_str());
        let ghost before = names@.map_values(|v: Vec<char>| v@);
        let ghost symbol = texts(symbols@)[i as int];
        assert(texts(symbols@).take(i + 1).drop_last() =~= texts(symbols@).take(i as int));
        assert(texts(symbols@).take(i + 1).last() == symbol);
        let mut j: usize = 0;
        while j < streams.len()
            invariant
                j <= streams.len(),
                i < symbols.len(),
                placeholder@ == symbol_placeholder(),
                placeholder@.len() > 0,
                all_streams == texts(streams@),
                symbol == symbols@[i as int]@,
                to@ == lowercase(symbol),
                names@.map_values(|v: Vec<char>| v@) == before + all_streams.take(j as int).map_values(|s: Seq<char>| stream_name(s, symbol)),
            decreases streams.len() - j,
        {
            let stream = chars_of(streams[j].as_str());
            let name = replace_text(&stream, &placeholder, &to);
            assert(all_streams[j as int] == streams@[j as int]@);
            assert(name@ == stream_name(all_streams[j as int], symbol));
            let ghost prev = names@;
            names.push(name);
            proof {
                let lhs = names@.map_values(|v: Vec<char>| v@);
                let old_lhs = prev.map_values(|v: Vec<char>| v@);
                let rhs = before + all_streams.take(j + 1).map_values(|s: Seq<char>| stream_name(s, symbol));
                let old_rhs = before + all_streams.take(j as int).map_values(|s: Seq<char>| stream_name(s, symbol));
                assert(old_lhs == old_rhs);
                assert(all_streams.len() == streams@.len());
                assert(old_lhs.len() == prev.len());
                assert(lhs.len() == prev.len() + 1);
                assert(lhs.len() == rhs.len());
                assert forall|idx: int| 0 <= idx < lhs.len() implies lhs[idx] == rhs[idx] by {
                    if idx < prev.len() {
                        assert(lhs[idx] == old_lhs[idx]);
                        assert(old_rhs[idx] == rhs[idx]);
                    } else {
                        assert(lhs[idx] == name@);
                    }
                }
                assert(lhs =~= rhs);
            }
            j = j + 1;
        }
        assert(all_streams.take(streams.len() as int) =~= all_streams);
        i = i + 1;
    }
    assert(texts(symbols@).take(symbols.len() as int) =~= texts(symbols@));
    let ghost parts = names@.map_values(|v: Vec<char>| v@);
    let mut out = String::new();
    let mut k: usize = 0;
    while k < names.len()
        invariant
            k <= names.len(),
            parts == names@.map_values(|v: Vec<char>| v@),
            out@ == joined(parts.take(k as int), seq!['/']),
        decreases names.len() - k,
    {
        assert(parts.take(k + 1).drop_last() =~= parts.take(k as int));
        if k > 0 {
            out.push('/');
        }
        push_all(&mut out, &names[k]);
        proof {
            if k == 0 {
                assert(out@ =~= parts.take(1)[0]);
            } else {
                assert(out@ =~= joined(parts.take(k as int), seq!['/']) + seq!['/'] + parts.take(k + 1).last());
            }
        }
        k = k + 1;
    }
    assert(parts.take(names.len() as int) =~= parts);
    out
}

/// What a connection failure does to the error count and how long the collector pauses: the
/// count grows by one, restarts from nothing after a connection that lasted more than thirty
/// seconds, and a pause of one second follows once it is past three (the longer pauses for
/// higher counts are never reached, since the first test already holds for them).
pub open spec fn after_connection_error(error_count: u64, lasted_past_reset: bool) -> (u64, u64) {
    let count: u64 = if lasted_past_reset { 0 } else { (error_count + 1) as u64 };
    let pause_ms: u64 = if count > 3 {
        1000
    } else if count > 10 {
        5000
    } else if count > 20 {
        10000
    } else {
        0
    };
    (count, pause_ms)
}

/// The error count after a connection failure and the pause in milliseconds before the next
/// attempt.
pub fn connection_error_pause(error_count: u64, lasted_past_reset: bool) -> (r: (u64, u64))
    requires
        error_count < u64::MAX,
    ensures
        r == after_connection_error(error_count, lasted_past_reset),
{
    let mut count = error_count + 1;
    if lasted_past_reset {
        count = 0;
    }
    let pause_ms = if count > 3 {
        1000
    } else if count > 10 {
        5000
    } else if count > 20 {
        10000
    } else {
        0
    };
    (count, pause_ms)
}


/// The symbols of the contracts (symbol, contract type) that are perpetual, in order.
pub open spec fn perpetual_symbols_of(contracts: Seq<(Seq<char>, Seq<char>)>) -> Seq<Seq<char>>
    decreases contracts.len(),
{
    if contracts.len() == 0 {
        Seq::empty()
    } else {
        let prev = perpetual_symbols_of(contracts.drop_last());
        if contracts.last().1 == "PERPETUAL"@ {
            prev.push(contracts.last().0)
        } else {
            prev
        }
    }
}

pub open spec fn contract_texts(contracts: Seq<(String, String)>) -> Seq<(Seq<char>, Seq<char>)> {
    contracts.map_values(|c: (String, String)| (c.0@, c.1@))
}

/// The symbols to collect from the exchange's list of (symbol, contract type): the perpetual
/// contracts, in the order listed.
pub fn perpetual_symbols(contracts: &Vec<(String, String)>) -> (r: Vec<String>)
    ensures
        texts(r@) == perpetual_symbols_of(contract_texts(contracts@)),
{
    let ghost all = contract_texts(contracts@);
    let mut out: Vec<String> = Vec::new();
    let mut i: usize = 0;
    while i < contracts.len()
        invariant
            i <= contracts.len(),
            all == contract_texts(contracts@),
            texts(out@) == perpetual_symbols_of(all.take(i as int)),
        decreases contracts.len() - i,
    {
        assert(all.take(i + 1).drop_last() =~= all.take(i as int));
        let ghost before = out@;
        if str_equal(contracts[i].1.as_str(), "PERPETUAL") {
            out.push(contracts[i].0.clone());
            assert(texts(out@) =~= texts(before).push(contracts@[i as int].0@));
        }
        i = i + 1;
    }
    assert(all.take(contracts.len() as int) =~= all);
    out
}

/// After failed depth snapshot attempt `attempt` (counted from one), the pause before the next
/// one, or `None` once five attempts have failed.
pub fn depth_snapshot_retry_ms(attempt: u32) -> (r: Option<u64>)
    ensures
        r == (if attempt < 5 { Some(1000u64) } else { None }),
{
    if attempt < 5 {
        Some(1000)
    } else {
        None
    }
}

} // verus!
