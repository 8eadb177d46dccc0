//! Tables keyed by (symbol, order id), kept as vectors without repeated keys.
use vstd::prelude::*;

use crate::id::SymbolOrderId;
use crate::text::str_equal;
use crate::types::OrderId;

verus! {

pub open spec fn id_key<V: View>(entries: Seq<(SymbolOrderId, V)>, i: int) -> (Seq<char>, u64) {
    (entries[i].0.symbol@, entries[i].0.order_id)
}

pub open spec fn id_has<V: View>(entries: Seq<(SymbolOrderId, V)>, k: (Seq<char>, u64)) -> bool {
    exists|i: int| 0 <= i < entries.len() && id_key(entries, i) == k
}

pub open spec fn ids_distinct<V: View>(entries: Seq<(SymbolOrderId, V)>) -> bool {
    forall|i: int, j: int|
        0 <= i < entries.len() && 0 <= j < entries.len() && i != j ==> id_key(entries, i) != id_key(
            entries,
            j,
        )
}

pub open spec fn id_index<V: View>(entries: Seq<(SymbolOrderId, V)>, k: (Seq<char>, u64)) -> int {
    choose|i: int| 0 <= i < entries.len() && id_key(entries, i) == k
}

pub open spec fn ids_map<V: View>(entries: Seq<(SymbolOrderId, V)>) -> Map<(Seq<char>, u64), V::V> {
    Map::new(|k: (Seq<char>, u64)| id_has(entries, k), |k: (Seq<char>, u64)| entries[id_index(entries, k)].1@)
}

pub proof fn lemma_id_index<V: View>(entries: Seq<(SymbolOrderId, V)>, i: int)
    requires
        ids_distinct(entries),
        0 <= i < entries.len(),
    ensures
        id_has(entries, id_key(entries, i)),
        id_index(entries, id_key(entries, i)) == i,
{
    let k = id_key(entries, i);
    let j = id_index(entries, k);
    assert(0 <= j < entries.len() && id_key(entries, j) == k);
}

pub proof fn lemma_ids_push<V: View>(before: Seq<(SymbolOrderId, V)>, entry: (SymbolOrderId, V))
    requires
        ids_distinct(before),
        !id_has(before, (entry.0.symbol@, entry.0.order_id)),
    ensures
        ids_distinct(before.push(entry)),
        ids_map(before.push(entry)) == ids_map(before).insert((entry.0.symbol@, entry.0.order_id), entry.1@),
{
    let after = before.push(entry);
    let n = before.len() as int;
    let key = (entry.0.symbol@, entry.0.order_id);
    assert(forall|j: int| 0 <= j < n ==> id_key(after, j) == id_key(before, j));
    assert(id_key(after, n) == key);
    assert(ids_distinct(after)) by {
        assert forall|a: int, b: int|
            0 <= a < after.len() && 0 <= b < after.len() && a != b implies id_key(after, a)
            != id_key(after, b) by {
            if a == n {
                assert(!id_has(before, key));
            } else if b == n {
                assert(!id_has(before, key));
            }
        }
    }
    assert forall|k2: (Seq<char>, u64)| id_has(after, k2) == (id_has(before, k2) || k2 == key) by {
        if id_has(before, k2) {
            let j = choose|j: int| 0 <= j < before.len() && id_key(before, j) == k2;
            assert(id_key(after, j) == k2);
        }
        if k2 == key {
            assert(id_key(after, n) == k2);
        }
        if id_has(after, k2) {
            let j = choose|j: int| 0 <= j < after.len() && id_key(after, j) == k2;
            if j < n {
                assert(id_key(before, j) == k2);
            }
        }
    }
    assert(ids_map(after) =~= ids_map(before).insert(key, entry.1@)) by {
        assert forall|k2: (Seq<char>, u64)| #[trigger] ids_map(after).contains_key(k2)
            implies ids_map(after)[k2] == ids_map(before).insert(key, entry.1@)[k2] by {
            if k2 == key {
                lemma_id_index(after, n);
            } else {
                let j = choose|j: int| 0 <= j < before.len() && id_key(before, j) == k2;
                lemma_id_index(after, j);
                lemma_id_index(before, j);
            }
        }
    }
}

pub proof fn lemma_ids_remove<V: View>(before: Seq<(SymbolOrderId, V)>, i: int)
    requires
        ids_distinct(before),
        0 <= i < before.len(),
    ensures
        ids_distinct(before.remove(i)),
        ids_map(before.remove(i)) == ids_map(before).remove(id_key(before, i)),
{
    let after = before.remove(i);
    let key = id_key(before, i);
    assert(forall|j: int| 0 <= j < i ==> id_key(after, j) == id_key(before, j));
    assert(forall|j: int| i <= j < after.len() ==> id_key(after, j) == id_key(before, j + 1));
    assert(ids_distinct(after)) by {
        assert forall|a: int, b: int|
            0 <= a < after.len() && 0 <= b < after.len() && a != b implies id_key(after, a)
            != id_key(after, b) by {
            let a2 = if a < i { a } else { a + 1 };
            let b2 = if b < i { b } else { b + 1 };
            assert(id_key(after, a) == id_key(before, a2));
            assert(id_key(after, b) == id_key(before, b2));
        }
    }
    assert forall|k2: (Seq<char>, u64)| id_has(after, k2) == (id_has(before, k2) && k2 != key) by {
        if id_has(after, k2) {
            let j = choose|j: int| 0 <= j < after.len() && id_key(after, j) == k2;
            let j2 = if j < i { j } else { j + 1 };
            assert(id_key(before, j2) == k2);
            assert(j2 != i);
        }
        if id_has(before, k2) && k2 != key {
            let j = choose|j: int| 0 <= j < before.len() && id_key(before, j) == k2;
            assert(j != i);
            if j < i {
                assert(id_key(after, j) == k2);
            } else {
                assert(id_key(after, j - 1) == k2);
            }
        }
    }
    assert(ids_map(after) =~= ids_map(before).remove(key)) by {
        assert forall|k2: (Seq<char>, u64)| #[trigger] ids_map(after).contains_key(k2)
            implies ids_map(after)[k2] == ids_map(before).remove(key)[k2] by {
            let j = choose|j: int| 0 <= j < after.len() && id_key(after, j) == k2;
            let j2 = if j < i { j } else { j + 1 };
            lemma_id_index(after, j);
            lemma_id_index(before, j2);
        }
    }
}

pub fn find_id<V: View>(entries: &Vec<(SymbolOrderId, V)>, symbol: &str, order_id: OrderId) -> (r: Option<usize>)
    requires
        ids_distinct(entries@),
    ensures
        r is None <==> !ids_map(entries@).contains_key((symbol@, order_id)),
        r matches Some(i) ==> i < entries.len() && id_key(entries@, i as int) == (symbol@, order_id)
            && ids_map(entries@)[(symbol@, order_id)] == entries@[i as int].1@,
{
    let mut i: usize = 0;
    while i < entries.len()
        invariant
            i <= entries.len(),
            ids_distinct(entries@),
            forall|j: int| 0 <= j < i ==> id_key(entries@, j) != (symbol@, order_id),
        decreases entries.len() - i,
    {
        if entries[i].0.order_id == order_id && str_equal(entries[i].0.symbol.as_str(), symbol) {
            proof {
                lemma_id_index(entries@, i as int);
            }
            return Some(i);
        }
        i = i + 1;
    }
    None
}

pub fn remove_id<V: View>(entries: &mut Vec<(SymbolOrderId, V)>, symbol: &str, order_id: OrderId)
    requires
        ids_distinct(old(entries)@),
    ensures
        ids_distinct(final(entries)@),
        ids_map(final(entries)@) == ids_map(old(entries)@).remove((symbol@, order_id)),
{
    match find_id(entries, symbol, order_id) {
        Some(i) => {
            proof {
                lemma_ids_remove(entries@, i as int);
            }
            entries.remove(i);
        },
        None => {
            assert(ids_map(entries@) =~= ids_map(entries@).remove((symbol@, order_id)));
        },
    }
}


/// Sets the value of `key` in the table, adding the key if it is new.
pub fn upsert_id<V: View>(entries: &mut Vec<(SymbolOrderId, V)>, key: SymbolOrderId, value: V)
    requires
        ids_distinct(old(entries)@),
    ensures
        ids_distinct(final(entries)@),
        ids_map(final(entries)@) == ids_map(old(entries)@).insert((key.symbol@, key.order_id), value@),
{
    remove_id(entries, key.symbol.as_str(), key.order_id);
    let ghost k = (key.symbol@, key.order_id);
    let ghost removed = entries@;
    assert(!id_has(removed, k)) by {
        if id_has(removed, k) {
            assert(ids_map(removed).contains_key(k));
        }
    }
    let entry = (key, value);
    proof {
        lemma_ids_push(removed, entry);
    }
    entries.push(entry);
    assert(ids_map(entries@) =~= ids_map(old(entries)@).insert(k, value@));
}

/// Keeps the entries of other symbols, and those of `symbol` whose order id is in `keep`.
pub open spec fn kept_for_symbol<T>(
    m: Map<(Seq<char>, u64), T>,
    symbol: Seq<char>,
    keep: Seq<u64>,
) -> Map<(Seq<char>, u64), T> {
    Map::new(|k: (Seq<char>, u64)| m.contains_key(k) && (k.0 != symbol || keep.contains(k.1)), |k: (Seq<char>, u64)| m[k])
}

fn u64s_contain(v: &Vec<u64>, x: u64) -> (r: bool)
    ensures
        r == v@.contains(x),
{
    let mut i: usize = 0;
    while i < v.len()
        invariant
            i <= v.len(),
            forall|j: int| 0 <= j < i ==> v@[j] != x,
        decreases v.len() - i,
    {
        if v[i] == x {
            return true;
        }
        i = i + 1;
    }
    false
}

/// Drops the entries of `symbol` whose order id is not in `keep`.
pub fn retain_for_symbol<V: View>(entries: &mut Vec<(SymbolOrderId, V)>, symbol: &str, keep: &Vec<u64>)
    requires
        ids_distinct(old(entries)@),
    ensures
        ids_distinct(final(entries)@),
        ids_map(final(entries)@) == kept_for_symbol(ids_map(old(entries)@), symbol@, keep@),
{
    let ghost before = entries@;
    let ghost old_map = ids_map(before);
    let mut rest: Vec<(SymbolOrderId, V)> = Vec::new();
    std::mem::swap(&mut rest, entries);
    let mut kept: Vec<(SymbolOrderId, V)> = Vec::new();
    while rest.len() > 0
        invariant
            rest@ == before.subrange(0, rest.len() as int),
            rest.len() <= before.len(),
            ids_distinct(before),
            old_map == ids_map(before),
            ids_distinct(kept@),
            forall|k: (Seq<char>, u64)| #[trigger] ids_map(kept@).contains_key(k) <==> (id_has(before, k)
                && id_index(before, k) >= rest.len() && (k.0 != symbol@ || keep@.contains(k.1))),
            forall|k: (Seq<char>, u64)| #[trigger] ids_map(kept@).contains_key(k) ==> ids_map(kept@)[k] == old_map[k],
        decreases rest.len(),
    {
        let ghost n = rest.len() as int;
        let ghost old_kept = kept@;
        let (key, value) = rest.pop().unwrap();
        let ghost k = (key.symbol@, key.order_id);
        proof {
            assert(before[n - 1] == (key, value));
            lemma_id_index(before, n - 1);
            assert(id_key(before, n - 1) == k);
            assert(old_map[k] == value@);
            assert forall|k2: (Seq<char>, u64)| (id_has(before, k2) && id_index(before, k2) >= n - 1) <==> ((id_has(before, k2)
                && id_index(before, k2) >= n) || k2 == k) by {
                if id_has(before, k2) && id_index(before, k2) == n - 1 {
                    assert(id_key(before, id_index(before, k2)) == k2);
                }
            }
        }
        let same_symbol = str_equal(key.symbol.as_str(), symbol);
        if !same_symbol || u64s_contain(keep, key.order_id) {
            proof {
                assert(!id_has(old_kept, k)) by {
                    if id_has(old_kept, k) {
                        assert(ids_map(old_kept).contains_key(k));
                    }
                }
                lemma_ids_push(old_kept, (key, value));
            }
            kept.push((key, value));
        }
    }
    proof {
        assert forall|k: (Seq<char>, u64)| (id_has(before, k) && id_index(before, k) >= 0) == old_map.contains_key(k) by {
            if id_has(before, k) {
                assert(id_key(before, id_index(before, k)) == k);
            }
        }
        assert(ids_map(kept@) =~= kept_for_symbol(old_map, symbol@, keep@));
    }
    *entries = kept;
}

} // verus!
