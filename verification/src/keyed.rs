//! Small sets and maps keyed by text (symbols), kept as vectors without repeated keys.
use vstd::prelude::*;

use crate::text::str_equal;

verus! {

pub open spec fn key_at<V>(entries: Seq<(String, V)>, i: int) -> Seq<char> {
    entries[i].0@
}

pub open spec fn has_key<V>(entries: Seq<(String, V)>, k: Seq<char>) -> bool {
    exists|i: int| 0 <= i < entries.len() && key_at(entries, i) == k
}

pub open spec fn distinct_keys<V>(entries: Seq<(String, V)>) -> bool {
    forall|i: int, j: int|
        0 <= i < entries.len() && 0 <= j < entries.len() && i != j ==> key_at(entries, i)
            != key_at(entries, j)
}

pub open spec fn index_of<V>(entries: Seq<(String, V)>, k: Seq<char>) -> int {
    choose|i: int| 0 <= i < entries.len() && key_at(entries, i) == k
}

/// The map that the entries hold.
pub open spec fn map_of<V>(entries: Seq<(String, V)>) -> Map<Seq<char>, V> {
    Map::new(|k: Seq<char>| has_key(entries, k), |k: Seq<char>| entries[index_of(entries, k)].1)
}

pub proof fn lemma_index_of<V>(entries: Seq<(String, V)>, i: int)
    requires
        distinct_keys(entries),
        0 <= i < entries.len(),
    ensures
        has_key(entries, key_at(entries, i)),
        index_of(entries, key_at(entries, i)) == i,
{
    let k = key_at(entries, i);
    let j = index_of(entries, k);
    assert(0 <= j < entries.len() && key_at(entries, j) == k);
}

/// Replacing the value of entry `i`, key unchanged, updates the map at that key.
pub proof fn lemma_map_of_update<V>(before: Seq<(String, V)>, i: int, value: V)
    requires
        distinct_keys(before),
        0 <= i < before.len(),
    ensures
        distinct_keys(before.update(i, (before[i].0, value))),
        map_of(before.update(i, (before[i].0, value))) == map_of(before).insert(key_at(before, i), value),
{
    let after = before.update(i, (before[i].0, value));
    let key = key_at(before, i);
    assert(forall|j: int| 0 <= j < after.len() ==> key_at(after, j) == key_at(before, j));
    assert forall|k2: Seq<char>| has_key(after, k2) == has_key(before, k2) by {
        if has_key(before, k2) {
            let j = choose|j: int| 0 <= j < before.len() && key_at(before, j) == k2;
            assert(key_at(after, j) == k2);
        }
        if has_key(after, k2) {
            let j = choose|j: int| 0 <= j < after.len() && key_at(after, j) == k2;
            assert(key_at(before, j) == k2);
        }
    }
    lemma_index_of(before, i);
    assert(map_of(after) =~= map_of(before).insert(key, value)) by {
        assert forall|k2: Seq<char>| #[trigger] map_of(after).contains_key(k2)
            implies map_of(after)[k2] == map_of(before).insert(key, value)[k2] by {
            let j = choose|j: int| 0 <= j < before.len() && key_at(before, j) == k2;
            lemma_index_of(after, j);
            lemma_index_of(before, j);
        }
    }
}

/// Appending an entry with a new key adds it to the map.
pub proof fn lemma_map_of_push<V>(before: Seq<(String, V)>, entry: (String, V))
    requires
        distinct_keys(before),
        !has_key(before, entry.0@),
    ensures
        distinct_keys(before.push(entry)),
        map_of(before.push(entry)) == map_of(before).insert(entry.0@, entry.1),
{
    let after = before.push(entry);
    let n = before.len() as int;
    let key = entry.0@;
    assert(forall|j: int| 0 <= j < n ==> key_at(after, j) == key_at(before, j));
    assert(key_at(after, n) == key);
    assert(distinct_keys(after)) by {
        assert forall|a: int, b: int|
            0 <= a < after.len() && 0 <= b < after.len() && a != b implies key_at(after, a)
            != key_at(after, b) by {
            if a == n {
                assert(!has_key(before, key));
            } else if b == n {
                assert(!has_key(before, key));
            }
        }
    }
    assert forall|k2: Seq<char>| has_key(after, k2) == (has_key(before, k2) || k2 == key) by {
        if has_key(before, k2) {
            let j = choose|j: int| 0 <= j < before.len() && key_at(before, j) == k2;
            assert(key_at(after, j) == k2);
        }
        if k2 == key {
            assert(key_at(after, n) == k2);
        }
        if has_key(after, k2) {
            let j = choose|j: int| 0 <= j < after.len() && key_at(after, j) == k2;
            if j < n {
                assert(key_at(before, j) == k2);
            }
        }
    }
    assert(map_of(after) =~= map_of(before).insert(key, entry.1)) by {
        assert forall|k2: Seq<char>| #[trigger] map_of(after).contains_key(k2)
            implies map_of(after)[k2] == map_of(before).insert(key, entry.1)[k2] by {
            if k2 == key {
                lemma_index_of(after, n);
            } else {
                let j = choose|j: int| 0 <= j < before.len() && key_at(before, j) == k2;
                lemma_index_of(after, j);
                lemma_index_of(before, j);
            }
        }
    }
}

/// Removing entry `i` removes its key from the map.
pub proof fn lemma_map_of_remove<V>(before: Seq<(String, V)>, i: int)
    requires
        distinct_keys(before),
        0 <= i < before.len(),
    ensures
        distinct_keys(before.remove(i)),
        map_of(before.remove(i)) == map_of(before).remove(key_at(before, i)),
{
    let after = before.remove(i);
    let key = key_at(before, i);
    assert(forall|j: int| 0 <= j < i ==> key_at(after, j) == key_at(before, j));
    assert(forall|j: int| i <= j < after.len() ==> key_at(after, j) == key_at(before, j + 1));
    assert(distinct_keys(after)) by {
        assert forall|a: int, b: int|
            0 <= a < after.len() && 0 <= b < after.len() && a != b implies key_at(after, a)
            != key_at(after, b) by {
            let a2 = if a < i { a } else { a + 1 };
            let b2 = if b < i { b } else { b + 1 };
            assert(key_at(after, a) == key_at(before, a2));
            assert(key_at(after, b) == key_at(before, b2));
        }
    }
    assert forall|k2: Seq<char>| has_key(after, k2) == (has_key(before, k2) && k2 != key) by {
        if has_key(after, k2) {
            let j = choose|j: int| 0 <= j < after.len() && key_at(after, j) == k2;
            let j2 = if j < i { j } else { j + 1 };
            assert(key_at(before, j2) == k2);
            assert(j2 != i);
        }
        if has_key(before, k2) && k2 != key {
            let j = choose|j: int| 0 <= j < before.len() && key_at(before, j) == k2;
            assert(j != i);
            if j < i {
                assert(key_at(after, j) == k2);
            } else {
                assert(key_at(after, j - 1) == k2);
            }
        }
    }
    assert(map_of(after) =~= map_of(before).remove(key)) by {
        assert forall|k2: Seq<char>| #[trigger] map_of(after).contains_key(k2)
            implies map_of(after)[k2] == map_of(before).remove(key)[k2] by {
            let j = choose|j: int| 0 <= j < after.len() && key_at(after, j) == k2;
            let j2 = if j < i { j } else { j + 1 };
            lemma_index_of(after, j);
            lemma_index_of(before, j2);
        }
    }
}

/// The position of `key` among the entries, if present.
pub fn find_key<V>(entries: &Vec<(String, V)>, key: &str) -> (r: Option<usize>)
    requires
        distinct_keys(entries@),
    ensures
        r is None <==> !map_of(entries@).contains_key(key@),
        r matches Some(i) ==> i < entries.len() && key_at(entries@, i as int) == key@
            && index_of(entries@, key@) == i,
{
    let mut i: usize = 0;
    while i < entries.len()
        invariant
            i <= entries.len(),
            distinct_keys(entries@),
            forall|j: int| 0 <= j < i ==> key_at(entries@, j) != key@,
        decreases entries.len() - i,
    {
        if str_equal(entries[i].0.as_str(), key) {
            proof {
                lemma_index_of(entries@, i as int);
            }
            return Some(i);
        }
        i = i + 1;
    }
    None
}

/// A map from text keys to copyable values.
pub struct TextMap<V> {
    entries: Vec<(String, V)>,
}

impl<V: Copy> View for TextMap<V> {
    type V = Map<Seq<char>, V>;

    closed spec fn view(&self) -> Map<Seq<char>, V> {
        map_of(self.entries@)
    }
}

impl<V: Copy> TextMap<V> {
    pub closed spec fn wf(self) -> bool {
        distinct_keys(self.entries@)
    }

    pub fn new() -> (r: Self)
        ensures
            r.wf(),
            r@ == Map::<Seq<char>, V>::empty(),
    {
        let r = TextMap { entries: Vec::new() };
        assert(r@ =~= Map::<Seq<char>, V>::empty());
        r
    }

    fn find(&self, key: &str) -> (r: Option<usize>)
        requires
            self.wf(),
        ensures
            r is None <==> !self@.contains_key(key@),
            r matches Some(i) ==> i < self.entries.len() && key_at(self.entries@, i as int) == key@
                && index_of(self.entries@, key@) == i,
    {
        let mut i: usize = 0;
        while i < self.entries.len()
            invariant
                i <= self.entries.len(),
                distinct_keys(self.entries@),
                forall|j: int| 0 <= j < i ==> key_at(self.entries@, j) != key@,
            decreases self.entries.len() - i,
        {
            if str_equal(self.entries[i].0.as_str(), key) {
                proof {
                    lemma_index_of(self.entries@, i as int);
                }
                return Some(i);
            }
            i = i + 1;
        }
        None
    }

    pub fn contains_key(&self, key: &str) -> (r: bool)
        requires
            self.wf(),
        ensures
            r == self@.contains_key(key@),
    {
        self.find(key).is_some()
    }

    pub fn get(&self, key: &str) -> (r: Option<V>)
        requires
            self.wf(),
        ensures
            r == (if self@.contains_key(key@) {
                Some(self@[key@])
            } else {
                None
            }),
    {
        match self.find(key) {
            Some(i) => Some(self.entries[i].1),
            None => None,
        }
    }

    pub fn insert(&mut self, key: &str, value: V)
        requires
            old(self).wf(),
        ensures
            final(self).wf(),
            final(self)@ == old(self)@.insert(key@, value),
    {
        let ghost before = self.entries@;
        match self.find(key) {
            Some(i) => {
                let k = self.entries[i].0.clone();
                self.entries.set(i, (k, value));
                proof {
                    let after = self.entries@;
                    assert(forall|j: int| 0 <= j < after.len() ==> key_at(after, j) == key_at(before, j));
                    assert forall|k2: Seq<char>| has_key(after, k2) == has_key(before, k2) by {
                        if has_key(before, k2) {
                            let j = choose|j: int| 0 <= j < before.len() && key_at(before, j) == k2;
                            assert(key_at(after, j) == k2);
                        }
                        if has_key(after, k2) {
                            let j = choose|j: int| 0 <= j < after.len() && key_at(after, j) == k2;
                            assert(key_at(before, j) == k2);
                        }
                    }
                    assert(map_of(after) =~= map_of(before).insert(key@, value)) by {
                        assert forall|k2: Seq<char>| #[trigger] map_of(after).contains_key(k2)
                            implies map_of(after)[k2] == map_of(before).insert(key@, value)[k2] by {
                            let j = choose|j: int| 0 <= j < before.len() && key_at(before, j) == k2;
                            lemma_index_of(after, j);
                            lemma_index_of(before, j);
                        }
                    }
                }
            },
            None => {
                let k = key.to_owned();
                self.entries.push((k, value));
                proof {
                    let after = self.entries@;
                    let n = before.len() as int;
                    assert(forall|j: int| 0 <= j < n ==> key_at(after, j) == key_at(before, j));
                    assert(distinct_keys(after)) by {
                        assert forall|a: int, b: int|
                            0 <= a < after.len() && 0 <= b < after.len() && a != b implies key_at(after, a)
                            != key_at(after, b) by {
                            if a == n {
                                assert(!has_key(before, key@));
                            } else if b == n {
                                assert(!has_key(before, key@));
                            }
                        }
                    }
                    assert(map_of(after) =~= map_of(before).insert(key@, value)) by {
                        assert forall|k2: Seq<char>| has_key(after, k2) == (has_key(before, k2) || k2 == key@) by {
                            if has_key(before, k2) {
                                let j = choose|j: int| 0 <= j < before.len() && key_at(before, j) == k2;
                                assert(key_at(after, j) == k2);
                            }
                            if k2 == key@ {
                                assert(key_at(after, n) == k2);
                            }
                            if has_key(after, k2) {
                                let j = choose|j: int| 0 <= j < after.len() && key_at(after, j) == k2;
                                if j < n {
                                    assert(key_at(before, j) == k2);
                                }
                            }
                        }
                        assert forall|k2: Seq<char>| #[trigger] map_of(after).contains_key(k2)
                            implies map_of(after)[k2] == map_of(before).insert(key@, value)[k2] by {
                            if k2 == key@ {
                                lemma_index_of(after, n);
                            } else {
                                let j = choose|j: int| 0 <= j < before.len() && key_at(before, j) == k2;
                                lemma_index_of(after, j);
                                lemma_index_of(before, j);
                            }
                        }
                    }
                }
            },
        }
    }

    pub fn remove(&mut self, key: &str)
        requires
            old(self).wf(),
        ensures
            final(self).wf(),
            final(self)@ == old(self)@.remove(key@),
    {
        let ghost before = self.entries@;
        match self.find(key) {
            None => {
                assert(map_of(before) =~= map_of(before).remove(key@));
            },
            Some(i) => {
                self.entries.remove(i);
                proof {
                    let after = self.entries@;
                    let ii = i as int;
                    assert(forall|j: int| 0 <= j < ii ==> key_at(after, j) == key_at(before, j));
                    assert(forall|j: int| ii <= j < after.len() ==> key_at(after, j) == key_at(before, j + 1));
                    assert(distinct_keys(after)) by {
                        assert forall|a: int, b: int|
                            0 <= a < after.len() && 0 <= b < after.len() && a != b implies key_at(after, a)
                            != key_at(after, b) by {
                            let a2 = if a < ii { a } else { a + 1 };
                            let b2 = if b < ii { b } else { b + 1 };
                            assert(key_at(after, a) == key_at(before, a2));
                            assert(key_at(after, b) == key_at(before, b2));
                        }
                    }
                    assert forall|k2: Seq<char>| has_key(after, k2) == (has_key(before, k2) && k2 != key@) by {
                        if has_key(after, k2) {
                            let j = choose|j: int| 0 <= j < after.len() && key_at(after, j) == k2;
                            let j2 = if j < ii { j } else { j + 1 };
                            assert(key_at(before, j2) == k2);
                            assert(j2 != ii);
                        }
                        if has_key(before, k2) && k2 != key@ {
                            let j = choose|j: int| 0 <= j < before.len() && key_at(before, j) == k2;
                            assert(j != ii);
                            if j < ii {
                                assert(key_at(after, j) == k2);
                            } else {
                                assert(key_at(after, j - 1) == k2);
                            }
                        }
                    }
                    assert(map_of(after) =~= map_of(before).remove(key@)) by {
                        assert forall|k2: Seq<char>| #[trigger] map_of(after).contains_key(k2)
                            implies map_of(after)[k2] == map_of(before).remove(key@)[k2] by {
                            let j = choose|j: int| 0 <= j < after.len() && key_at(after, j) == k2;
                            let j2 = if j < ii { j } else { j + 1 };
                            lemma_index_of(after, j);
                            lemma_index_of(before, j2);
                        }
                    }
                }
            },
        }
    }

    pub fn clear(&mut self)
        ensures
            final(self).wf(),
            final(self)@ == Map::<Seq<char>, V>::empty(),
    {
        self.entries.clear();
        assert(self@ =~= Map::<Seq<char>, V>::empty());
    }
}

/// A set of texts.
pub struct TextSet {
    keys: TextMap<()>,
}

impl View for TextSet {
    type V = Set<Seq<char>>;

    closed spec fn view(&self) -> Set<Seq<char>> {
        self.keys@.dom()
    }
}

impl TextSet {
    pub closed spec fn wf(self) -> bool {
        self.keys.wf()
    }

    pub fn new() -> (r: Self)
        ensures
            r.wf(),
            r@ == Set::<Seq<char>>::empty(),
    {
        let r = TextSet { keys: TextMap::new() };
        assert(r@ =~= Set::<Seq<char>>::empty());
        r
    }

    pub fn contains(&self, key: &str) -> (r: bool)
        requires
            self.wf(),
        ensures
            r == self@.contains(key@),
    {
        self.keys.contains_key(key)
    }

    /// Adds `key`; returns whether it was new.
    pub fn insert(&mut self, key: &str) -> (r: bool)
        requires
            old(self).wf(),
        ensures
            final(self).wf(),
            final(self)@ == old(self)@.insert(key@),
            r == !old(self)@.contains(key@),
    {
        let had = self.keys.contains_key(key);
        self.keys.insert(key, ());
        assert(self@ =~= old(self)@.insert(key@));
        !had
    }

    pub fn remove(&mut self, key: &str)
        requires
            old(self).wf(),
        ensures
            final(self).wf(),
            final(self)@ == old(self)@.remove(key@),
    {
        self.keys.remove(key);
        assert(self@ =~= old(self)@.remove(key@));
    }

    pub fn clear(&mut self)
        ensures
            final(self).wf(),
            final(self)@ == Set::<Seq<char>>::empty(),
    {
        self.keys.clear();
        assert(self@ =~= Set::<Seq<char>>::empty());
    }
}

} // verus!
