//! Which market symbols a public stream connection still has to subscribe.
use vstd::prelude::*;
use std::collections::VecDeque;

verus! {

/// The texts of a sequence of strings.
pub open spec fn texts(v: Seq<String>) -> Seq<Seq<char>> {
    v.map_values(|s: String| s@)
}

/// The texts in the order in which they first occur, each once.
pub open spec fn first_occurrences(s: Seq<Seq<char>>) -> Seq<Seq<char>>
    decreases s.len(),
{
    if s.len() == 0 {
        Seq::empty()
    } else {
        let rest = first_occurrences(s.drop_last());
        if s.drop_last().contains(s.last()) {
            rest
        } else {
            rest.push(s.last())
        }
    }
}

/// Whether a string of `v` has the text `t`.
pub fn contains_text(v: &Vec<String>, t: &String) -> (r: bool)
    ensures
        r == texts(v@).contains(t@),
{
    let mut i: usize = 0;
    while i < v.len()
        invariant
            i <= v.len(),
            forall|j: int| 0 <= j < i ==> (#[trigger] v@[j])@ != t@,
        decreases v.len() - i,
    {
        if v[i] == *t {
            assert(texts(v@)[i as int] == t@);
            return true;
        }
        i = i + 1;
    }
    assert forall|j: int| 0 <= j < texts(v@).len() implies texts(v@)[j] != t@ by {
        assert(texts(v@)[j] == v@[j]@);
    }
    false
}

/// Tracks the symbols a stream connection subscribes: the registered symbols are replayed once
/// on a new connection, and a symbol registered later is accepted only if not yet subscribed.
pub struct SubscriptionTracker {
    pending: VecDeque<String>,
    subscribed: Vec<String>,
}

impl View for SubscriptionTracker {
    /// The symbols still to replay, in order, and the symbols already subscribed.
    type V = (Seq<Seq<char>>, Set<Seq<char>>);

    closed spec fn view(&self) -> (Seq<Seq<char>>, Set<Seq<char>>) {
        (texts(self.pending@), texts(self.subscribed@).to_set())
    }
}

impl SubscriptionTracker {
    /// Every symbol still to replay is already counted as subscribed, and none is listed twice.
    pub closed spec fn wf(self) -> bool {
        &&& forall|i: int|
            0 <= i < self.pending@.len() ==> texts(self.subscribed@).contains(
                #[trigger] texts(self.pending@)[i],
            )
        &&& texts(self.pending@).no_duplicates()
    }

    pub fn new(initial_symbols: Vec<String>) -> (r: Self)
        ensures
            r@.0 == first_occurrences(texts(initial_symbols@)),
            r@.1 == texts(initial_symbols@).to_set(),
            r.wf(),
    {
        let mut pending: VecDeque<String> = VecDeque::new();
        let mut subscribed: Vec<String> = Vec::new();
        let mut i: usize = 0;
        let ghost all = texts(initial_symbols@);
        while i < initial_symbols.len()
            invariant
                i <= initial_symbols.len(),
                all == texts(initial_symbols@),
                texts(pending@) == first_occurrences(all.take(i as int)),
                texts(subscribed@) == all.take(i as int),
                texts(pending@).no_duplicates(),
                forall|k: int| 0 <= k < pending@.len() ==> all.take(i as int).contains(
                    #[trigger] texts(pending@)[k],
                ),
                forall|t: Seq<char>| #[trigger]
                    all.take(i as int).contains(t) ==> texts(pending@).contains(t),
            decreases initial_symbols.len() - i,
        {
            let symbol = initial_symbols[i].clone();
            let ghost prev = all.take(i as int);
            let ghost next = all.take(i + 1);
            assert(next.drop_last() =~= prev);
            assert(next.last() == symbol@);
            let seen = contains_text(&subscribed, &symbol);
            let ghost old_pending = texts(pending@);
            if !seen {
                pending.push_back(symbol.clone());
                assert(texts(pending@) =~= old_pending.push(symbol@));
            }
            subscribed.push(symbol);
            assert(texts(subscribed@) =~= next);
            i = i + 1;
            proof {
                assert forall|k: int| 0 <= k < pending@.len() implies next.contains(
                    #[trigger] texts(pending@)[k],
                ) by {
                    if k < old_pending.len() {
                        assert(texts(pending@)[k] == old_pending[k]);
                        let w = choose|w: int| 0 <= w < prev.len() && prev[w] == old_pending[k];
                        assert(next[w] == prev[w]);
                    } else {
                        assert(next[next.len() - 1] == symbol@);
                    }
                }
                assert forall|t: Seq<char>| #[trigger] next.contains(t) implies texts(
                    pending@,
                ).contains(t) by {
                    let w = choose|w: int| 0 <= w < next.len() && next[w] == t;
                    if w < prev.len() {
                        assert(prev[w] == t);
                        assert(prev.contains(t));
                        let q = choose|q: int| 0 <= q < old_pending.len() && old_pending[q] == t;
                        assert(texts(pending@)[q] == t);
                    } else {
                        if seen {
                            assert(prev.contains(t));
                            let q = choose|q: int| 0 <= q < old_pending.len() && old_pending[q] == t;
                            assert(texts(pending@)[q] == t);
                        } else {
                            assert(texts(pending@)[old_pending.len() as int] == t);
                        }
                    }
                }
            }
        }
        assert(all.take(initial_symbols.len() as int) =~= all);
        proof {
            assert forall|k: int| 0 <= k < pending@.len() implies texts(subscribed@).contains(
                #[trigger] texts(pending@)[k],
            ) by {
                assert(all.take(i as int).contains(texts(pending@)[k]));
            }
        }
        SubscriptionTracker { pending, subscribed }
    }

    /// The next registered symbol to replay on this connection, if any.
    pub fn next_initial(&mut self) -> (r: Option<String>)
        requires
            old(self).wf(),
        ensures
            final(self).wf(),
            old(self)@.0.len() == 0 ==> r is None && final(self)@ == old(self)@,
            old(self)@.0.len() > 0 ==> (r matches Some(s) && s@ == old(self)@.0[0]),
            old(self)@.0.len() > 0 ==> final(self)@.0 == old(self)@.0.drop_first() && final(self)@.1 == old(self)@.1,
            r matches Some(s) ==> old(self)@.1.contains(s@),
    {
        let ghost before = texts(self.pending@);
        let r = self.pending.pop_front();
        proof {
            if before.len() > 0 {
                assert(texts(self.pending@) =~= before.drop_first());
                assert(texts(self.subscribed@).contains(before[0]));
            }
            assert forall|i: int| 0 <= i < self.pending@.len() implies texts(
                self.subscribed@,
            ).contains(#[trigger] texts(self.pending@)[i]) by {
                assert(texts(self.pending@)[i] == before[i + 1]);
            }
            assert(texts(self.pending@).no_duplicates()) by {
                assert forall|a: int, b: int|
                    0 <= a < b < texts(self.pending@).len() implies texts(self.pending@)[a]
                    != texts(self.pending@)[b] by {
                    assert(texts(self.pending@)[a] == before[a + 1]);
                    assert(texts(self.pending@)[b] == before[b + 1]);
                }
            }
        }
        r
    }

    /// Marks a symbol subscribed; returns whether it was new.
    pub fn accept(&mut self, symbol: String) -> (r: bool)
        requires
            old(self).wf(),
        ensures
            final(self).wf(),
            r == !old(self)@.1.contains(symbol@),
            final(self)@.1 == old(self)@.1.insert(symbol@),
            final(self)@.0 == old(self)@.0,
    {
        let ghost before = texts(self.subscribed@);
        let seen = contains_text(&self.subscribed, &symbol);
        if seen {
            proof {
                assert(before.to_set().contains(symbol@));
                assert(before.to_set().insert(symbol@) =~= before.to_set());
            }
            return false;
        }
        self.subscribed.push(symbol);
        proof {
            assert(texts(self.subscribed@) =~= before.push(symbol@));
            assert(before.push(symbol@).to_set() =~= before.to_set().insert(symbol@)) by {
                assert forall|t: Seq<char>| before.push(symbol@).to_set().contains(t) implies before.to_set().insert(symbol@).contains(t) by {
                    let w = choose|w: int| 0 <= w < before.push(symbol@).len() && before.push(symbol@)[w] == t;
                    if w < before.len() {
                        assert(before[w] == t);
                    }
                }
                assert forall|t: Seq<char>| before.to_set().insert(symbol@).contains(t) implies before.push(symbol@).to_set().contains(t) by {
                    if t == symbol@ {
                        assert(before.push(symbol@)[before.len() as int] == t);
                    } else {
                        let w = choose|w: int| 0 <= w < before.len() && before[w] == t;
                        assert(before.push(symbol@)[w] == t);
                    }
                }
            }
            assert forall|i: int| 0 <= i < self.pending@.len() implies texts(
                self.subscribed@,
            ).contains(#[trigger] texts(self.pending@)[i]) by {
                let w = choose|w: int| 0 <= w < before.len() && before[w] == texts(self.pending@)[i];
                assert(texts(self.subscribed@)[w] == before[w]);
            }
        }
        true
    }
}

/// Replaying registered symbols subscribes each distinct symbol exactly once, in the order of
/// its first registration.
pub proof fn replay_lists_each_symbol_once(s: Seq<Seq<char>>)
    ensures
        first_occurrences(s).no_duplicates(),
        first_occurrences(s).to_set() == s.to_set(),
    decreases s.len(),
{
    if s.len() > 0 {
        let init = s.drop_last();
        replay_lists_each_symbol_once(init);
        let rest = first_occurrences(init);
        assert(s =~= init.push(s.last()));
        if init.contains(s.last()) {
            assert(s.to_set() =~= init.to_set()) by {
                assert forall|t: Seq<char>| s.to_set().contains(t) implies init.to_set().contains(t) by {
                    let w = choose|w: int| 0 <= w < s.len() && s[w] == t;
                    if w < init.len() {
                        assert(init[w] == t);
                    }
                }
                assert forall|t: Seq<char>| init.to_set().contains(t) implies s.to_set().contains(t) by {
                    let w = choose|w: int| 0 <= w < init.len() && init[w] == t;
                    assert(s[w] == t);
                }
            }
        } else {
            let out = rest.push(s.last());
            assert(!rest.contains(s.last())) by {
                if rest.contains(s.last()) {
                    assert(rest.to_set().contains(s.last()));
                    assert(init.to_set().contains(s.last()));
                }
            }
            assert(out.no_duplicates()) by {
                assert forall|a: int, b: int| 0 <= a < b < out.len() implies out[a] != out[b] by {
                    if b == out.len() - 1 {
                        assert(out[a] == rest[a]);
                    }
                }
            }
            assert(out.to_set() =~= s.to_set()) by {
                assert forall|t: Seq<char>| out.to_set().contains(t) implies s.to_set().contains(t) by {
                    let w = choose|w: int| 0 <= w < out.len() && out[w] == t;
                    if w < rest.len() {
                        assert(rest.to_set().contains(t));
                        assert(init.to_set().contains(t));
                        let q = choose|q: int| 0 <= q < init.len() && init[q] == t;
                        assert(s[q] == t);
                    } else {
                        assert(s[s.len() - 1] == t);
                    }
                }
                assert forall|t: Seq<char>| s.to_set().contains(t) implies out.to_set().contains(t) by {
                    let w = choose|w: int| 0 <= w < s.len() && s[w] == t;
                    if w < init.len() {
                        assert(init[w] == t);
                        assert(init.to_set().contains(t));
                        assert(rest.to_set().contains(t));
                        let q = choose|q: int| 0 <= q < rest.len() && rest[q] == t;
                        assert(out[q] == t);
                    } else {
                        assert(out[rest.len() as int] == t);
                    }
                }
            }
        }
    } else {
        assert(s.to_set() =~= Set::empty());
        assert(first_occurrences(s).to_set() =~= Set::empty());
    }
}

} // verus!
