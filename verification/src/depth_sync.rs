//! Joining a REST depth snapshot with the diff-depth stream of one symbol.
//!
//! Diffs that arrive before a snapshot are buffered. A snapshot is published only together with
//! a buffered diff that bridges its update id, followed by the diffs that continue that diff
//! without a gap; afterwards every diff must continue the previous one, or the symbol
//! resynchronizes from a new snapshot.
use vstd::prelude::*;

verus! {

/// The most diffs buffered for one symbol while its snapshot is awaited.
pub const MAX_PENDING_DEPTH_MESSAGES: usize = 4_096;

/// A diff-depth message: its update-id range, the last update id of the previous message, and
/// the levels it carries.
pub struct DepthUpdate<P> {
    /// `U`: the first update id in this message.
    pub first_update_id: i64,
    /// `u`: the last update id in this message.
    pub last_update_id: i64,
    /// `pu`: the last update id of the previous message.
    pub prev_update_id: i64,
    pub payload: P,
}

/// A diff bridges a snapshot when the snapshot's update id falls within the diff's range.
pub open spec fn bridges<P>(u: DepthUpdate<P>, snapshot_id: i64) -> bool {
    u.first_update_id <= snapshot_id && u.last_update_id >= snapshot_id
}

/// Every diff continues the one before it.
pub open spec fn chained<P>(s: Seq<DepthUpdate<P>>) -> bool {
    forall|k: int| 0 <= k < s.len() - 1 ==> (#[trigger] s[k + 1]).prev_update_id == s[k].last_update_id
}

/// The buffered diffs that are not older than the snapshot, in order.
pub open spec fn not_older<P>(s: Seq<DepthUpdate<P>>, snapshot_id: i64) -> Seq<DepthUpdate<P>>
    decreases s.len(),
{
    if s.len() == 0 {
        Seq::empty()
    } else {
        let rest = not_older(s.drop_last(), snapshot_id);
        if s.last().last_update_id >= snapshot_id {
            rest.push(s.last())
        } else {
            rest
        }
    }
}

pub open spec fn is_first_bridge<P>(s: Seq<DepthUpdate<P>>, snapshot_id: i64, i: int) -> bool {
    &&& 0 <= i < s.len()
    &&& bridges(s[i], snapshot_id)
    &&& forall|j: int| 0 <= j < i ==> !bridges(#[trigger] s[j], snapshot_id)
}

/// The position of the first diff that bridges the snapshot, if any.
pub open spec fn first_bridge<P>(s: Seq<DepthUpdate<P>>, snapshot_id: i64) -> Option<int> {
    if exists|i: int| is_first_bridge(s, snapshot_id, i) {
        Some(choose|i: int| is_first_bridge(s, snapshot_id, i))
    } else {
        None
    }
}

/// What the stream does with a diff.
pub enum UpdateOutcome<P> {
    /// The diff continues the published book: publish it.
    Emit(DepthUpdate<P>),
    /// The diff does not continue the published book: it is buffered alone and a new snapshot
    /// must be requested.
    Resync,
    /// No book is published yet: the diff is buffered; a snapshot is requested for the first one.
    Buffered { request_snapshot: bool },
    /// The buffer is full: the connection is abandoned.
    Overflow,
}

/// What the stream does with a snapshot.
pub enum SnapshotOutcome<P> {
    /// Publish the snapshot, then these diffs in order.
    Publish(Vec<DepthUpdate<P>>),
    /// No buffered diff bridges the snapshot; request another one when `retry`.
    Wait { retry: bool },
    /// The buffered diffs after the bridge have a gap: request another snapshot.
    Gap,
}

/// The synchronization state of one symbol.
pub struct DepthSync<P> {
    pending: Vec<DepthUpdate<P>>,
    prev_u: Option<i64>,
}

pub struct DepthSyncView<P> {
    /// The buffered diffs, oldest first.
    pub pending: Seq<DepthUpdate<P>>,
    /// The last update id published, once the book is synchronized.
    pub prev_u: Option<i64>,
}

impl<P> View for DepthSync<P> {
    type V = DepthSyncView<P>;

    closed spec fn view(&self) -> DepthSyncView<P> {
        DepthSyncView { pending: self.pending@, prev_u: self.prev_u }
    }
}

impl<P> DepthSync<P> {
    /// The buffer never holds more diffs than the bound.
    pub open spec fn bounded(self) -> bool {
        self@.pending.len() <= MAX_PENDING_DEPTH_MESSAGES
    }

    pub fn new() -> (r: Self)
        ensures
            r@.pending.len() == 0,
            r@.prev_u is None,
            r.bounded(),
    {
        DepthSync { pending: Vec::new(), prev_u: None }
    }

    /// Handles a diff of the symbol.
    pub fn on_update(&mut self, update: DepthUpdate<P>) -> (r: UpdateOutcome<P>)
        requires
            old(self).bounded(),
        ensures
            final(self).bounded(),
            ({
                let o = old(self)@;
                let n = final(self)@;
                match o.prev_u {
                    Some(p) => if update.prev_update_id == p {
                        r == UpdateOutcome::Emit(update) && n.prev_u == Some(update.last_update_id)
                            && n.pending == o.pending
                    } else {
                        r is Resync && n.prev_u is None && n.pending == seq![update]
                    },
                    None => if o.pending.len() >= MAX_PENDING_DEPTH_MESSAGES {
                        r is Overflow && n == o
                    } else {
                        r == (UpdateOutcome::<P>::Buffered { request_snapshot: o.pending.len() == 0 })
                            && n.prev_u is None && n.pending == o.pending.push(update)
                    },
                }
            }),
    {
        match self.prev_u {
            Some(p) => {
                if update.prev_update_id != p {
                    self.prev_u = None;
                    let mut fresh = Vec::new();
                    fresh.push(update);
                    self.pending = fresh;
                    assert(self.pending@ =~= seq![update]);
                    return UpdateOutcome::Resync;
                }
                self.prev_u = Some(update.last_update_id);
                UpdateOutcome::Emit(update)
            },
            None => {
                if self.pending.len() >= MAX_PENDING_DEPTH_MESSAGES {
                    return UpdateOutcome::Overflow;
                }
                let request_snapshot = self.pending.len() == 0;
                self.pending.push(update);
                UpdateOutcome::Buffered { request_snapshot }
            },
        }
    }

    /// Handles a REST snapshot whose last update id is `snapshot_id`.
    pub fn on_snapshot(&mut self, snapshot_id: i64) -> (r: SnapshotOutcome<P>)
        requires
            old(self).bounded(),
        ensures
            final(self).bounded(),
            ({
                let o = old(self)@;
                let n = final(self)@;
                let kept = not_older(o.pending, snapshot_id);
                match first_bridge(kept, snapshot_id) {
                    None => r == (SnapshotOutcome::<P>::Wait { retry: kept.len() > 0 }) && n.prev_u is None
                        && n.pending == kept,
                    Some(i) => if chained(kept.subrange(i, kept.len() as int)) {
                        r matches SnapshotOutcome::Publish(updates) && updates@ == kept.subrange(
                            i,
                            kept.len() as int,
                        ) && n.pending.len() == 0 && n.prev_u == Some(kept.last().last_update_id)
                    } else {
                        r is Gap && n.prev_u is None && n.pending == kept
                    },
                }
            }),
    {
        let mut old_pending: Vec<DepthUpdate<P>> = Vec::new();
        std::mem::swap(&mut old_pending, &mut self.pending);
        let ghost o = old_pending@;
        let mut kept: Vec<DepthUpdate<P>> = Vec::new();
        for u in it: old_pending.into_iter()
            invariant
                it.seq() == o,
                kept@ == not_older(o.take(it.index() as int), snapshot_id),
                kept@.len() <= it.index(),
        {
            let ghost idx = it.index() as int;
            proof {
                assert(o.take(idx + 1).drop_last() =~= o.take(idx));
                assert(o.take(idx + 1).last() == u);
            }
            if u.last_update_id >= snapshot_id {
                kept.push(u);
            }
        }
        assert(o.take(o.len() as int) =~= o);
        // find the first bridging diff
        let mut i: usize = 0;
        while i < kept.len() && !(kept[i].first_update_id <= snapshot_id && kept[i].last_update_id
            >= snapshot_id)
            invariant
                i <= kept.len(),
                forall|j: int| 0 <= j < i ==> !bridges(#[trigger] kept@[j], snapshot_id),
            decreases kept.len() - i,
        {
            i = i + 1;
        }
        if i == kept.len() {
            proof {
                assert forall|m: int| !is_first_bridge(kept@, snapshot_id, m) by {
                    if 0 <= m < kept@.len() {
                        assert(!bridges(kept@[m], snapshot_id));
                    }
                }
            }
            self.prev_u = None;
            let retry = kept.len() > 0;
            self.pending = kept;
            return SnapshotOutcome::Wait { retry };
        }
        proof {
            assert(is_first_bridge(kept@, snapshot_id, i as int));
            let c = choose|m: int| is_first_bridge(kept@, snapshot_id, m);
            if c < i {
                assert(!bridges(kept@[c], snapshot_id));
            } else if c > i {
                assert(bridges(kept@[i as int], snapshot_id));
            }
            assert(first_bridge(kept@, snapshot_id) == Some(i as int));
        }
        // check the continuity of the diffs from the bridge on
        let mut k: usize = i;
        while k + 1 < kept.len() && kept[k + 1].prev_update_id == kept[k].last_update_id
            invariant
                i <= k < kept.len(),
                forall|j: int| i <= j < k ==> (#[trigger] kept@[j + 1]).prev_update_id == kept@[j].last_update_id,
            decreases kept.len() - k,
        {
            k = k + 1;
        }
        let ghost tail = kept@.subrange(i as int, kept@.len() as int);
        if k + 1 < kept.len() {
            proof {
                let kk = (k - i) as int;
                assert(tail[kk + 1] == kept@[k + 1]);
                assert(tail[kk] == kept@[k as int]);
                assert(!chained(tail));
            }
            self.prev_u = None;
            self.pending = kept;
            return SnapshotOutcome::Gap;
        }
        proof {
            assert forall|j: int| 0 <= j < tail.len() - 1 implies (#[trigger] tail[j + 1]).prev_update_id
                == tail[j].last_update_id by {
                assert(tail[j + 1] == kept@[i + j + 1]);
                assert(tail[j] == kept@[i + j]);
            }
        }
        let last_u = kept[kept.len() - 1].last_update_id;
        let published = kept.split_off(i);
        self.prev_u = Some(last_u);
        SnapshotOutcome::Publish(published)
    }
}

/// Diffs published with a snapshot start at a diff that bridges the snapshot and continue one
/// another without a gap; the book then continues from the last of them.
pub proof fn published_diffs_continue_the_snapshot<P>(pending: Seq<DepthUpdate<P>>, snapshot_id: i64)
    requires
        first_bridge(not_older(pending, snapshot_id), snapshot_id) is Some,
    ensures
        ({
            let kept = not_older(pending, snapshot_id);
            let i = first_bridge(kept, snapshot_id)->0;
            &&& bridges(kept[i], snapshot_id)
            &&& forall|j: int| 0 <= j < kept.len() ==> (#[trigger] kept[j]).last_update_id >= snapshot_id
        }),
{
    let kept = not_older(pending, snapshot_id);
    let i = choose|i: int| is_first_bridge(kept, snapshot_id, i);
    lemma_not_older(pending, snapshot_id);
}

/// Every kept diff is at least as new as the snapshot.
pub proof fn lemma_not_older<P>(s: Seq<DepthUpdate<P>>, snapshot_id: i64)
    ensures
        forall|j: int| 0 <= j < not_older(s, snapshot_id).len() ==> (#[trigger] not_older(s, snapshot_id)[j]).last_update_id
            >= snapshot_id,
        not_older(s, snapshot_id).len() <= s.len(),
    decreases s.len(),
{
    if s.len() > 0 {
        lemma_not_older(s.drop_last(), snapshot_id);
    }
}

} // verus!
