//! An L2 order book held in two hash maps from price tick to level, with no range limit.
//!
//! As in the vector book, the caller takes prices to ticks and quantities to lots; a level
//! whose quantity is not positive in lots is removed from its map.
use vstd::prelude::*;
use std::collections::HashMap;
use vstd::std_specs::iter::IteratorSpec;

use crate::roi_depth::{max_tick, min_tick, Level, SnapshotRow, INVALID_MAX, INVALID_MIN};
use crate::types::{Side, BUY_EVENT, DEPTH_SNAPSHOT_EVENT, EXCH_EVENT, LOCAL_EVENT, SELL_EVENT};

verus! {

broadcast use vstd::std_specs::hash::group_hash_axioms;

/// The map holds a positive level at tick `t`.
pub open spec fn positive_at<Q>(m: Map<i64, Level<Q>>, t: int) -> bool {
    m.contains_key(t as i64) && m[t as i64].positive
}

/// The highest tick in `[lo, hi)` with a positive level.
pub open spec fn highest_positive_tick<Q>(m: Map<i64, Level<Q>>, lo: int, hi: int) -> Option<int>
    decreases hi - lo,
{
    if hi <= lo {
        None
    } else if positive_at(m, hi - 1) {
        Some(hi - 1)
    } else {
        highest_positive_tick(m, lo, hi - 1)
    }
}

/// The lowest tick in `[lo, hi)` with a positive level.
pub open spec fn lowest_positive_tick<Q>(m: Map<i64, Level<Q>>, lo: int, hi: int) -> Option<int>
    decreases hi - lo,
{
    if hi <= lo {
        None
    } else if positive_at(m, lo) {
        Some(lo)
    } else {
        lowest_positive_tick(m, lo + 1, hi)
    }
}

/// The highest tick in `[end, start)` with a positive level, or `INVALID_MIN`.
pub open spec fn map_level_below<Q>(m: Map<i64, Level<Q>>, start: i64, end: i64) -> i64 {
    match highest_positive_tick(m, end as int, start as int) {
        Some(t) => t as i64,
        None => INVALID_MIN,
    }
}

/// The lowest tick in `(start, end]` with a positive level, or `INVALID_MAX`.
pub open spec fn map_level_above<Q>(m: Map<i64, Level<Q>>, start: i64, end: i64) -> i64 {
    match lowest_positive_tick(m, start + 1, end + 1) {
        Some(t) => t as i64,
        None => INVALID_MAX,
    }
}

proof fn lemma_highest_positive_tick<Q>(m: Map<i64, Level<Q>>, lo: int, hi: int)
    ensures
        highest_positive_tick(m, lo, hi) matches Some(t) ==> lo <= t < hi && positive_at(m, t),
    decreases hi - lo,
{
    if hi > lo && !positive_at(m, hi - 1) {
        lemma_highest_positive_tick(m, lo, hi - 1);
    }
}

proof fn lemma_lowest_positive_tick<Q>(m: Map<i64, Level<Q>>, lo: int, hi: int)
    ensures
        lowest_positive_tick(m, lo, hi) matches Some(t) ==> lo <= t < hi && positive_at(m, t),
    decreases hi - lo,
{
    if hi > lo && !positive_at(m, lo) {
        lemma_lowest_positive_tick(m, lo + 1, hi);
    }
}

/// A price tick that is not one of the sentinels' ends.
pub open spec fn is_price_tick(t: i64) -> bool {
    i64::MIN < t < i64::MAX
}

fn positive_level<Q: Copy>(depth: &HashMap<i64, Level<Q>>, tick: i64) -> (r: bool)
    ensures
        r == positive_at(depth@, tick as int),
{
    match depth.get(&tick) {
        Some(level) => level.positive,
        None => false,
    }
}

/// The highest tick in `[end, start)` with a positive level.
fn depth_below<Q: Copy>(depth: &HashMap<i64, Level<Q>>, start: i64, end: i64) -> (r: i64)
    ensures
        r == map_level_below(depth@, start, end),
        r == INVALID_MIN || end <= r < start,
{
    proof {
        lemma_highest_positive_tick(depth@, end as int, start as int);
    }
    let mut tick = start;
    while tick > end
        invariant
            tick <= start,
            tick == start || end <= tick,
            highest_positive_tick(depth@, end as int, tick as int) == highest_positive_tick(depth@, end as int, start as int),
        decreases tick - end,
    {
        if positive_level(depth, tick - 1) {
            return tick - 1;
        }
        tick = tick - 1;
    }
    INVALID_MIN
}

/// The lowest tick in `(start, end]` with a positive level.
fn depth_above<Q: Copy>(depth: &HashMap<i64, Level<Q>>, start: i64, end: i64) -> (r: i64)
    requires
        start < i64::MAX,
        end < i64::MAX,
    ensures
        r == map_level_above(depth@, start, end),
        r == INVALID_MAX || start < r <= end,
{
    proof {
        lemma_lowest_positive_tick(depth@, start + 1, end + 1);
    }
    let mut tick = start + 1;
    while tick <= end
        invariant
            start < tick,
            end < i64::MAX,
            tick <= end + 1 || tick == start + 1,
            lowest_positive_tick(depth@, tick as int, end + 1) == lowest_positive_tick(depth@, start + 1, end + 1),
        decreases end + 1 - tick,
    {
        if positive_level(depth, tick) {
            return tick;
        }
        tick = tick + 1;
    }
    INVALID_MAX
}


/// `m` without the keys in `[lo, hi]`.
pub open spec fn removed_between<Q>(m: Map<i64, Level<Q>>, lo: int, hi: int) -> Map<i64, Level<Q>> {
    Map::new(|k: i64| m.contains_key(k) && !(lo <= k <= hi), |k: i64| m[k])
}

/// What a hash map book holds, as mathematical values.
pub struct MapBookModel<Q> {
    pub bids: Map<i64, Level<Q>>,
    pub asks: Map<i64, Level<Q>>,
    pub best_bid: i64,
    pub best_ask: i64,
    pub low_bid: i64,
    pub high_ask: i64,
}

/// The model after one snapshot row is applied.
pub open spec fn apply_map_row<Q>(m: MapBookModel<Q>, row: SnapshotRow<Q>) -> MapBookModel<Q> {
    let t = row.price_tick;
    if row.ev & BUY_EVENT == BUY_EVENT {
        MapBookModel {
            bids: m.bids.insert(t, row.level),
            asks: m.asks,
            best_bid: max_tick(m.best_bid, t),
            best_ask: m.best_ask,
            low_bid: min_tick(m.low_bid, t),
            high_ask: m.high_ask,
        }
    } else if row.ev & SELL_EVENT == SELL_EVENT {
        MapBookModel {
            bids: m.bids,
            asks: m.asks.insert(t, row.level),
            best_bid: m.best_bid,
            best_ask: min_tick(m.best_ask, t),
            low_bid: m.low_bid,
            high_ask: max_tick(m.high_ask, t),
        }
    } else {
        m
    }
}

/// The model that a snapshot gives: an empty book with the rows applied in order.
pub open spec fn map_snapshot_model<Q>(rows: Seq<SnapshotRow<Q>>) -> MapBookModel<Q>
    decreases rows.len(),
{
    if rows.len() == 0 {
        MapBookModel {
            bids: Map::empty(),
            asks: Map::empty(),
            best_bid: INVALID_MIN,
            best_ask: INVALID_MAX,
            low_bid: INVALID_MAX,
            high_ask: INVALID_MIN,
        }
    } else {
        apply_map_row(map_snapshot_model(rows.drop_last()), rows.last())
    }
}

/// L2 market depth held in two hash maps from price tick to level.
pub struct HashMapMarketDepth<Q> {
    pub timestamp: i64,
    pub ask_depth: HashMap<i64, Level<Q>>,
    pub bid_depth: HashMap<i64, Level<Q>>,
    pub best_bid_tick: i64,
    pub best_ask_tick: i64,
    pub low_bid_tick: i64,
    pub high_ask_tick: i64,
    /// The quantity that a missing level reads as.
    pub zero: Q,
}

impl<Q: Copy> HashMapMarketDepth<Q> {
    /// The book's invariant: each tracked tick is its sentinel or a price tick.
    pub open spec fn wf(&self) -> bool {
        &&& self.best_bid_tick < i64::MAX
        &&& self.best_ask_tick > i64::MIN
        &&& self.low_bid_tick > i64::MIN
        &&& self.high_ask_tick < i64::MAX
    }

    pub open spec fn model(&self) -> MapBookModel<Q> {
        MapBookModel {
            bids: self.bid_depth@,
            asks: self.ask_depth@,
            best_bid: self.best_bid_tick,
            best_ask: self.best_ask_tick,
            low_bid: self.low_bid_tick,
            high_ask: self.high_ask_tick,
        }
    }

    /// The bid quantity at a tick, `zero` where there is no level.
    pub open spec fn bid_qty(&self, tick: i64) -> Q {
        if self.bid_depth@.contains_key(tick) { self.bid_depth@[tick].qty } else { self.zero }
    }

    /// The ask quantity at a tick, `zero` where there is no level.
    pub open spec fn ask_qty(&self, tick: i64) -> Q {
        if self.ask_depth@.contains_key(tick) { self.ask_depth@[tick].qty } else { self.zero }
    }

    /// Neither side of the book stands at or through the other.
    pub open spec fn uncrossed(&self) -> bool {
        self.best_bid_tick != INVALID_MIN && self.best_ask_tick != INVALID_MAX ==> self.best_bid_tick < self.best_ask_tick
    }

    /// An empty book, whose missing levels read as `zero`.
    pub fn new(zero: Q) -> (book: Self)
        ensures
            book.wf(),
            book.zero == zero,
            book.timestamp == 0,
            book.model() == map_snapshot_model(Seq::<SnapshotRow<Q>>::empty()),
    {
        HashMapMarketDepth {
            timestamp: 0,
            ask_depth: HashMap::new(),
            bid_depth: HashMap::new(),
            best_bid_tick: INVALID_MIN,
            best_ask_tick: INVALID_MAX,
            low_bid_tick: INVALID_MAX,
            high_ask_tick: INVALID_MIN,
            zero,
        }
    }

    pub fn best_bid_tick(&self) -> (r: i64)
        ensures
            r == self.best_bid_tick,
    {
        self.best_bid_tick
    }

    pub fn best_ask_tick(&self) -> (r: i64)
        ensures
            r == self.best_ask_tick,
    {
        self.best_ask_tick
    }

    /// The quantity at a bid tick.
    pub fn bid_qty_at_tick(&self, price_tick: i64) -> (r: Q)
        ensures
            r == self.bid_qty(price_tick),
    {
        match self.bid_depth.get(&price_tick) {
            Some(level) => level.qty,
            None => self.zero,
        }
    }

    /// The quantity at an ask tick.
    pub fn ask_qty_at_tick(&self, price_tick: i64) -> (r: Q)
        ensures
            r == self.ask_qty(price_tick),
    {
        match self.ask_depth.get(&price_tick) {
            Some(level) => level.qty,
            None => self.zero,
        }
    }

    /// The quantity at the best bid.
    pub fn best_bid_qty(&self) -> (r: Q)
        ensures
            r == self.bid_qty(self.best_bid_tick),
    {
        self.bid_qty_at_tick(self.best_bid_tick)
    }

    /// The quantity at the best ask.
    pub fn best_ask_qty(&self) -> (r: Q)
        ensures
            r == self.ask_qty(self.best_ask_tick),
    {
        self.ask_qty_at_tick(self.best_ask_tick)
    }

    /// What an update of the bid level at `price_tick` to `level` (`qty_lot` lots) at
    /// `timestamp` makes of the book `old`: a level of more than zero lots is written and any
    /// other removed; a level going to zero lots at the best bid moves the best bid down to the
    /// next positive level above the lowest bid; any other nonzero level above the best bid
    /// becomes the best bid, moving a crossed best ask up.
    pub open spec fn bid_update(
        old: Self,
        new: Self,
        price_tick: i64,
        qty_lot: i64,
        level: Level<Q>,
        timestamp: i64,
        r: (i64, i64, i64, Q, Q, i64),
    ) -> bool {
        &&& new.zero == old.zero
        &&& new.timestamp == timestamp
        &&& new.bid_depth@ == (if qty_lot > 0 { old.bid_depth@.insert(price_tick, level) } else { old.bid_depth@.remove(price_tick) })
        &&& new.ask_depth@ == old.ask_depth@
        &&& new.high_ask_tick == old.high_ask_tick
        &&& r == (price_tick, old.best_bid_tick, new.best_bid_tick, old.bid_qty(price_tick), level.qty, timestamp)
        &&& if qty_lot == 0 {
            &&& new.best_ask_tick == old.best_ask_tick
            &&& if price_tick == old.best_bid_tick {
                &&& new.best_bid_tick == map_level_below(new.bid_depth@, old.best_bid_tick, old.low_bid_tick)
                &&& new.low_bid_tick == (if new.best_bid_tick == INVALID_MIN { INVALID_MAX } else { old.low_bid_tick })
            } else {
                new.best_bid_tick == old.best_bid_tick && new.low_bid_tick == old.low_bid_tick
            }
        } else {
            &&& new.low_bid_tick == min_tick(old.low_bid_tick, price_tick)
            &&& if price_tick > old.best_bid_tick {
                &&& new.best_bid_tick == price_tick
                &&& new.best_ask_tick == (if price_tick >= old.best_ask_tick {
                    map_level_above(old.ask_depth@, price_tick, old.high_ask_tick)
                } else {
                    old.best_ask_tick
                })
            } else {
                new.best_bid_tick == old.best_bid_tick && new.best_ask_tick == old.best_ask_tick
            }
        }
    }

    /// The same for an update of the ask level at `price_tick`, with the sides mirrored.
    pub open spec fn ask_update(
        old: Self,
        new: Self,
        price_tick: i64,
        qty_lot: i64,
        level: Level<Q>,
        timestamp: i64,
        r: (i64, i64, i64, Q, Q, i64),
    ) -> bool {
        &&& new.zero == old.zero
        &&& new.timestamp == timestamp
        &&& new.ask_depth@ == (if qty_lot > 0 { old.ask_depth@.insert(price_tick, level) } else { old.ask_depth@.remove(price_tick) })
        &&& new.bid_depth@ == old.bid_depth@
        &&& new.low_bid_tick == old.low_bid_tick
        &&& r == (price_tick, old.best_ask_tick, new.best_ask_tick, old.ask_qty(price_tick), level.qty, timestamp)
        &&& if qty_lot == 0 {
            &&& new.best_bid_tick == old.best_bid_tick
            &&& if price_tick == old.best_ask_tick {
                &&& new.best_ask_tick == map_level_above(new.ask_depth@, old.best_ask_tick, old.high_ask_tick)
                &&& new.high_ask_tick == (if new.best_ask_tick == INVALID_MAX { INVALID_MIN } else { old.high_ask_tick })
            } else {
                new.best_ask_tick == old.best_ask_tick && new.high_ask_tick == old.high_ask_tick
            }
        } else {
            &&& new.high_ask_tick == max_tick(old.high_ask_tick, price_tick)
            &&& if price_tick < old.best_ask_tick {
                &&& new.best_ask_tick == price_tick
                &&& new.best_bid_tick == (if old.best_bid_tick >= price_tick {
                    map_level_below(old.bid_depth@, price_tick, old.low_bid_tick)
                } else {
                    old.best_bid_tick
                })
            } else {
                new.best_ask_tick == old.best_ask_tick && new.best_bid_tick == old.best_bid_tick
            }
        }
    }

    /// Sets or removes the bid level at `price_tick` (its quantity is `qty_lot` lots) and
    /// returns the tick, the best bid before and after, the quantity before and after, and the
    /// timestamp.
    pub fn update_bid_depth(&mut self, price_tick: i64, qty_lot: i64, level: Level<Q>, timestamp: i64) -> (r: (i64, i64, i64, Q, Q, i64))
        requires
            old(self).wf(),
            is_price_tick(price_tick),
        ensures
            final(self).wf(),
            Self::bid_update(*old(self), *final(self), price_tick, qty_lot, level, timestamp, r),
    {
        let prev_best_bid_tick = self.best_bid_tick;
        let prev_qty = self.bid_qty_at_tick(price_tick);
        if qty_lot > 0 {
            self.bid_depth.insert(price_tick, level);
        } else {
            self.bid_depth.remove(&price_tick);
        }
        if qty_lot == 0 {
            if price_tick == self.best_bid_tick {
                self.best_bid_tick = depth_below(&self.bid_depth, self.best_bid_tick, self.low_bid_tick);
                if self.best_bid_tick == INVALID_MIN {
                    self.low_bid_tick = INVALID_MAX;
                }
            }
        } else {
            if price_tick > self.best_bid_tick {
                self.best_bid_tick = price_tick;
                if self.best_bid_tick >= self.best_ask_tick {
                    self.best_ask_tick = depth_above(&self.ask_depth, self.best_bid_tick, self.high_ask_tick);
                }
            }
            if price_tick < self.low_bid_tick {
                self.low_bid_tick = price_tick;
            }
        }
        self.timestamp = timestamp;
        (price_tick, prev_best_bid_tick, self.best_bid_tick, prev_qty, level.qty, timestamp)
    }

    /// Sets or removes the ask level at `price_tick` (its quantity is `qty_lot` lots) and
    /// returns the tick, the best ask before and after, the quantity before and after, and the
    /// timestamp.
    pub fn update_ask_depth(&mut self, price_tick: i64, qty_lot: i64, level: Level<Q>, timestamp: i64) -> (r: (i64, i64, i64, Q, Q, i64))
        requires
            old(self).wf(),
            is_price_tick(price_tick),
        ensures
            final(self).wf(),
            Self::ask_update(*old(self), *final(self), price_tick, qty_lot, level, timestamp, r),
    {
        let prev_best_ask_tick = self.best_ask_tick;
        let prev_qty = self.ask_qty_at_tick(price_tick);
        if qty_lot > 0 {
            self.ask_depth.insert(price_tick, level);
        } else {
            self.ask_depth.remove(&price_tick);
        }
        if qty_lot == 0 {
            if price_tick == self.best_ask_tick {
                self.best_ask_tick = depth_above(&self.ask_depth, self.best_ask_tick, self.high_ask_tick);
                if self.best_ask_tick == INVALID_MAX {
                    self.high_ask_tick = INVALID_MIN;
                }
            }
        } else {
            if price_tick < self.best_ask_tick {
                self.best_ask_tick = price_tick;
                if self.best_bid_tick >= self.best_ask_tick {
                    self.best_bid_tick = depth_below(&self.bid_depth, self.best_ask_tick, self.low_bid_tick);
                }
            }
            if price_tick > self.high_ask_tick {
                self.high_ask_tick = price_tick;
            }
        }
        self.timestamp = timestamp;
        (price_tick, prev_best_ask_tick, self.best_ask_tick, prev_qty, level.qty, timestamp)
    }
}


impl<Q: Copy> HashMapMarketDepth<Q> {
    /// What clearing a side makes of the book `old`: with a tick to clear up to, the bid levels
    /// from that tick up to the best bid (or the ask levels from the best ask up to that tick)
    /// are removed and the best of that side is looked for again beyond it; without one, the
    /// side is emptied; with `NoSide`, the whole book is.
    pub open spec fn depth_cleared(old: Self, new: Self, side: Side, clear_upto: Option<i64>) -> bool {
        &&& new.zero == old.zero
        &&& new.timestamp == old.timestamp
        &&& match side {
            Side::Buy => {
                &&& new.ask_depth@ == old.ask_depth@
                &&& new.best_ask_tick == old.best_ask_tick
                &&& new.high_ask_tick == old.high_ask_tick
                &&& match clear_upto {
                    Some(c) => {
                        &&& new.bid_depth@ == (if old.best_bid_tick != INVALID_MIN {
                            removed_between(old.bid_depth@, c as int, old.best_bid_tick as int)
                        } else {
                            old.bid_depth@
                        })
                        &&& new.best_bid_tick == map_level_below(new.bid_depth@, (c - 1) as i64, old.low_bid_tick)
                    },
                    None => new.bid_depth@ == Map::<i64, Level<Q>>::empty() && new.best_bid_tick == INVALID_MIN,
                }
                &&& new.low_bid_tick == (if new.best_bid_tick == INVALID_MIN { INVALID_MAX } else { old.low_bid_tick })
            },
            Side::Sell => {
                &&& new.bid_depth@ == old.bid_depth@
                &&& new.best_bid_tick == old.best_bid_tick
                &&& new.low_bid_tick == old.low_bid_tick
                &&& match clear_upto {
                    Some(c) => {
                        &&& new.ask_depth@ == (if old.best_ask_tick != INVALID_MAX {
                            removed_between(old.ask_depth@, old.best_ask_tick as int, c as int)
                        } else {
                            old.ask_depth@
                        })
                        &&& new.best_ask_tick == map_level_above(new.ask_depth@, (c + 1) as i64, old.high_ask_tick)
                    },
                    None => new.ask_depth@ == Map::<i64, Level<Q>>::empty() && new.best_ask_tick == INVALID_MAX,
                }
                &&& new.high_ask_tick == (if new.best_ask_tick == INVALID_MAX { INVALID_MIN } else { old.high_ask_tick })
            },
            _ => new.model() == map_snapshot_model(Seq::<SnapshotRow<Q>>::empty()),
        }
    }

    /// Clears one side of the book, or both for `NoSide`; `clear_upto` is the tick to clear up
    /// to, or `None` where the price given was not finite.
    pub fn clear_depth(&mut self, side: Side, clear_upto: Option<i64>)
        requires
            old(self).wf(),
            side != Side::Unsupported,
            side == Side::Buy ==> (clear_upto matches Some(c) ==> c > i64::MIN),
            side == Side::Sell ==> (clear_upto matches Some(c) ==> c < i64::MAX - 1),
        ensures
            final(self).wf(),
            Self::depth_cleared(*old(self), *final(self), side, clear_upto),
    {
        match side {
            Side::Buy => {
                match clear_upto {
                    Some(c) => {
                        if self.best_bid_tick != INVALID_MIN {
                            remove_between(&mut self.bid_depth, c, self.best_bid_tick);
                        }
                        self.best_bid_tick = depth_below(&self.bid_depth, c - 1, self.low_bid_tick);
                    },
                    None => {
                        self.bid_depth.clear();
                        self.best_bid_tick = INVALID_MIN;
                    },
                }
                if self.best_bid_tick == INVALID_MIN {
                    self.low_bid_tick = INVALID_MAX;
                }
            },
            Side::Sell => {
                match clear_upto {
                    Some(c) => {
                        if self.best_ask_tick != INVALID_MAX {
                            remove_between(&mut self.ask_depth, self.best_ask_tick, c);
                        }
                        self.best_ask_tick = depth_above(&self.ask_depth, c + 1, self.high_ask_tick);
                    },
                    None => {
                        self.ask_depth.clear();
                        self.best_ask_tick = INVALID_MAX;
                    },
                }
                if self.best_ask_tick == INVALID_MAX {
                    self.high_ask_tick = INVALID_MIN;
                }
            },
            _ => {
                self.bid_depth.clear();
                self.ask_depth.clear();
                self.best_bid_tick = INVALID_MIN;
                self.best_ask_tick = INVALID_MAX;
                self.low_bid_tick = INVALID_MAX;
                self.high_ask_tick = INVALID_MIN;
            },
        }
    }

    /// Replaces the book with a snapshot: both sides emptied, then each row written to its
    /// side, with the best and outer ticks following the rows.
    pub fn apply_snapshot(&mut self, rows: &Vec<SnapshotRow<Q>>)
        requires
            old(self).wf(),
            forall|i: int| 0 <= i < rows.len() ==> is_price_tick(#[trigger] rows@[i].price_tick),
        ensures
            final(self).wf(),
            final(self).zero == old(self).zero && final(self).timestamp == old(self).timestamp,
            final(self).model() == map_snapshot_model(rows@),
    {
        self.best_bid_tick = INVALID_MIN;
        self.best_ask_tick = INVALID_MAX;
        self.low_bid_tick = INVALID_MAX;
        self.high_ask_tick = INVALID_MIN;
        self.bid_depth.clear();
        self.ask_depth.clear();
        let mut k: usize = 0;
        assert(rows@.take(0) =~= Seq::<SnapshotRow<Q>>::empty());
        while k < rows.len()
            invariant
                self.wf(),
                k <= rows.len(),
                forall|i: int| 0 <= i < rows.len() ==> is_price_tick(#[trigger] rows@[i].price_tick),
                self.zero == old(self).zero && self.timestamp == old(self).timestamp,
                self.model() == map_snapshot_model(rows@.take(k as int)),
            decreases rows.len() - k,
        {
            let row = rows[k];
            let ghost before = self.model();
            assert(rows@.take(k + 1).drop_last() =~= rows@.take(k as int));
            let t = row.price_tick;
            if row.ev & BUY_EVENT == BUY_EVENT {
                if t > self.best_bid_tick {
                    self.best_bid_tick = t;
                }
                if t < self.low_bid_tick {
                    self.low_bid_tick = t;
                }
                self.bid_depth.insert(t, row.level);
            } else if row.ev & SELL_EVENT == SELL_EVENT {
                if t < self.best_ask_tick {
                    self.best_ask_tick = t;
                }
                if t > self.high_ask_tick {
                    self.high_ask_tick = t;
                }
                self.ask_depth.insert(t, row.level);
            }
            assert(self.model() == apply_map_row(before, row));
            k = k + 1;
        }
        assert(rows@.take(rows.len() as int) =~= rows@);
    }
}

/// Removes the levels at the ticks `[lo, hi]`.
fn remove_between<Q: Copy>(depth: &mut HashMap<i64, Level<Q>>, lo: i64, hi: i64)
    requires
        hi < i64::MAX,
    ensures
        final(depth)@ == removed_between(old(depth)@, lo as int, hi as int),
{
    let mut tick = lo;
    assert(depth@ =~= removed_between(old(depth)@, lo as int, lo - 1));
    while tick <= hi
        invariant
            hi < i64::MAX,
            lo <= tick,
            tick <= hi + 1 || tick == lo,
            depth@ == removed_between(old(depth)@, lo as int, tick - 1),
        decreases hi + 1 - tick,
    {
        depth.remove(&tick);
        assert(depth@ =~= removed_between(old(depth)@, lo as int, tick as int));
        tick = tick + 1;
    }
    assert(depth@ =~= removed_between(old(depth)@, lo as int, hi as int));
}


/// Tick `a` comes before tick `b`: above it when listing bids, below it when listing asks.
pub open spec fn comes_before(a: i64, b: i64, descending: bool) -> bool {
    if descending { a > b } else { a < b }
}

/// Tick `k` is listed: at or below `bound` when listing bids, at or above it when listing asks.
pub open spec fn is_listed(k: i64, bound: i64, descending: bool) -> bool {
    if descending { k <= bound } else { k >= bound }
}

/// `rows` lists the levels of `m` on the listed side of `bound`, each once, in order of tick,
/// each row carrying the event flags `ev`.
pub open spec fn lists_side<Q>(rows: Seq<SnapshotRow<Q>>, m: Map<i64, Level<Q>>, bound: i64, descending: bool, ev: u64) -> bool {
    &&& forall|i: int| 0 <= i < rows.len() ==> {
        &&& (#[trigger] rows[i]).ev == ev
        &&& m.contains_key(rows[i].price_tick)
        &&& m[rows[i].price_tick] == rows[i].level
        &&& is_listed(rows[i].price_tick, bound, descending)
    }
    &&& forall|i: int, j: int| 0 <= i < j < rows.len() ==> comes_before(#[trigger] rows[i].price_tick, #[trigger] rows[j].price_tick, descending)
    &&& forall|k: i64| #[trigger] m.contains_key(k) && is_listed(k, bound, descending) ==> exists|i: int| 0 <= i < rows.len() && rows[i].price_tick == k
}

/// The event flags of a bid row of a snapshot.
pub open spec fn bid_snapshot_ev() -> u64 {
    EXCH_EVENT | LOCAL_EVENT | BUY_EVENT | DEPTH_SNAPSHOT_EVENT
}

/// The event flags of an ask row of a snapshot.
pub open spec fn ask_snapshot_ev() -> u64 {
    EXCH_EVENT | LOCAL_EVENT | SELL_EVENT | DEPTH_SNAPSHOT_EVENT
}

pub open spec fn strictly_ordered<Q>(s: Seq<(i64, Level<Q>)>, descending: bool) -> bool {
    forall|i: int, j: int| 0 <= i < j < s.len() ==> comes_before(#[trigger] s[i].0, #[trigger] s[j].0, descending)
}

/// Inserts `x` into the ordered `v` at its place.
fn insert_ordered<Q: Copy>(v: &mut Vec<(i64, Level<Q>)>, x: (i64, Level<Q>), descending: bool)
    requires
        strictly_ordered(old(v)@, descending),
        forall|i: int| 0 <= i < old(v).len() ==> (#[trigger] old(v)@[i]).0 != x.0,
    ensures
        strictly_ordered(final(v)@, descending),
        final(v)@.contains(x),
        forall|y: (i64, Level<Q>)| old(v)@.contains(y) ==> final(v)@.contains(y),
        forall|y: (i64, Level<Q>)| final(v)@.contains(y) ==> y == x || old(v)@.contains(y),
{
    let mut p: usize = 0;
    while p < v.len()
        invariant
            p <= v.len(),
            v@ == old(v)@,
            forall|i: int| 0 <= i < p ==> comes_before((#[trigger] v@[i]).0, x.0, descending),
        ensures
            p <= v.len(),
            v@ == old(v)@,
            forall|i: int| 0 <= i < p ==> comes_before((#[trigger] v@[i]).0, x.0, descending),
            p < v.len() ==> !comes_before(v@[p as int].0, x.0, descending),
        decreases v.len() - p,
    {
        let before = if descending { v[p].0 > x.0 } else { v[p].0 < x.0 };
        if !before {
            break;
        }
        p = p + 1;
    }
    proof {
        assert forall|i: int| p <= i < v.len() implies comes_before(x.0, (#[trigger] v@[i]).0, descending) by {
            if i > p {
                assert(comes_before(v@[p as int].0, v@[i].0, descending));
            }
            assert(v@[i].0 != x.0);
        }
    }
    let ghost old_v = v@;
    v.insert(p, x);
    proof {
        assert(v@ == old_v.insert(p as int, x));
        assert(v@[p as int] == x);
        assert forall|y: (i64, Level<Q>)| old_v.contains(y) implies v@.contains(y) by {
            let j = choose|j: int| 0 <= j < old_v.len() && old_v[j] == y;
            if j < p {
                assert(v@[j] == y);
            } else {
                assert(v@[j + 1] == y);
            }
        }
        assert forall|y: (i64, Level<Q>)| v@.contains(y) implies y == x || old_v.contains(y) by {
            let j = choose|j: int| 0 <= j < v@.len() && v@[j] == y;
            if j < p {
                assert(old_v[j] == y);
            } else if j > p {
                assert(old_v[j - 1] == y);
            }
        }
        assert forall|i: int, j: int| 0 <= i < j < v@.len() implies comes_before(#[trigger] v@[i].0, #[trigger] v@[j].0, descending) by {
            if j < p {
                assert(comes_before(old_v[i].0, old_v[j].0, descending));
            } else if i < p && j == p {
            } else if i < p && j > p {
                assert(comes_before(old_v[i].0, old_v[j - 1].0, descending));
            } else if i == p {
                assert(comes_before(x.0, old_v[j - 1].0, descending));
            } else {
                assert(comes_before(old_v[i - 1].0, old_v[j - 1].0, descending));
            }
        }
    }
}

/// The levels of `m` on the listed side of `bound`, ordered by tick.
fn ordered_levels<Q: Copy>(m: &HashMap<i64, Level<Q>>, bound: i64, descending: bool) -> (v: Vec<(i64, Level<Q>)>)
    ensures
        strictly_ordered(v@, descending),
        forall|i: int| 0 <= i < v.len() ==> {
            &&& m@.contains_key((#[trigger] v@[i]).0)
            &&& m@[v@[i].0] == v@[i].1
            &&& is_listed(v@[i].0, bound, descending)
        },
        forall|k: i64| #[trigger] m@.contains_key(k) && is_listed(k, bound, descending) ==> v@.contains((k, m@[k])),
{
    let ghost all = vstd::std_specs::hash::spec_hash_map_iter(m).remaining();
    let iter = m.iter();
    assert(all.no_duplicates());
    let mut v: Vec<(i64, Level<Q>)> = Vec::new();
    for (k, level) in it: iter
        invariant
            it.seq() == all,
            all.no_duplicates(),
            forall|i: int| 0 <= i < all.len() ==> m@.contains_key(*(#[trigger] all[i]).0) && m@[*all[i].0] == *all[i].1,
            strictly_ordered(v@, descending),
            forall|y: (i64, Level<Q>)| #[trigger] v@.contains(y) ==> exists|j: int| 0 <= j < it.index() && *all[j].0 == y.0 && *all[j].1 == y.1,
            forall|j: int| 0 <= j < it.index() && is_listed(*(#[trigger] all[j]).0, bound, descending) ==> v@.contains((*all[j].0, *all[j].1)),
            forall|y: (i64, Level<Q>)| #[trigger] v@.contains(y) ==> is_listed(y.0, bound, descending),
        ensures
            forall|j: int| 0 <= j < all.len() && is_listed(*(#[trigger] all[j]).0, bound, descending) ==> v@.contains((*all[j].0, *all[j].1)),
            strictly_ordered(v@, descending),
            forall|y: (i64, Level<Q>)| #[trigger] v@.contains(y) ==> m@.contains_key(y.0) && m@[y.0] == y.1 && is_listed(y.0, bound, descending),
    {
        let ghost idx = it.index();
        if is_listed_tick(*k, bound, descending) {
            let x = (*k, *level);
            proof {
                assert forall|i: int| 0 <= i < v.len() implies (#[trigger] v@[i]).0 != x.0 by {
                    assert(v@.contains(v@[i]));
                    let j = choose|j: int| 0 <= j < idx && *all[j].0 == v@[i].0 && *all[j].1 == v@[i].1;
                    if v@[i].0 == x.0 {
                        assert(all[j] == all[idx]);
                    }
                }
            }
            insert_ordered(&mut v, x, descending);
        }
    }
    proof {
        assert forall|i: int| 0 <= i < v.len() implies {
            &&& m@.contains_key((#[trigger] v@[i]).0)
            &&& m@[v@[i].0] == v@[i].1
            &&& is_listed(v@[i].0, bound, descending)
        } by {
            assert(v@.contains(v@[i]));
        }
        assert forall|k: i64| #[trigger] m@.contains_key(k) && is_listed(k, bound, descending) implies v@.contains((k, m@[k])) by {
            assert(all.contains((&k, &m@[k])));
            let j = choose|j: int| 0 <= j < all.len() && all[j] == (&k, &m@[k]);
            assert(is_listed(*all[j].0, bound, descending));
        }
    }
    v
}

fn is_listed_tick(k: i64, bound: i64, descending: bool) -> (r: bool)
    ensures
        r == is_listed(k, bound, descending),
{
    if descending { k <= bound } else { k >= bound }
}


/// The snapshot rows of ordered levels, each carrying the event flags `ev`.
fn side_rows<Q: Copy>(levels: &Vec<(i64, Level<Q>)>, ev: u64, rows: &mut Vec<SnapshotRow<Q>>)
    ensures
        final(rows)@.len() == old(rows)@.len() + levels.len(),
        final(rows)@.subrange(0, old(rows)@.len() as int) == old(rows)@,
        forall|i: int| 0 <= i < levels.len() ==> #[trigger] final(rows)@[old(rows)@.len() + i] == (SnapshotRow { ev, price_tick: levels@[i].0, level: levels@[i].1 }),
{
    let ghost start = rows@.len();
    let mut i: usize = 0;
    while i < levels.len()
        invariant
            i <= levels.len(),
            rows@.len() == start + i,
            start == old(rows)@.len(),
            rows@.subrange(0, start as int) == old(rows)@,
            forall|j: int| 0 <= j < i ==> #[trigger] rows@[start + j] == (SnapshotRow { ev, price_tick: levels@[j].0, level: levels@[j].1 }),
        decreases levels.len() - i,
    {
        let (price_tick, level) = levels[i];
        rows.push(SnapshotRow { ev, price_tick, level });
        assert(rows@.subrange(0, start as int) =~= old(rows)@);
        i = i + 1;
    }
}

proof fn lemma_rows_list_side<Q>(
    rows: Seq<SnapshotRow<Q>>,
    levels: Seq<(i64, Level<Q>)>,
    m: Map<i64, Level<Q>>,
    bound: i64,
    descending: bool,
    ev: u64,
)
    requires
        rows.len() == levels.len(),
        forall|i: int| 0 <= i < levels.len() ==> #[trigger] rows[i] == (SnapshotRow { ev, price_tick: levels[i].0, level: levels[i].1 }),
        strictly_ordered(levels, descending),
        forall|i: int| 0 <= i < levels.len() ==> {
            &&& m.contains_key((#[trigger] levels[i]).0)
            &&& m[levels[i].0] == levels[i].1
            &&& is_listed(levels[i].0, bound, descending)
        },
        forall|k: i64| #[trigger] m.contains_key(k) && is_listed(k, bound, descending) ==> levels.contains((k, m[k])),
    ensures
        lists_side(rows, m, bound, descending, ev),
{
    assert forall|i: int| 0 <= i < rows.len() implies {
        &&& (#[trigger] rows[i]).ev == ev
        &&& m.contains_key(rows[i].price_tick)
        &&& m[rows[i].price_tick] == rows[i].level
        &&& is_listed(rows[i].price_tick, bound, descending)
    } by {
        assert(m.contains_key(levels[i].0));
    }
    assert forall|i: int, j: int| 0 <= i < j < rows.len() implies comes_before(#[trigger] rows[i].price_tick, #[trigger] rows[j].price_tick, descending) by {
        assert(rows[i] == (SnapshotRow { ev, price_tick: levels[i].0, level: levels[i].1 }));
        assert(rows[j] == (SnapshotRow { ev, price_tick: levels[j].0, level: levels[j].1 }));
        assert(comes_before(levels[i].0, levels[j].0, descending));
    }
    assert forall|k: i64| #[trigger] m.contains_key(k) && is_listed(k, bound, descending) implies exists|i: int| 0 <= i < rows.len() && rows[i].price_tick == k by {
        let i = choose|i: int| 0 <= i < levels.len() && levels[i] == (k, m[k]);
        assert(rows[i] == (SnapshotRow { ev, price_tick: levels[i].0, level: levels[i].1 }));
    }
}

impl<Q: Copy> HashMapMarketDepth<Q> {
    /// The book as snapshot rows: the bids at or below the best bid from the highest down,
    /// then the asks at or above the best ask from the lowest up.
    pub fn snapshot(&self) -> (rows: Vec<SnapshotRow<Q>>)
        ensures
            exists|n: int| {
                &&& 0 <= n <= rows.len()
                &&& lists_side(rows@.subrange(0, n), self.bid_depth@, self.best_bid_tick, true, bid_snapshot_ev())
                &&& lists_side(rows@.subrange(n, rows.len() as int), self.ask_depth@, self.best_ask_tick, false, ask_snapshot_ev())
            },
    {
        let bids = ordered_levels(&self.bid_depth, self.best_bid_tick, true);
        let asks = ordered_levels(&self.ask_depth, self.best_ask_tick, false);
        let mut rows: Vec<SnapshotRow<Q>> = Vec::new();
        side_rows(&bids, EXCH_EVENT | LOCAL_EVENT | BUY_EVENT | DEPTH_SNAPSHOT_EVENT, &mut rows);
        let ghost after_bids = rows@;
        side_rows(&asks, EXCH_EVENT | LOCAL_EVENT | SELL_EVENT | DEPTH_SNAPSHOT_EVENT, &mut rows);
        proof {
            let n = bids.len() as int;
            let bid_part = rows@.subrange(0, n);
            let ask_part = rows@.subrange(n, rows@.len() as int);
            assert(bid_part == after_bids);
            assert forall|i: int| 0 <= i < bids.len() implies #[trigger] bid_part[i] == (SnapshotRow { ev: bid_snapshot_ev(), price_tick: bids@[i].0, level: bids@[i].1 }) by {
                assert(after_bids[0 + i] == bid_part[i]);
            }
            lemma_rows_list_side(bid_part, bids@, self.bid_depth@, self.best_bid_tick, true, bid_snapshot_ev());
            assert forall|i: int| 0 <= i < asks.len() implies #[trigger] ask_part[i] == (SnapshotRow { ev: ask_snapshot_ev(), price_tick: asks@[i].0, level: asks@[i].1 }) by {
                assert(rows@[n + i] == ask_part[i]);
            }
            lemma_rows_list_side(ask_part, asks@, self.ask_depth@, self.best_ask_tick, false, ask_snapshot_ev());
        }
        rows
    }
}


/// An update of a bid level leaves an uncrossed book uncrossed: a best bid that goes away is
/// replaced by a lower one, and a new best bid at or above the best ask moves the best ask above
/// it.
pub proof fn bid_update_keeps_book_uncrossed<Q: Copy>(
    old: HashMapMarketDepth<Q>,
    new: HashMapMarketDepth<Q>,
    price_tick: i64,
    qty_lot: i64,
    level: Level<Q>,
    timestamp: i64,
    r: (i64, i64, i64, Q, Q, i64),
)
    requires
        old.wf(),
        old.uncrossed(),
        is_price_tick(price_tick),
        HashMapMarketDepth::bid_update(old, new, price_tick, qty_lot, level, timestamp, r),
    ensures
        new.uncrossed(),
{
    lemma_highest_positive_tick(new.bid_depth@, old.low_bid_tick as int, old.best_bid_tick as int);
    lemma_lowest_positive_tick(old.ask_depth@, price_tick + 1, old.high_ask_tick + 1);
}

/// An update of an ask level leaves an uncrossed book uncrossed, as for the bids.
pub proof fn ask_update_keeps_book_uncrossed<Q: Copy>(
    old: HashMapMarketDepth<Q>,
    new: HashMapMarketDepth<Q>,
    price_tick: i64,
    qty_lot: i64,
    level: Level<Q>,
    timestamp: i64,
    r: (i64, i64, i64, Q, Q, i64),
)
    requires
        old.wf(),
        old.uncrossed(),
        is_price_tick(price_tick),
        HashMapMarketDepth::ask_update(old, new, price_tick, qty_lot, level, timestamp, r),
    ensures
        new.uncrossed(),
{
    lemma_lowest_positive_tick(new.ask_depth@, old.best_ask_tick + 1, old.high_ask_tick + 1);
    lemma_highest_positive_tick(old.bid_depth@, old.low_bid_tick as int, price_tick as int);
}

/// The best levels are real: a best bid or ask that is not its sentinel stands on a positive
/// level, and the book is uncrossed.
pub open spec fn book_sound<Q>(b: HashMapMarketDepth<Q>) -> bool {
    &&& b.best_bid_tick < i64::MAX
    &&& b.best_ask_tick > i64::MIN
    &&& b.low_bid_tick > i64::MIN
    &&& b.high_ask_tick < i64::MAX
    &&& (b.best_bid_tick != INVALID_MIN && b.best_ask_tick != INVALID_MAX ==> b.best_bid_tick
        < b.best_ask_tick)
    &&& (b.best_bid_tick != INVALID_MIN ==> positive_at(b.bid_depth@, b.best_bid_tick as int))
    &&& (b.best_ask_tick != INVALID_MAX ==> positive_at(b.ask_depth@, b.best_ask_tick as int))
}

/// One level update as the market feed gives it: a price tick, a quantity of zero or more lots,
/// and a level that is positive exactly when the quantity is.
pub struct DepthUpdate<Q> {
    pub bid: bool,
    pub price_tick: i64,
    pub qty_lot: i64,
    pub level: Level<Q>,
    pub timestamp: i64,
}

/// `new` is what the update makes of `old`.
pub open spec fn is_depth_update<Q: Copy>(
    old: HashMapMarketDepth<Q>,
    new: HashMapMarketDepth<Q>,
    u: DepthUpdate<Q>,
) -> bool {
    &&& is_price_tick(u.price_tick)
    &&& u.qty_lot >= 0
    &&& u.level.positive == (u.qty_lot > 0)
    &&& exists|r: (i64, i64, i64, Q, Q, i64)|
        if u.bid {
            HashMapMarketDepth::bid_update(old, new, u.price_tick, u.qty_lot, u.level, u.timestamp, r)
        } else {
            HashMapMarketDepth::ask_update(old, new, u.price_tick, u.qty_lot, u.level, u.timestamp, r)
        }
}

/// One update keeps the book sound.
pub proof fn depth_update_keeps_book_sound<Q: Copy>(
    old: HashMapMarketDepth<Q>,
    new: HashMapMarketDepth<Q>,
    u: DepthUpdate<Q>,
)
    requires
        book_sound(old),
        is_depth_update(old, new, u),
    ensures
        book_sound(new),
{
    let r = choose|r: (i64, i64, i64, Q, Q, i64)|
        if u.bid {
            HashMapMarketDepth::bid_update(old, new, u.price_tick, u.qty_lot, u.level, u.timestamp, r)
        } else {
            HashMapMarketDepth::ask_update(old, new, u.price_tick, u.qty_lot, u.level, u.timestamp, r)
        };
    let pt = u.price_tick;
    if u.bid {
        bid_update_keeps_book_uncrossed(old, new, pt, u.qty_lot, u.level, u.timestamp, r);
        lemma_highest_positive_tick(new.bid_depth@, old.low_bid_tick as int, old.best_bid_tick as int);
        lemma_lowest_positive_tick(old.ask_depth@, pt + 1, old.high_ask_tick + 1);
    } else {
        ask_update_keeps_book_uncrossed(old, new, pt, u.qty_lot, u.level, u.timestamp, r);
        lemma_lowest_positive_tick(new.ask_depth@, old.best_ask_tick + 1, old.high_ask_tick + 1);
        lemma_highest_positive_tick(old.bid_depth@, old.low_bid_tick as int, pt as int);
    }
}

/// A book that starts empty and then takes any sequence of level updates is never crossed, and
/// its best bid and best ask, where set, always stand on positive levels.
pub proof fn depth_updates_keep_book_sound<Q: Copy>(
    books: Seq<HashMapMarketDepth<Q>>,
    updates: Seq<DepthUpdate<Q>>,
)
    requires
        books.len() == updates.len() + 1,
        books[0].model() == map_snapshot_model(Seq::<SnapshotRow<Q>>::empty()),
        forall|i: int| 0 <= i < updates.len() ==> is_depth_update(books[i], #[trigger] books[i + 1], updates[i]),
    ensures
        forall|i: int| 0 <= i < books.len() ==> book_sound(#[trigger] books[i]),
{
    lemma_books_sound(books, updates, books.len() as int);
}

proof fn lemma_books_sound<Q: Copy>(books: Seq<HashMapMarketDepth<Q>>, updates: Seq<DepthUpdate<Q>>, n: int)
    requires
        books.len() == updates.len() + 1,
        0 <= n <= books.len(),
        books[0].model() == map_snapshot_model(Seq::<SnapshotRow<Q>>::empty()),
        forall|i: int| 0 <= i < updates.len() ==> is_depth_update(books[i], #[trigger] books[i + 1], updates[i]),
    ensures
        forall|i: int| 0 <= i < n ==> book_sound(#[trigger] books[i]),
    decreases n,
{
    if n > 1 {
        lemma_books_sound(books, updates, n - 1);
        let i = n - 2;
        assert(book_sound(books[i]));
        assert(is_depth_update(books[i], books[i + 1], updates[i]));
        depth_update_keeps_book_sound(books[i], books[i + 1], updates[i]);
    } else if n == 1 {
        assert(book_sound(books[0]));
    }
}

/// After an update of a level, reading that tick gives the quantity written where the level
/// has more than zero lots, and `zero` otherwise; every other tick reads as before.
pub proof fn update_then_read_gives_quantity<Q: Copy>(
    old: HashMapMarketDepth<Q>,
    new: HashMapMarketDepth<Q>,
    price_tick: i64,
    qty_lot: i64,
    level: Level<Q>,
    timestamp: i64,
    r: (i64, i64, i64, Q, Q, i64),
    other: i64,
)
    requires
        HashMapMarketDepth::bid_update(old, new, price_tick, qty_lot, level, timestamp, r)
            || HashMapMarketDepth::ask_update(old, new, price_tick, qty_lot, level, timestamp, r),
    ensures
        HashMapMarketDepth::bid_update(old, new, price_tick, qty_lot, level, timestamp, r) ==> {
            &&& new.bid_qty(price_tick) == (if qty_lot > 0 { level.qty } else { old.zero })
            &&& other != price_tick ==> new.bid_qty(other) == old.bid_qty(other)
            &&& new.ask_qty(other) == old.ask_qty(other)
        },
        HashMapMarketDepth::ask_update(old, new, price_tick, qty_lot, level, timestamp, r) ==> {
            &&& new.ask_qty(price_tick) == (if qty_lot > 0 { level.qty } else { old.zero })
            &&& other != price_tick ==> new.ask_qty(other) == old.ask_qty(other)
            &&& new.bid_qty(other) == old.bid_qty(other)
        },
{
}


/// The map that inserting the rows' levels in order gives.
pub open spec fn map_of_rows<Q>(rows: Seq<SnapshotRow<Q>>) -> Map<i64, Level<Q>>
    decreases rows.len(),
{
    if rows.len() == 0 {
        Map::empty()
    } else {
        map_of_rows(rows.drop_last()).insert(rows.last().price_tick, rows.last().level)
    }
}

proof fn lemma_snapshot_flags()
    ensures
        bid_snapshot_ev() & BUY_EVENT == BUY_EVENT,
        ask_snapshot_ev() & BUY_EVENT != BUY_EVENT,
        ask_snapshot_ev() & SELL_EVENT == SELL_EVENT,
{
    let exch: u64 = 1u64 << 31u64;
    let local: u64 = 1u64 << 30u64;
    let buy: u64 = 1u64 << 29u64;
    let sell: u64 = 1u64 << 28u64;
    let snap: u64 = 4u64;
    assert(EXCH_EVENT == exch && LOCAL_EVENT == local && BUY_EVENT == buy && SELL_EVENT == sell && DEPTH_SNAPSHOT_EVENT == snap);
    assert(((exch | local) | buy) | snap == bid_snapshot_ev());
    assert(((exch | local) | sell) | snap == ask_snapshot_ev());
    assert((((exch | local) | buy) | snap) & buy == buy) by (bit_vector)
        requires
            exch == 1u64 << 31u64,
            local == 1u64 << 30u64,
            buy == 1u64 << 29u64,
            snap == 4u64,
    ;
    assert((((exch | local) | sell) | snap) & buy != buy) by (bit_vector)
        requires
            exch == 1u64 << 31u64,
            local == 1u64 << 30u64,
            buy == 1u64 << 29u64,
            sell == 1u64 << 28u64,
            snap == 4u64,
    ;
    assert((((exch | local) | sell) | snap) & sell == sell) by (bit_vector)
        requires
            exch == 1u64 << 31u64,
            local == 1u64 << 30u64,
            sell == 1u64 << 28u64,
            snap == 4u64,
    ;
}

proof fn lemma_map_of_ordered_rows<Q>(rows: Seq<SnapshotRow<Q>>, descending: bool)
    requires
        forall|i: int, j: int| 0 <= i < j < rows.len() ==> comes_before(#[trigger] rows[i].price_tick, #[trigger] rows[j].price_tick, descending),
    ensures
        forall|t: i64| #[trigger] map_of_rows(rows).contains_key(t) <==> exists|i: int| 0 <= i < rows.len() && rows[i].price_tick == t,
        forall|i: int| 0 <= i < rows.len() ==> map_of_rows(rows)[#[trigger] rows[i].price_tick] == rows[i].level,
    decreases rows.len(),
{
    if rows.len() > 0 {
        let prefix = rows.drop_last();
        assert forall|i: int, j: int| 0 <= i < j < prefix.len() implies comes_before(#[trigger] prefix[i].price_tick, #[trigger] prefix[j].price_tick, descending) by {
            assert(prefix[i] == rows[i] && prefix[j] == rows[j]);
        }
        lemma_map_of_ordered_rows(prefix, descending);
        let last = rows.last();
        let m = map_of_rows(rows);
        assert(m == map_of_rows(prefix).insert(last.price_tick, last.level));
        assert forall|t: i64| #[trigger] m.contains_key(t) <==> exists|i: int| 0 <= i < rows.len() && rows[i].price_tick == t by {
            if m.contains_key(t) && t == last.price_tick {
                assert(rows[rows.len() - 1].price_tick == t);
            }
            if m.contains_key(t) && t != last.price_tick {
                assert(map_of_rows(prefix).contains_key(t));
                let i = choose|i: int| 0 <= i < prefix.len() && prefix[i].price_tick == t;
                assert(rows[i] == prefix[i]);
            }
            if exists|i: int| 0 <= i < rows.len() && rows[i].price_tick == t {
                let i = choose|i: int| 0 <= i < rows.len() && rows[i].price_tick == t;
                if i < rows.len() - 1 {
                    assert(prefix[i] == rows[i]);
                    assert(map_of_rows(prefix).contains_key(prefix[i].price_tick));
                }
            }
        }
        assert forall|i: int| 0 <= i < rows.len() implies m[#[trigger] rows[i].price_tick] == rows[i].level by {
            if i < rows.len() - 1 {
                assert(comes_before(rows[i].price_tick, rows[rows.len() - 1].price_tick, descending));
                assert(prefix[i] == rows[i]);
            }
        }
    }
}

proof fn lemma_snapshot_fold<Q>(rows: Seq<SnapshotRow<Q>>, n: int, k: int)
    requires
        0 <= n <= rows.len(),
        0 <= k <= rows.len(),
        forall|i: int| 0 <= i < n ==> (#[trigger] rows[i]).ev == bid_snapshot_ev(),
        forall|i: int| n <= i < rows.len() ==> (#[trigger] rows[i]).ev == ask_snapshot_ev(),
    ensures
        k <= n ==> map_snapshot_model(rows.take(k)).bids == map_of_rows(rows.take(k))
            && map_snapshot_model(rows.take(k)).asks == Map::<i64, Level<Q>>::empty(),
        k >= n ==> map_snapshot_model(rows.take(k)).bids == map_of_rows(rows.take(n))
            && map_snapshot_model(rows.take(k)).asks == map_of_rows(rows.subrange(n, k)),
    decreases k,
{
    if k == 0 {
        assert(rows.take(0) =~= Seq::<SnapshotRow<Q>>::empty());
        if n == 0 {
            assert(rows.subrange(0, 0) =~= Seq::<SnapshotRow<Q>>::empty());
        }
    } else {
        lemma_snapshot_fold(rows, n, k - 1);
        lemma_snapshot_flags();
        let row = rows[k - 1];
        assert(rows.take(k).drop_last() =~= rows.take(k - 1));
        assert(rows.take(k).last() == row);
        if k - 1 < n {
            assert(row.ev == bid_snapshot_ev());
        } else {
            assert(row.ev == ask_snapshot_ev());
            if k - 1 == n {
                assert(rows.subrange(n, k - 1) =~= Seq::<SnapshotRow<Q>>::empty());
            }
            assert(rows.subrange(n, k).drop_last() =~= rows.subrange(n, k - 1));
            assert(rows.subrange(n, k).last() == row);
            if k == n {
                assert(rows.take(n) =~= rows.take(k));
            }
        }
    }
}

proof fn lemma_listed_map<Q>(rows: Seq<SnapshotRow<Q>>, m: Map<i64, Level<Q>>, bound: i64, descending: bool, ev: u64)
    requires
        lists_side(rows, m, bound, descending, ev),
    ensures
        map_of_rows(rows) == m.restrict(Set::new(|k: i64| is_listed(k, bound, descending))),
{
    lemma_map_of_ordered_rows(rows, descending);
    let listed = Set::new(|k: i64| is_listed(k, bound, descending));
    let r = m.restrict(listed);
    let f = map_of_rows(rows);
    assert forall|t: i64| #[trigger] f.contains_key(t) <==> r.contains_key(t) by {
        if f.contains_key(t) {
            let i = choose|i: int| 0 <= i < rows.len() && rows[i].price_tick == t;
            assert(m.contains_key(rows[i].price_tick));
        }
        if r.contains_key(t) {
            assert(m.contains_key(t) && is_listed(t, bound, descending));
        }
    }
    assert forall|t: i64| #[trigger] f.contains_key(t) implies f[t] == r[t] by {
        let i = choose|i: int| 0 <= i < rows.len() && rows[i].price_tick == t;
        assert(f[rows[i].price_tick] == rows[i].level);
        assert(m[rows[i].price_tick] == rows[i].level);
    }
    assert(f =~= r);
}

/// A snapshot of a book, applied to any book, restores the levels it lists: the bids at or
/// below the best bid and the asks at or above the best ask.
pub proof fn applying_a_snapshot_restores_its_levels<Q>(book: HashMapMarketDepth<Q>, rows: Seq<SnapshotRow<Q>>, n: int)
    requires
        0 <= n <= rows.len(),
        lists_side(rows.subrange(0, n), book.bid_depth@, book.best_bid_tick, true, bid_snapshot_ev()),
        lists_side(rows.subrange(n, rows.len() as int), book.ask_depth@, book.best_ask_tick, false, ask_snapshot_ev()),
    ensures
        map_snapshot_model(rows).bids == book.bid_depth@.restrict(Set::new(|k: i64| k <= book.best_bid_tick)),
        map_snapshot_model(rows).asks == book.ask_depth@.restrict(Set::new(|k: i64| k >= book.best_ask_tick)),
{
    let bids = rows.subrange(0, n);
    let asks = rows.subrange(n, rows.len() as int);
    assert forall|i: int| 0 <= i < n implies (#[trigger] rows[i]).ev == bid_snapshot_ev() by {
        assert(bids[i] == rows[i]);
    }
    assert forall|i: int| n <= i < rows.len() implies (#[trigger] rows[i]).ev == ask_snapshot_ev() by {
        assert(asks[i - n] == rows[i]);
    }
    lemma_snapshot_fold(rows, n, rows.len() as int);
    assert(rows.take(rows.len() as int) =~= rows);
    assert(rows.take(n) =~= bids);
    lemma_listed_map(bids, book.bid_depth@, book.best_bid_tick, true, bid_snapshot_ev());
    lemma_listed_map(asks, book.ask_depth@, book.best_ask_tick, false, ask_snapshot_ev());
    assert(Set::new(|k: i64| is_listed(k, book.best_bid_tick, true)) =~= Set::new(|k: i64| k <= book.best_bid_tick));
    assert(Set::new(|k: i64| is_listed(k, book.best_ask_tick, false)) =~= Set::new(|k: i64| k >= book.best_ask_tick));
}

/// Clearing a side up to a tick removes every level of that side from its best price through
/// that tick (so each reads as `zero` afterwards) and keeps every other level of both sides;
/// clearing a side with no tick given, or the whole book, leaves no level there.
pub proof fn clearing_removes_the_cleared_levels<Q: Copy>(
    old: HashMapMarketDepth<Q>,
    new: HashMapMarketDepth<Q>,
    side: Side,
    clear_upto: Option<i64>,
)
    requires
        HashMapMarketDepth::depth_cleared(old, new, side, clear_upto),
    ensures
        side == Side::Sell ==> forall|t: i64| #[trigger] new.bid_depth@.contains_key(t) == old.bid_depth@.contains_key(t),
        side == Side::Buy ==> forall|t: i64| #[trigger] new.ask_depth@.contains_key(t) == old.ask_depth@.contains_key(t),
        side == Side::Sell && clear_upto is Some && old.best_ask_tick != INVALID_MAX ==> forall|t: i64|
            old.best_ask_tick <= t <= clear_upto->0 ==> !#[trigger] new.ask_depth@.contains_key(t)
                && new.ask_qty(t) == old.zero,
        side == Side::Sell && clear_upto is Some ==> forall|t: i64|
            !(old.best_ask_tick <= t <= clear_upto->0 && old.best_ask_tick != INVALID_MAX) ==> (
            #[trigger] new.ask_depth@.contains_key(t) == old.ask_depth@.contains_key(t) && new.ask_qty(t)
                == old.ask_qty(t)),
        side == Side::Buy && clear_upto is Some && old.best_bid_tick != INVALID_MIN ==> forall|t: i64|
            clear_upto->0 <= t <= old.best_bid_tick ==> !#[trigger] new.bid_depth@.contains_key(t)
                && new.bid_qty(t) == old.zero,
        side == Side::Buy && clear_upto is Some ==> forall|t: i64|
            !(clear_upto->0 <= t <= old.best_bid_tick && old.best_bid_tick != INVALID_MIN) ==> (
            #[trigger] new.bid_depth@.contains_key(t) == old.bid_depth@.contains_key(t) && new.bid_qty(t)
                == old.bid_qty(t)),
        side == Side::Sell && clear_upto is None ==> forall|t: i64| !#[trigger] new.ask_depth@.contains_key(t),
        side == Side::Buy && clear_upto is None ==> forall|t: i64| !#[trigger] new.bid_depth@.contains_key(t),
        side != Side::Buy && side != Side::Sell ==> forall|t: i64|
            !#[trigger] new.ask_depth@.contains_key(t) && !new.bid_depth@.contains_key(t),
{
}

/// After a side is cleared up to a tick, its best price is a positive level beyond that tick,
/// or the side is empty: a sell side's best ask is above the tick, a buy side's best bid below.
pub proof fn clearing_moves_the_best_beyond_the_cleared_tick<Q: Copy>(
    old: HashMapMarketDepth<Q>,
    new: HashMapMarketDepth<Q>,
    side: Side,
    c: i64,
)
    requires
        old.wf(),
        HashMapMarketDepth::depth_cleared(old, new, side, Some(c)),
        side == Side::Sell ==> c < i64::MAX - 1,
        side == Side::Buy ==> c > i64::MIN,
    ensures
        side == Side::Sell ==> new.best_ask_tick == INVALID_MAX || (new.best_ask_tick > c && positive_at(
            new.ask_depth@,
            new.best_ask_tick as int,
        )),
        side == Side::Buy ==> new.best_bid_tick == INVALID_MIN || (new.best_bid_tick < c && positive_at(
            new.bid_depth@,
            new.best_bid_tick as int,
        )),
{
    if side == Side::Sell {
        lemma_lowest_positive_tick(new.ask_depth@, c + 2, old.high_ask_tick + 1);
    } else if side == Side::Buy {
        lemma_highest_positive_tick(new.bid_depth@, old.low_bid_tick as int, c - 1);
    }
}

} // verus!
