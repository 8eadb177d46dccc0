//! An L2 order book held in two vectors over a range of interest of price ticks.
//!
//! Prices and quantities are floating point: the caller takes a price to its tick and a
//! quantity to its number of lots, and says whether a quantity is positive. The book keeps the
//! quantities as it receives them and tracks the best bid and ask ticks, the lowest bid and the
//! highest ask ever set, scanning the vectors where a best level goes away.
use vstd::prelude::*;

use crate::types::{Side, BUY_EVENT, SELL_EVENT};

verus! {

/// The tick that stands for "no bid".
pub const INVALID_MIN: i64 = i64::MIN;

/// The tick that stands for "no ask".
pub const INVALID_MAX: i64 = i64::MAX;

/// The quantity at one price tick, and whether it is positive.
#[derive(Clone, Copy, Debug)]
pub struct Level<Q> {
    pub qty: Q,
    pub positive: bool,
}

/// The highest position in `[lo, hi)` whose level is positive.
pub open spec fn highest_positive<Q>(levels: Seq<Level<Q>>, lo: int, hi: int) -> Option<int>
    decreases hi - lo,
{
    if hi <= lo {
        None
    } else if levels[hi - 1].positive {
        Some(hi - 1)
    } else {
        highest_positive(levels, lo, hi - 1)
    }
}

/// The lowest position in `[lo, hi)` whose level is positive.
pub open spec fn lowest_positive<Q>(levels: Seq<Level<Q>>, lo: int, hi: int) -> Option<int>
    decreases hi - lo,
{
    if hi <= lo {
        None
    } else if levels[lo].positive {
        Some(lo)
    } else {
        lowest_positive(levels, lo + 1, hi)
    }
}

/// The highest tick in `[end, start)` with a positive level, or `INVALID_MIN`.
pub open spec fn level_below<Q>(levels: Seq<Level<Q>>, start: i64, end: i64, roi_lb: i64) -> i64 {
    match highest_positive(levels, end - roi_lb, start - roi_lb) {
        Some(i) => (i + roi_lb) as i64,
        None => INVALID_MIN,
    }
}

/// The lowest tick in `(start, end]` with a positive level, or `INVALID_MAX`.
pub open spec fn level_above<Q>(levels: Seq<Level<Q>>, start: i64, end: i64, roi_lb: i64) -> i64 {
    match lowest_positive(levels, start - roi_lb + 1, end - roi_lb + 1) {
        Some(i) => (i + roi_lb) as i64,
        None => INVALID_MAX,
    }
}

proof fn lemma_highest_positive_bounds<Q>(levels: Seq<Level<Q>>, lo: int, hi: int)
    ensures
        highest_positive(levels, lo, hi) matches Some(i) ==> lo <= i < hi && levels[i].positive,
    decreases hi - lo,
{
    if hi > lo && !levels[hi - 1].positive {
        lemma_highest_positive_bounds(levels, lo, hi - 1);
    }
}

proof fn lemma_lowest_positive_bounds<Q>(levels: Seq<Level<Q>>, lo: int, hi: int)
    ensures
        lowest_positive(levels, lo, hi) matches Some(i) ==> lo <= i < hi && levels[i].positive,
    decreases hi - lo,
{
    if hi > lo && !levels[lo].positive {
        lemma_lowest_positive_bounds(levels, lo + 1, hi);
    }
}

/// A tick inside the range of interest.
pub open spec fn in_roi(tick: i64, roi_lb: i64, roi_ub: i64) -> bool {
    roi_lb <= tick <= roi_ub
}

/// The highest tick in `[end, start)` with a positive level: `start` and `end` are inside the
/// range of interest.
fn depth_below<Q: Copy>(depth: &Vec<Level<Q>>, start: i64, end: i64, roi_lb: i64, roi_ub: i64) -> (r: i64)
    requires
        roi_lb <= roi_ub,
        roi_ub - roi_lb < i64::MAX,
        depth.len() == roi_ub - roi_lb + 1,
        in_roi(start, roi_lb, roi_ub),
        in_roi(end, roi_lb, roi_ub),
    ensures
        r == level_below(depth@, start, end, roi_lb),
        r == INVALID_MIN || (in_roi(r, roi_lb, roi_ub) && r < start && depth@[r - roi_lb].positive),
{
    let lo = (end - roi_lb) as usize;
    let mut index = (start - roi_lb) as usize;
    proof {
        lemma_highest_positive_bounds(depth@, lo as int, index as int);
    }
    while index > lo
        invariant
            lo == end - roi_lb,
            index < depth.len(),
            roi_lb <= roi_ub,
            roi_ub - roi_lb < i64::MAX,
            depth.len() == roi_ub - roi_lb + 1,
            index as int <= start - roi_lb,
            highest_positive(depth@, lo as int, index as int) == highest_positive(
                depth@,
                lo as int,
                start - roi_lb,
            ),
        decreases index,
    {
        if depth[index - 1].positive {
            assert(highest_positive(depth@, lo as int, index as int) == Some(index - 1));
            return (index - 1) as i64 + roi_lb;
        }
        index = index - 1;
    }
    INVALID_MIN
}

/// The lowest tick in `(start, end]` with a positive level: `start` and `end` are inside the
/// range of interest.
fn depth_above<Q: Copy>(depth: &Vec<Level<Q>>, start: i64, end: i64, roi_lb: i64, roi_ub: i64) -> (r: i64)
    requires
        roi_lb <= roi_ub,
        roi_ub - roi_lb < i64::MAX,
        depth.len() == roi_ub - roi_lb + 1,
        in_roi(start, roi_lb, roi_ub),
        in_roi(end, roi_lb, roi_ub),
    ensures
        r == level_above(depth@, start, end, roi_lb),
        r == INVALID_MAX || (in_roi(r, roi_lb, roi_ub) && r > start && depth@[r - roi_lb].positive),
{
    let s = (start - roi_lb) as usize;
    let e = (end - roi_lb) as usize;
    if s >= e {
        assert(lowest_positive(depth@, s + 1, e + 1) is None);
        return INVALID_MAX;
    }
    let mut index = s + 1;
    proof {
        lemma_lowest_positive_bounds(depth@, index as int, e + 1);
    }
    while index <= e
        invariant
            e < depth.len(),
            s < index <= e + 1,
            s == start - roi_lb,
            e == end - roi_lb,
            roi_lb <= roi_ub,
            roi_ub - roi_lb < i64::MAX,
            depth.len() == roi_ub - roi_lb + 1,
            lowest_positive(depth@, index as int, e + 1) == lowest_positive(depth@, s + 1, e + 1),
        decreases e + 1 - index,
    {
        if depth[index].positive {
            assert(lowest_positive(depth@, index as int, e + 1) == Some(index as int));
            return index as i64 + roi_lb;
        }
        index = index + 1;
    }
    INVALID_MAX
}


/// The smaller of two ticks.
pub open spec fn min_tick(a: i64, b: i64) -> i64 {
    if a <= b { a } else { b }
}

/// The larger of two ticks.
pub open spec fn max_tick(a: i64, b: i64) -> i64 {
    if a >= b { a } else { b }
}

/// A range of interest the book can be laid out over: its ends are not the sentinels, and its
/// width fits the machine.
pub open spec fn roi_is_valid(roi_lb: i64, roi_ub: i64) -> bool {
    &&& i64::MIN < roi_lb <= roi_ub < i64::MAX
    &&& roi_ub - roi_lb < i64::MAX
    &&& roi_ub - roi_lb + 1 <= usize::MAX
}

/// `n` empty levels holding `zero`.
pub open spec fn blank_levels<Q>(n: nat, zero: Q) -> Seq<Level<Q>> {
    Seq::new(n, |i: int| Level { qty: zero, positive: false })
}

/// `levels` with the positions `[lo, hi]` emptied.
pub open spec fn cleared_between<Q>(levels: Seq<Level<Q>>, lo: int, hi: int, zero: Q) -> Seq<Level<Q>> {
    Seq::new(
        levels.len(),
        |i: int| if lo <= i <= hi { Level { qty: zero, positive: false } } else { levels[i] },
    )
}

/// One row of a depth snapshot: its event flags, its price tick and its level.
#[derive(Clone, Copy, Debug)]
pub struct SnapshotRow<Q> {
    pub ev: u64,
    pub price_tick: i64,
    pub level: Level<Q>,
}

/// What a book holds, as mathematical values.
pub struct BookModel<Q> {
    pub bids: Seq<Level<Q>>,
    pub asks: Seq<Level<Q>>,
    pub best_bid: i64,
    pub best_ask: i64,
    pub low_bid: i64,
    pub high_ask: i64,
}

/// The model after one snapshot row is applied.
pub open spec fn apply_row<Q>(m: BookModel<Q>, row: SnapshotRow<Q>, roi_lb: i64, roi_ub: i64) -> BookModel<Q> {
    let t = row.price_tick;
    if !in_roi(t, roi_lb, roi_ub) {
        m
    } else if row.ev & BUY_EVENT == BUY_EVENT {
        BookModel {
            bids: m.bids.update(t - roi_lb, row.level),
            asks: m.asks,
            best_bid: max_tick(m.best_bid, t),
            best_ask: m.best_ask,
            low_bid: min_tick(m.low_bid, t),
            high_ask: m.high_ask,
        }
    } else if row.ev & SELL_EVENT == SELL_EVENT {
        BookModel {
            bids: m.bids,
            asks: m.asks.update(t - roi_lb, row.level),
            best_bid: m.best_bid,
            best_ask: min_tick(m.best_ask, t),
            low_bid: m.low_bid,
            high_ask: max_tick(m.high_ask, t),
        }
    } else {
        m
    }
}

/// The model that a snapshot gives: an empty book of `n` levels a side, with the rows applied
/// in order.
pub open spec fn snapshot_model<Q>(rows: Seq<SnapshotRow<Q>>, roi_lb: i64, roi_ub: i64, n: nat, zero: Q) -> BookModel<Q>
    decreases rows.len(),
{
    if rows.len() == 0 {
        BookModel {
            bids: blank_levels(n, zero),
            asks: blank_levels(n, zero),
            best_bid: INVALID_MIN,
            best_ask: INVALID_MAX,
            low_bid: INVALID_MAX,
            high_ask: INVALID_MIN,
        }
    } else {
        apply_row(snapshot_model(rows.drop_last(), roi_lb, roi_ub, n, zero), rows.last(), roi_lb, roi_ub)
    }
}

/// L2 market depth held in two vectors, one level per price tick of the range of interest.
pub struct ROIVectorMarketDepth<Q> {
    pub timestamp: i64,
    pub ask_depth: Vec<Level<Q>>,
    pub bid_depth: Vec<Level<Q>>,
    pub best_bid_tick: i64,
    pub best_ask_tick: i64,
    pub low_bid_tick: i64,
    pub high_ask_tick: i64,
    pub roi_ub: i64,
    pub roi_lb: i64,
    /// The quantity that an empty level holds.
    pub zero: Q,
}

impl<Q: Copy> ROIVectorMarketDepth<Q> {
    /// The book's invariant: one level per tick of a valid range of interest on each side, and
    /// each tracked tick either its sentinel or inside the range.
    pub open spec fn wf(&self) -> bool {
        &&& roi_is_valid(self.roi_lb, self.roi_ub)
        &&& self.bid_depth.len() == self.roi_ub - self.roi_lb + 1
        &&& self.ask_depth.len() == self.roi_ub - self.roi_lb + 1
        &&& self.best_bid_tick == INVALID_MIN || in_roi(self.best_bid_tick, self.roi_lb, self.roi_ub)
        &&& self.best_ask_tick == INVALID_MAX || in_roi(self.best_ask_tick, self.roi_lb, self.roi_ub)
        &&& self.low_bid_tick == INVALID_MAX || in_roi(self.low_bid_tick, self.roi_lb, self.roi_ub)
        &&& self.high_ask_tick == INVALID_MIN || in_roi(self.high_ask_tick, self.roi_lb, self.roi_ub)
    }

    pub open spec fn model(&self) -> BookModel<Q> {
        BookModel {
            bids: self.bid_depth@,
            asks: self.ask_depth@,
            best_bid: self.best_bid_tick,
            best_ask: self.best_ask_tick,
            low_bid: self.low_bid_tick,
            high_ask: self.high_ask_tick,
        }
    }

    /// The lowest tick a bid scan goes down to.
    pub open spec fn bid_floor(&self) -> i64 {
        if self.low_bid_tick == INVALID_MAX { self.roi_lb } else { self.low_bid_tick }
    }

    /// The highest tick an ask scan goes up to.
    pub open spec fn ask_ceiling(&self) -> i64 {
        if self.high_ask_tick == INVALID_MIN { self.roi_ub } else { self.high_ask_tick }
    }

    /// The bid quantity at a tick: what its level holds inside the range, `zero` outside.
    pub open spec fn bid_qty(&self, tick: i64) -> Q {
        if in_roi(tick, self.roi_lb, self.roi_ub) { self.bid_depth@[tick - self.roi_lb].qty } else { self.zero }
    }

    /// The ask quantity at a tick: what its level holds inside the range, `zero` outside.
    pub open spec fn ask_qty(&self, tick: i64) -> Q {
        if in_roi(tick, self.roi_lb, self.roi_ub) { self.ask_depth@[tick - self.roi_lb].qty } else { self.zero }
    }

    /// Neither side of the book stands at or through the other.
    pub open spec fn uncrossed(&self) -> bool {
        self.best_bid_tick != INVALID_MIN && self.best_ask_tick != INVALID_MAX ==> self.best_bid_tick < self.best_ask_tick
    }

    /// An empty book over the ticks `[roi_lb, roi_ub]`, whose empty levels hold `zero`.
    pub fn new(roi_lb: i64, roi_ub: i64, zero: Q) -> (book: Self)
        requires
            roi_is_valid(roi_lb, roi_ub),
        ensures
            book.wf(),
            book.roi_lb == roi_lb,
            book.roi_ub == roi_ub,
            book.zero == zero,
            book.timestamp == 0,
            book.model() == snapshot_model(Seq::<SnapshotRow<Q>>::empty(), roi_lb, roi_ub, (roi_ub - roi_lb + 1) as nat, zero),
    {
        let n = (roi_ub - roi_lb) as usize + 1;
        let bids = blank_vec(n, zero);
        let asks = blank_vec(n, zero);
        ROIVectorMarketDepth {
            timestamp: 0,
            ask_depth: asks,
            bid_depth: bids,
            best_bid_tick: INVALID_MIN,
            best_ask_tick: INVALID_MAX,
            low_bid_tick: INVALID_MAX,
            high_ask_tick: INVALID_MIN,
            roi_ub,
            roi_lb,
            zero,
        }
    }

    pub fn bid_depth(&self) -> (r: &Vec<Level<Q>>)
        ensures
            r@ == self.bid_depth@,
    {
        &self.bid_depth
    }

    pub fn ask_depth(&self) -> (r: &Vec<Level<Q>>)
        ensures
            r@ == self.ask_depth@,
    {
        &self.ask_depth
    }

    /// The range of interest in ticks.
    pub fn roi_tick(&self) -> (r: (i64, i64))
        ensures
            r == (self.roi_lb, self.roi_ub),
    {
        (self.roi_lb, self.roi_ub)
    }

    fn index(&self, price_tick: i64) -> (r: Option<usize>)
        requires
            self.wf(),
        ensures
            r matches Some(i) ==> in_roi(price_tick, self.roi_lb, self.roi_ub) && i == price_tick - self.roi_lb,
            r is None ==> !in_roi(price_tick, self.roi_lb, self.roi_ub),
    {
        if price_tick < self.roi_lb || price_tick > self.roi_ub {
            None
        } else {
            Some((price_tick - self.roi_lb) as usize)
        }
    }

    pub fn best_bid_tick(&self) -> (r: i64)
        ensures
            r == self.best_bid_tick,
    {
        self.best_bid_tick
    }

    pub fn best_ask_tick(&self) -> (r: i64)
        ensures
            r == self.best_ask_tick,
    {
        self.best_ask_tick
    }

    /// The quantity at a bid tick (`zero` outside the range of interest).
    pub fn bid_qty_at_tick(&self, price_tick: i64) -> (r: Q)
        requires
            self.wf(),
        ensures
            r == self.bid_qty(price_tick),
    {
        match self.index(price_tick) {
            Some(i) => self.bid_depth[i].qty,
            None => self.zero,
        }
    }

    /// The quantity at an ask tick (`zero` outside the range of interest).
    pub fn ask_qty_at_tick(&self, price_tick: i64) -> (r: Q)
        requires
            self.wf(),
        ensures
            r == self.ask_qty(price_tick),
    {
        match self.index(price_tick) {
            Some(i) => self.ask_depth[i].qty,
            None => self.zero,
        }
    }

    /// The quantity at the best bid (`zero` where there is no bid).
    pub fn best_bid_qty(&self) -> (r: Q)
        requires
            self.wf(),
        ensures
            r == self.bid_qty(self.best_bid_tick),
    {
        self.bid_qty_at_tick(self.best_bid_tick)
    }

    /// The quantity at the best ask (`zero` where there is no ask).
    pub fn best_ask_qty(&self) -> (r: Q)
        requires
            self.wf(),
        ensures
            r == self.ask_qty(self.best_ask_tick),
    {
        self.ask_qty_at_tick(self.best_ask_tick)
    }
}

impl<Q: Copy> ROIVectorMarketDepth<Q> {
    /// What an update of the bid level at `price_tick` to `level` (`qty_lot` lots) at
    /// `timestamp` makes of the book `old`, as the book `new` and the report `r`: outside the
    /// range of interest nothing changes; inside, the level is written, a level going to zero
    /// lots at the best bid moves the best bid down to the next positive level above the floor,
    /// and a nonzero level above the best bid becomes the best bid, moving a crossed best ask up.
    pub open spec fn bid_update(
        old: Self,
        new: Self,
        price_tick: i64,
        qty_lot: i64,
        level: Level<Q>,
        timestamp: i64,
        r: (i64, i64, i64, Q, Q, i64),
    ) -> bool {
        let lb = old.roi_lb;
        &&& new.roi_lb == old.roi_lb && new.roi_ub == old.roi_ub && new.zero == old.zero
        &&& if !in_roi(price_tick, lb, old.roi_ub) {
            &&& new.model() == old.model()
            &&& new.timestamp == old.timestamp
            &&& r == (price_tick, old.best_bid_tick, old.best_bid_tick, old.zero, level.qty, timestamp)
        } else {
            &&& new.bid_depth@ == old.bid_depth@.update(price_tick - lb, level)
            &&& new.ask_depth@ == old.ask_depth@
            &&& new.high_ask_tick == old.high_ask_tick
            &&& new.timestamp == timestamp
            &&& r == (price_tick, old.best_bid_tick, new.best_bid_tick, old.bid_depth@[price_tick - lb].qty, level.qty, timestamp)
            &&& if qty_lot == 0 {
                &&& new.best_ask_tick == old.best_ask_tick
                &&& if price_tick == old.best_bid_tick {
                    &&& new.best_bid_tick == level_below(new.bid_depth@, old.best_bid_tick, old.bid_floor(), lb)
                    &&& new.low_bid_tick == (if new.best_bid_tick == INVALID_MIN { INVALID_MAX } else { old.low_bid_tick })
                } else {
                    new.best_bid_tick == old.best_bid_tick && new.low_bid_tick == old.low_bid_tick
                }
            } else {
                &&& new.low_bid_tick == min_tick(old.low_bid_tick, price_tick)
                &&& if price_tick > old.best_bid_tick {
                    &&& new.best_bid_tick == price_tick
                    &&& new.best_ask_tick == (if price_tick >= old.best_ask_tick {
                        level_above(old.ask_depth@, price_tick, old.ask_ceiling(), lb)
                    } else {
                        old.best_ask_tick
                    })
                } else {
                    new.best_bid_tick == old.best_bid_tick && new.best_ask_tick == old.best_ask_tick
                }
            }
        }
    }

    /// The same for an update of the ask level at `price_tick`, with the sides mirrored.
    pub open spec fn ask_update(
        old: Self,
        new: Self,
        price_tick: i64,
        qty_lot: i64,
        level: Level<Q>,
        timestamp: i64,
        r: (i64, i64, i64, Q, Q, i64),
    ) -> bool {
        let lb = old.roi_lb;
        &&& new.roi_lb == old.roi_lb && new.roi_ub == old.roi_ub && new.zero == old.zero
        &&& if !in_roi(price_tick, lb, old.roi_ub) {
            &&& new.model() == old.model()
            &&& new.timestamp == old.timestamp
            &&& r == (price_tick, old.best_ask_tick, old.best_ask_tick, old.zero, level.qty, timestamp)
        } else {
            &&& new.ask_depth@ == old.ask_depth@.update(price_tick - lb, level)
            &&& new.bid_depth@ == old.bid_depth@
            &&& new.low_bid_tick == old.low_bid_tick
            &&& new.timestamp == timestamp
            &&& r == (price_tick, old.best_ask_tick, new.best_ask_tick, old.ask_depth@[price_tick - lb].qty, level.qty, timestamp)
            &&& if qty_lot == 0 {
                &&& new.best_bid_tick == old.best_bid_tick
                &&& if price_tick == old.best_ask_tick {
                    &&& new.best_ask_tick == level_above(new.ask_depth@, old.best_ask_tick, old.ask_ceiling(), lb)
                    &&& new.high_ask_tick == (if new.best_ask_tick == INVALID_MAX { INVALID_MIN } else { old.high_ask_tick })
                } else {
                    new.best_ask_tick == old.best_ask_tick && new.high_ask_tick == old.high_ask_tick
                }
            } else {
                &&& new.high_ask_tick == max_tick(old.high_ask_tick, price_tick)
                &&& if price_tick < old.best_ask_tick {
                    &&& new.best_ask_tick == price_tick
                    &&& new.best_bid_tick == (if old.best_bid_tick >= price_tick {
                        level_below(old.bid_depth@, price_tick, old.bid_floor(), lb)
                    } else {
                        old.best_bid_tick
                    })
                } else {
                    new.best_ask_tick == old.best_ask_tick && new.best_bid_tick == old.best_bid_tick
                }
            }
        }
    }

    /// Sets the bid level at `price_tick` (its quantity is `qty_lot` lots) and returns the
    /// tick, the best bid before and after, the quantity before and after, and the timestamp.
    pub fn update_bid_depth(&mut self, price_tick: i64, qty_lot: i64, level: Level<Q>, timestamp: i64) -> (r: (i64, i64, i64, Q, Q, i64))
        requires
            old(self).wf(),
        ensures
            final(self).wf(),
            Self::bid_update(*old(self), *final(self), price_tick, qty_lot, level, timestamp, r),
    {
        let prev_best_bid_tick = self.best_bid_tick;
        let index = match self.index(price_tick) {
            Some(i) => i,
            None => {
                return (price_tick, prev_best_bid_tick, self.best_bid_tick, self.zero, level.qty, timestamp);
            },
        };
        let prev_qty = self.bid_depth[index].qty;
        self.bid_depth.set(index, level);
        if qty_lot == 0 {
            if price_tick == self.best_bid_tick {
                let floor = if self.low_bid_tick == INVALID_MAX { self.roi_lb } else { self.low_bid_tick };
                self.best_bid_tick = depth_below(&self.bid_depth, self.best_bid_tick, floor, self.roi_lb, self.roi_ub);
                if self.best_bid_tick == INVALID_MIN {
                    self.low_bid_tick = INVALID_MAX;
                }
            }
        } else {
            if price_tick > self.best_bid_tick {
                self.best_bid_tick = price_tick;
                if self.best_bid_tick >= self.best_ask_tick {
                    let ceiling = if self.high_ask_tick == INVALID_MIN { self.roi_ub } else { self.high_ask_tick };
                    self.best_ask_tick = depth_above(&self.ask_depth, self.best_bid_tick, ceiling, self.roi_lb, self.roi_ub);
                }
            }
            if price_tick < self.low_bid_tick {
                self.low_bid_tick = price_tick;
            }
        }
        self.timestamp = timestamp;
        (price_tick, prev_best_bid_tick, self.best_bid_tick, prev_qty, level.qty, timestamp)
    }

    /// Sets the ask level at `price_tick` (its quantity is `qty_lot` lots) and returns the
    /// tick, the best ask before and after, the quantity before and after, and the timestamp.
    pub fn update_ask_depth(&mut self, price_tick: i64, qty_lot: i64, level: Level<Q>, timestamp: i64) -> (r: (i64, i64, i64, Q, Q, i64))
        requires
            old(self).wf(),
        ensures
            final(self).wf(),
            Self::ask_update(*old(self), *final(self), price_tick, qty_lot, level, timestamp, r),
    {
        let prev_best_ask_tick = self.best_ask_tick;
        let index = match self.index(price_tick) {
            Some(i) => i,
            None => {
                return (price_tick, prev_best_ask_tick, self.best_ask_tick, self.zero, level.qty, timestamp);
            },
        };
        let prev_qty = self.ask_depth[index].qty;
        self.ask_depth.set(index, level);
        if qty_lot == 0 {
            if price_tick == self.best_ask_tick {
                let ceiling = if self.high_ask_tick == INVALID_MIN { self.roi_ub } else { self.high_ask_tick };
                self.best_ask_tick = depth_above(&self.ask_depth, self.best_ask_tick, ceiling, self.roi_lb, self.roi_ub);
                if self.best_ask_tick == INVALID_MAX {
                    self.high_ask_tick = INVALID_MIN;
                }
            }
        } else {
            if price_tick < self.best_ask_tick {
                self.best_ask_tick = price_tick;
                if self.best_bid_tick >= self.best_ask_tick {
                    let floor = if self.low_bid_tick == INVALID_MAX { self.roi_lb } else { self.low_bid_tick };
                    self.best_bid_tick = depth_below(&self.bid_depth, self.best_ask_tick, floor, self.roi_lb, self.roi_ub);
                }
            }
            if price_tick > self.high_ask_tick {
                self.high_ask_tick = price_tick;
            }
        }
        self.timestamp = timestamp;
        (price_tick, prev_best_ask_tick, self.best_ask_tick, prev_qty, level.qty, timestamp)
    }
}

/// A tick brought into `[lo, hi]`.
pub open spec fn clamp_tick(tick: int, lo: i64, hi: i64) -> int {
    if tick < lo { lo as int } else if tick > hi { hi as int } else { tick }
}

impl<Q: Copy> ROIVectorMarketDepth<Q> {
    /// What clearing a side makes of the book `old`: with a tick to clear up to, the bid levels
    /// from that tick up to the best bid (or the ask levels from the best ask up to that tick)
    /// are emptied and the best of that side is looked for again beyond it; without one, the
    /// side is emptied; with `NoSide`, the whole book is.
    pub open spec fn depth_cleared(old: Self, new: Self, side: Side, clear_upto: Option<i64>) -> bool {
        let lb = old.roi_lb;
        let ub = old.roi_ub;
        &&& new.roi_lb == old.roi_lb && new.roi_ub == old.roi_ub && new.zero == old.zero
        &&& new.timestamp == old.timestamp
        &&& match side {
            Side::Buy => {
                &&& new.ask_depth@ == old.ask_depth@
                &&& new.best_ask_tick == old.best_ask_tick
                &&& new.high_ask_tick == old.high_ask_tick
                &&& match clear_upto {
                    Some(c) => {
                        &&& new.bid_depth@ == (if old.best_bid_tick != INVALID_MIN {
                            cleared_between(old.bid_depth@, max_tick(c, lb) - lb, min_tick(old.best_bid_tick, ub) - lb, old.zero)
                        } else {
                            old.bid_depth@
                        })
                        &&& new.best_bid_tick == level_below(new.bid_depth@, clamp_tick(c - 1, lb, ub) as i64, old.bid_floor(), lb)
                    },
                    None => {
                        &&& new.bid_depth@ == blank_levels(old.bid_depth@.len(), old.zero)
                        &&& new.best_bid_tick == INVALID_MIN
                    },
                }
                &&& new.low_bid_tick == (if new.best_bid_tick == INVALID_MIN { INVALID_MAX } else { old.low_bid_tick })
            },
            Side::Sell => {
                &&& new.bid_depth@ == old.bid_depth@
                &&& new.best_bid_tick == old.best_bid_tick
                &&& new.low_bid_tick == old.low_bid_tick
                &&& match clear_upto {
                    Some(c) => {
                        &&& new.ask_depth@ == (if old.best_ask_tick != INVALID_MAX {
                            cleared_between(old.ask_depth@, max_tick(old.best_ask_tick, lb) - lb, min_tick(c, ub) - lb, old.zero)
                        } else {
                            old.ask_depth@
                        })
                        &&& new.best_ask_tick == level_above(new.ask_depth@, clamp_tick(c + 1, lb, ub) as i64, old.ask_ceiling(), lb)
                    },
                    None => {
                        &&& new.ask_depth@ == blank_levels(old.ask_depth@.len(), old.zero)
                        &&& new.best_ask_tick == INVALID_MAX
                    },
                }
                &&& new.high_ask_tick == (if new.best_ask_tick == INVALID_MAX { INVALID_MIN } else { old.high_ask_tick })
            },
            _ => new.model() == snapshot_model(Seq::<SnapshotRow<Q>>::empty(), lb, ub, old.bid_depth@.len(), old.zero),
        }
    }

    /// Clears one side of the book, or both for `NoSide`; `clear_upto` is the tick to clear up
    /// to, or `None` where the price given was not finite.
    pub fn clear_depth(&mut self, side: Side, clear_upto: Option<i64>)
        requires
            old(self).wf(),
            side != Side::Unsupported,
            side == Side::Buy ==> (clear_upto matches Some(c) ==> c > i64::MIN),
            side == Side::Sell ==> (clear_upto matches Some(c) ==> c < i64::MAX),
        ensures
            final(self).wf(),
            Self::depth_cleared(*old(self), *final(self), side, clear_upto),
    {
        let ghost len = self.bid_depth.len();
        match side {
            Side::Buy => {
                match clear_upto {
                    Some(c) => {
                        if self.best_bid_tick != INVALID_MIN {
                            let from = if c > self.roi_lb { c } else { self.roi_lb };
                            let to = if self.best_bid_tick < self.roi_ub { self.best_bid_tick } else { self.roi_ub };
                            if from <= to {
                                clear_levels(&mut self.bid_depth, (from - self.roi_lb) as usize, (to - self.roi_lb) as usize, self.zero);
                            } else {
                                assert(self.bid_depth@ =~= cleared_between(old(self).bid_depth@, from - self.roi_lb, to - self.roi_lb, self.zero));
                            }
                        }
                        let start = clamp(c - 1, self.roi_lb, self.roi_ub);
                        let floor = if self.low_bid_tick == INVALID_MAX { self.roi_lb } else { self.low_bid_tick };
                        self.best_bid_tick = depth_below(&self.bid_depth, start, floor, self.roi_lb, self.roi_ub);
                    },
                    None => {
                        fill_blank(&mut self.bid_depth, self.zero);
                        self.best_bid_tick = INVALID_MIN;
                    },
                }
                if self.best_bid_tick == INVALID_MIN {
                    self.low_bid_tick = INVALID_MAX;
                }
            },
            Side::Sell => {
                match clear_upto {
                    Some(c) => {
                        if self.best_ask_tick != INVALID_MAX {
                            let from = if self.best_ask_tick > self.roi_lb { self.best_ask_tick } else { self.roi_lb };
                            let to = if c < self.roi_ub { c } else { self.roi_ub };
                            if from <= to {
                                clear_levels(&mut self.ask_depth, (from - self.roi_lb) as usize, (to - self.roi_lb) as usize, self.zero);
                            } else {
                                assert(self.ask_depth@ =~= cleared_between(old(self).ask_depth@, from - self.roi_lb, to - self.roi_lb, self.zero));
                            }
                        }
                        let start = clamp(c + 1, self.roi_lb, self.roi_ub);
                        let ceiling = if self.high_ask_tick == INVALID_MIN { self.roi_ub } else { self.high_ask_tick };
                        self.best_ask_tick = depth_above(&self.ask_depth, start, ceiling, self.roi_lb, self.roi_ub);
                    },
                    None => {
                        fill_blank(&mut self.ask_depth, self.zero);
                        self.best_ask_tick = INVALID_MAX;
                    },
                }
                if self.best_ask_tick == INVALID_MAX {
                    self.high_ask_tick = INVALID_MIN;
                }
            },
            _ => {
                fill_blank(&mut self.bid_depth, self.zero);
                fill_blank(&mut self.ask_depth, self.zero);
                self.best_bid_tick = INVALID_MIN;
                self.best_ask_tick = INVALID_MAX;
                self.low_bid_tick = INVALID_MAX;
                self.high_ask_tick = INVALID_MIN;
            },
        }
    }

    /// Replaces the book with a snapshot: both sides emptied, then each row inside the range of
    /// interest written to its side, with the best and outer ticks following the rows.
    pub fn apply_snapshot(&mut self, rows: &Vec<SnapshotRow<Q>>)
        requires
            old(self).wf(),
        ensures
            final(self).wf(),
            final(self).roi_lb == old(self).roi_lb && final(self).roi_ub == old(self).roi_ub,
            final(self).zero == old(self).zero && final(self).timestamp == old(self).timestamp,
            final(self).model() == snapshot_model(rows@, old(self).roi_lb, old(self).roi_ub, old(self).bid_depth@.len(), old(self).zero),
    {
        let ghost n = self.bid_depth@.len();
        self.best_bid_tick = INVALID_MIN;
        self.best_ask_tick = INVALID_MAX;
        self.low_bid_tick = INVALID_MAX;
        self.high_ask_tick = INVALID_MIN;
        fill_blank(&mut self.bid_depth, self.zero);
        fill_blank(&mut self.ask_depth, self.zero);
        let mut k: usize = 0;
        assert(rows@.take(0) =~= Seq::<SnapshotRow<Q>>::empty());
        while k < rows.len()
            invariant
                self.wf(),
                k <= rows.len(),
                n == self.bid_depth@.len(),
                self.roi_lb == old(self).roi_lb && self.roi_ub == old(self).roi_ub,
                self.zero == old(self).zero && self.timestamp == old(self).timestamp,
                self.model() == snapshot_model(rows@.take(k as int), self.roi_lb, self.roi_ub, n, self.zero),
            decreases rows.len() - k,
        {
            let row = rows[k];
            let ghost before = self.model();
            assert(rows@.take(k + 1).drop_last() =~= rows@.take(k as int));
            let t = row.price_tick;
            match self.index(t) {
                Some(i) => {
                    if row.ev & BUY_EVENT == BUY_EVENT {
                        if t > self.best_bid_tick {
                            self.best_bid_tick = t;
                        }
                        if t < self.low_bid_tick {
                            self.low_bid_tick = t;
                        }
                        self.bid_depth.set(i, row.level);
                    } else if row.ev & SELL_EVENT == SELL_EVENT {
                        if t < self.best_ask_tick {
                            self.best_ask_tick = t;
                        }
                        if t > self.high_ask_tick {
                            self.high_ask_tick = t;
                        }
                        self.ask_depth.set(i, row.level);
                    }
                },
                None => {},
            }
            assert(self.model() == apply_row(before, row, self.roi_lb, self.roi_ub));
            k = k + 1;
        }
        assert(rows@.take(rows.len() as int) =~= rows@);
    }
}

/// `tick` brought into `[lo, hi]`.
fn clamp(tick: i64, lo: i64, hi: i64) -> (r: i64)
    requires
        lo <= hi,
    ensures
        r == clamp_tick(tick as int, lo, hi),
{
    if tick < lo {
        lo
    } else if tick > hi {
        hi
    } else {
        tick
    }
}

/// Empties the levels at positions `[lo, hi]`.
fn clear_levels<Q: Copy>(v: &mut Vec<Level<Q>>, lo: usize, hi: usize, zero: Q)
    requires
        lo <= hi < old(v).len(),
    ensures
        final(v)@ == cleared_between(old(v)@, lo as int, hi as int, zero),
{
    let mut i = lo;
    while i <= hi
        invariant
            lo <= i <= hi + 1,
            hi < v.len(),
            v@.len() == old(v)@.len(),
            forall|j: int| 0 <= j < v@.len() ==> #[trigger] v@[j] == (if lo <= j < i { Level { qty: zero, positive: false } } else { old(v)@[j] }),
        decreases hi + 1 - i,
    {
        v.set(i, Level { qty: zero, positive: false });
        i = i + 1;
    }
    assert(v@ =~= cleared_between(old(v)@, lo as int, hi as int, zero));
}

/// Empties every level.
fn fill_blank<Q: Copy>(v: &mut Vec<Level<Q>>, zero: Q)
    ensures
        final(v)@ == blank_levels(old(v)@.len(), zero),
{
    let mut i: usize = 0;
    while i < v.len()
        invariant
            i <= v.len(),
            v@.len() == old(v)@.len(),
            forall|j: int| 0 <= j < v@.len() ==> #[trigger] v@[j] == (if j < i { Level { qty: zero, positive: false } } else { old(v)@[j] }),
        decreases v.len() - i,
    {
        v.set(i, Level { qty: zero, positive: false });
        i = i + 1;
    }
    assert(v@ =~= blank_levels(old(v)@.len(), zero));
}

proof fn lemma_level_below<Q>(levels: Seq<Level<Q>>, start: i64, end: i64, roi_lb: i64)
    requires
        i64::MIN < roi_lb,
        roi_lb <= end,
    ensures
        level_below(levels, start, end, roi_lb) == INVALID_MIN
            || (end <= level_below(levels, start, end, roi_lb) < start),
{
    lemma_highest_positive_bounds(levels, end - roi_lb, start - roi_lb);
}

proof fn lemma_level_above<Q>(levels: Seq<Level<Q>>, start: i64, end: i64, roi_lb: i64)
    requires
        roi_lb <= start,
        end < i64::MAX,
    ensures
        level_above(levels, start, end, roi_lb) == INVALID_MAX
            || (start < level_above(levels, start, end, roi_lb) <= end),
{
    lemma_lowest_positive_bounds(levels, start - roi_lb + 1, end - roi_lb + 1);
}

/// An update of a bid level leaves an uncrossed book uncrossed: a best bid that goes away is
/// replaced by a lower one, and a new best bid at or above the best ask moves the best ask above
/// it.
pub proof fn bid_update_keeps_book_uncrossed<Q: Copy>(
    old: ROIVectorMarketDepth<Q>,
    new: ROIVectorMarketDepth<Q>,
    price_tick: i64,
    qty_lot: i64,
    level: Level<Q>,
    timestamp: i64,
    r: (i64, i64, i64, Q, Q, i64),
)
    requires
        old.wf(),
        old.uncrossed(),
        ROIVectorMarketDepth::bid_update(old, new, price_tick, qty_lot, level, timestamp, r),
    ensures
        new.uncrossed(),
{
    lemma_level_below(new.bid_depth@, old.best_bid_tick, old.bid_floor(), old.roi_lb);
    if in_roi(price_tick, old.roi_lb, old.roi_ub) {
        lemma_level_above(old.ask_depth@, price_tick, old.ask_ceiling(), old.roi_lb);
    }
}

/// An update of an ask level leaves an uncrossed book uncrossed, as for the bids.
pub proof fn ask_update_keeps_book_uncrossed<Q: Copy>(
    old: ROIVectorMarketDepth<Q>,
    new: ROIVectorMarketDepth<Q>,
    price_tick: i64,
    qty_lot: i64,
    level: Level<Q>,
    timestamp: i64,
    r: (i64, i64, i64, Q, Q, i64),
)
    requires
        old.wf(),
        old.uncrossed(),
        ROIVectorMarketDepth::ask_update(old, new, price_tick, qty_lot, level, timestamp, r),
    ensures
        new.uncrossed(),
{
    if old.best_ask_tick != INVALID_MAX {
        lemma_level_above(new.ask_depth@, old.best_ask_tick, old.ask_ceiling(), old.roi_lb);
    }
    lemma_level_below(old.bid_depth@, price_tick, old.bid_floor(), old.roi_lb);
}

/// After an update of a level, reading that tick gives the quantity written inside the range
/// of interest, and `zero` outside it; every other tick reads as before.
pub proof fn update_then_read_gives_quantity<Q: Copy>(
    old: ROIVectorMarketDepth<Q>,
    new: ROIVectorMarketDepth<Q>,
    price_tick: i64,
    qty_lot: i64,
    level: Level<Q>,
    timestamp: i64,
    r: (i64, i64, i64, Q, Q, i64),
    other: i64,
)
    requires
        old.wf(),
        ROIVectorMarketDepth::bid_update(old, new, price_tick, qty_lot, level, timestamp, r)
            || ROIVectorMarketDepth::ask_update(old, new, price_tick, qty_lot, level, timestamp, r),
    ensures
        ROIVectorMarketDepth::bid_update(old, new, price_tick, qty_lot, level, timestamp, r) ==> {
            &&& new.bid_qty(price_tick) == (if in_roi(price_tick, old.roi_lb, old.roi_ub) { level.qty } else { old.zero })
            &&& other != price_tick ==> new.bid_qty(other) == old.bid_qty(other)
            &&& new.ask_qty(other) == old.ask_qty(other)
        },
        ROIVectorMarketDepth::ask_update(old, new, price_tick, qty_lot, level, timestamp, r) ==> {
            &&& new.ask_qty(price_tick) == (if in_roi(price_tick, old.roi_lb, old.roi_ub) { level.qty } else { old.zero })
            &&& other != price_tick ==> new.ask_qty(other) == old.ask_qty(other)
            &&& new.bid_qty(other) == old.bid_qty(other)
        },
{
}

/// `n` empty levels holding `zero`.
fn blank_vec<Q: Copy>(n: usize, zero: Q) -> (v: Vec<Level<Q>>)
    ensures
        v@ == blank_levels(n as nat, zero),
{
    let mut v: Vec<Level<Q>> = Vec::new();
    while v.len() < n
        invariant
            v.len() <= n,
            v@ == blank_levels(v.len() as nat, zero),
        decreases n - v.len(),
    {
        v.push(Level { qty: zero, positive: false });
    }
    v
}

} // verus!
