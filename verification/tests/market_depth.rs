use hftlive::hash_depth::HashMapMarketDepth;
use hftlive::roi_depth::{Level, ROIVectorMarketDepth, SnapshotRow, INVALID_MAX, INVALID_MIN};
use hftlive::types::{Side, BUY_EVENT, DEPTH_SNAPSHOT_EVENT, EXCH_EVENT, LOCAL_EVENT, SELL_EVENT};

fn level(qty: f64) -> Level<f64> {
    Level { qty, positive: qty > 0.0 }
}

fn lots(qty: f64) -> i64 {
    qty.round() as i64
}

#[test]
fn hash_book_tracks_best_bid_and_ask() {
    let mut depth = HashMapMarketDepth::new(0.0);
    depth.update_bid_depth(100, lots(10.0), level(10.0), 1);
    depth.update_ask_depth(101, lots(8.0), level(8.0), 1);
    assert_eq!(depth.best_bid_tick(), 100);
    assert_eq!(depth.best_ask_tick(), 101);
    assert_eq!(depth.best_bid_qty(), 10.0);
    assert_eq!(depth.best_ask_qty(), 8.0);
    assert_eq!(depth.bid_qty_at_tick(99), 0.0);
}

#[test]
fn hash_book_update_reports_before_and_after() {
    let mut depth = HashMapMarketDepth::new(0.0);
    let r = depth.update_bid_depth(100, 5, level(5.0), 7);
    assert_eq!(r, (100, INVALID_MIN, 100, 0.0, 5.0, 7));
    let r = depth.update_bid_depth(100, 3, level(3.0), 8);
    assert_eq!(r, (100, 100, 100, 5.0, 3.0, 8));
    assert_eq!(depth.timestamp, 8);
}

#[test]
fn hash_book_removing_best_bid_falls_back_to_next_level() {
    let mut depth = HashMapMarketDepth::new(0.0);
    depth.update_bid_depth(98, 2, level(2.0), 1);
    depth.update_bid_depth(100, 1, level(1.0), 1);
    let r = depth.update_bid_depth(100, 0, level(0.0), 2);
    assert_eq!(r, (100, 100, 98, 1.0, 0.0, 2));
    assert_eq!(depth.bid_qty_at_tick(100), 0.0);
    let r = depth.update_bid_depth(98, 0, level(0.0), 3);
    assert_eq!(r.2, INVALID_MIN);
    assert_eq!(depth.low_bid_tick, INVALID_MAX);
}

#[test]
fn hash_book_crossing_bid_moves_best_ask_up() {
    let mut depth = HashMapMarketDepth::new(0.0);
    depth.update_ask_depth(101, 1, level(1.0), 1);
    depth.update_ask_depth(103, 1, level(1.0), 1);
    depth.update_bid_depth(101, 2, level(2.0), 2);
    assert_eq!(depth.best_bid_tick(), 101);
    assert_eq!(depth.best_ask_tick(), 103);
}

#[test]
fn hash_book_clear_up_to_a_price() {
    let mut depth = HashMapMarketDepth::new(0.0);
    for tick in 95..=100 {
        depth.update_bid_depth(tick, 1, level(1.0), 1);
    }
    depth.clear_depth(Side::Buy, Some(99));
    assert_eq!(depth.bid_qty_at_tick(99), 0.0);
    assert_eq!(depth.bid_qty_at_tick(100), 0.0);
    // The scan starts below the tick before the cleared one.
    assert_eq!(depth.best_bid_tick(), 97);
    depth.clear_depth(Side::Buy, None);
    assert_eq!(depth.best_bid_tick(), INVALID_MIN);
    assert_eq!(depth.bid_qty_at_tick(95), 0.0);
}

#[test]
fn hash_book_clear_all() {
    let mut depth = HashMapMarketDepth::new(0.0);
    depth.update_bid_depth(100, 1, level(1.0), 1);
    depth.update_ask_depth(102, 1, level(1.0), 1);
    depth.clear_depth(Side::NoSide, None);
    assert_eq!(depth.best_bid_tick(), INVALID_MIN);
    assert_eq!(depth.best_ask_tick(), INVALID_MAX);
    assert_eq!(depth.high_ask_tick, INVALID_MIN);
}

#[test]
fn hash_book_snapshot_round_trip() {
    let mut depth = HashMapMarketDepth::new(0.0);
    let rows = vec![
        SnapshotRow { ev: BUY_EVENT, price_tick: 99, level: level(2.0) },
        SnapshotRow { ev: BUY_EVENT, price_tick: 100, level: level(1.0) },
        SnapshotRow { ev: SELL_EVENT, price_tick: 103, level: level(4.0) },
        SnapshotRow { ev: SELL_EVENT, price_tick: 102, level: level(3.0) },
        SnapshotRow { ev: 0, price_tick: 50, level: level(9.0) },
    ];
    depth.apply_snapshot(&rows);
    assert_eq!(depth.best_bid_tick(), 100);
    assert_eq!(depth.best_ask_tick(), 102);
    assert_eq!(depth.low_bid_tick, 99);
    assert_eq!(depth.high_ask_tick, 103);
    let out = depth.snapshot();
    let bid_ev = EXCH_EVENT | LOCAL_EVENT | BUY_EVENT | DEPTH_SNAPSHOT_EVENT;
    let ask_ev = EXCH_EVENT | LOCAL_EVENT | SELL_EVENT | DEPTH_SNAPSHOT_EVENT;
    let ticks: Vec<(u64, i64, f64)> = out.iter().map(|r| (r.ev, r.price_tick, r.level.qty)).collect();
    assert_eq!(
        ticks,
        vec![(bid_ev, 100, 1.0), (bid_ev, 99, 2.0), (ask_ev, 102, 3.0), (ask_ev, 103, 4.0)]
    );
}

#[test]
fn roi_book_tracks_best_bid_and_ask() {
    let mut depth = ROIVectorMarketDepth::new(90, 110, 0.0);
    depth.update_bid_depth(100, 10, level(10.0), 1);
    depth.update_ask_depth(101, 8, level(8.0), 1);
    assert_eq!(depth.best_bid_tick(), 100);
    assert_eq!(depth.best_ask_tick(), 101);
    assert_eq!(depth.best_bid_qty(), 10.0);
    assert_eq!(depth.best_ask_qty(), 8.0);
    assert_eq!(depth.roi_tick(), (90, 110));
    assert_eq!(depth.bid_depth().len(), 21);
}

#[test]
fn roi_book_ignores_levels_outside_the_range() {
    let mut depth = ROIVectorMarketDepth::new(90, 110, 0.0);
    let r = depth.update_bid_depth(120, 4, level(4.0), 5);
    assert_eq!(r, (120, INVALID_MIN, INVALID_MIN, 0.0, 4.0, 5));
    assert_eq!(depth.best_bid_tick(), INVALID_MIN);
    assert_eq!(depth.timestamp, 0);
    assert_eq!(depth.bid_qty_at_tick(120), 0.0);
}

#[test]
fn roi_book_removing_best_ask_falls_back_to_next_level() {
    let mut depth = ROIVectorMarketDepth::new(90, 110, 0.0);
    depth.update_ask_depth(105, 1, level(1.0), 1);
    depth.update_ask_depth(102, 1, level(1.0), 1);
    let r = depth.update_ask_depth(102, 0, level(0.0), 2);
    assert_eq!(r, (102, 102, 105, 1.0, 0.0, 2));
    // A zero-lot level stays in the vector.
    assert_eq!(depth.ask_qty_at_tick(102), 0.0);
    depth.update_ask_depth(105, 0, level(0.0), 3);
    assert_eq!(depth.best_ask_tick(), INVALID_MAX);
    assert_eq!(depth.high_ask_tick, INVALID_MIN);
}

#[test]
fn roi_book_crossing_ask_moves_best_bid_down() {
    let mut depth = ROIVectorMarketDepth::new(90, 110, 0.0);
    depth.update_bid_depth(97, 1, level(1.0), 1);
    depth.update_bid_depth(100, 1, level(1.0), 1);
    depth.update_ask_depth(100, 1, level(1.0), 2);
    assert_eq!(depth.best_ask_tick(), 100);
    assert_eq!(depth.best_bid_tick(), 97);
}

#[test]
fn roi_book_clear_sell_side_up_to_a_price() {
    let mut depth = ROIVectorMarketDepth::new(90, 110, 0.0);
    for tick in 101..=106 {
        depth.update_ask_depth(tick, 1, level(1.0), 1);
    }
    depth.clear_depth(Side::Sell, Some(102));
    assert_eq!(depth.ask_qty_at_tick(101), 0.0);
    assert_eq!(depth.ask_qty_at_tick(102), 0.0);
    assert_eq!(depth.ask_qty_at_tick(103), 1.0);
    // The scan starts above the tick after the cleared one.
    assert_eq!(depth.best_ask_tick(), 104);
}

#[test]
fn roi_book_snapshot_replaces_the_book() {
    let mut depth = ROIVectorMarketDepth::new(90, 110, 0.0);
    depth.update_bid_depth(95, 1, level(1.0), 1);
    let rows = vec![
        SnapshotRow { ev: BUY_EVENT, price_tick: 99, level: level(2.0) },
        SnapshotRow { ev: BUY_EVENT, price_tick: 80, level: level(2.0) },
        SnapshotRow { ev: SELL_EVENT, price_tick: 102, level: level(3.0) },
    ];
    depth.apply_snapshot(&rows);
    assert_eq!(depth.best_bid_tick(), 99);
    assert_eq!(depth.low_bid_tick, 99);
    assert_eq!(depth.best_ask_tick(), 102);
    assert_eq!(depth.bid_qty_at_tick(95), 0.0);
    assert_eq!(depth.bid_qty_at_tick(99), 2.0);
}

#[test]
fn applying_a_snapshot_restores_the_listed_levels() {
    let mut depth = HashMapMarketDepth::new(0.0);
    depth.update_bid_depth(99, 2, level(2.0), 1);
    depth.update_bid_depth(100, 1, level(1.0), 1);
    depth.update_ask_depth(102, 3, level(3.0), 1);
    depth.update_ask_depth(104, 4, level(4.0), 1);
    let rows = depth.snapshot();
    let mut restored = HashMapMarketDepth::new(0.0);
    restored.update_bid_depth(50, 9, level(9.0), 1);
    restored.apply_snapshot(&rows);
    assert_eq!(restored.best_bid_tick(), 100);
    assert_eq!(restored.best_ask_tick(), 102);
    assert_eq!(restored.bid_qty_at_tick(99), 2.0);
    assert_eq!(restored.ask_qty_at_tick(104), 4.0);
    assert_eq!(restored.bid_qty_at_tick(50), 0.0);
}

#[test]
fn hash_book_is_never_crossed_and_its_best_levels_are_positive() {
    let mut depth = HashMapMarketDepth::new(0.0);
    let updates: [(bool, i64, f64); 10] = [
        (true, 100, 3.0),
        (false, 105, 2.0),
        (true, 104, 1.0),
        (false, 103, 4.0),
        (true, 106, 5.0),
        (false, 106, 0.0),
        (true, 106, 0.0),
        (false, 101, 1.0),
        (true, 100, 0.0),
        (false, 110, 2.0),
    ];
    for (i, (bid, tick, qty)) in updates.into_iter().enumerate() {
        if bid {
            depth.update_bid_depth(tick, lots(qty), level(qty), i as i64);
        } else {
            depth.update_ask_depth(tick, lots(qty), level(qty), i as i64);
        }
        let (best_bid, best_ask) = (depth.best_bid_tick(), depth.best_ask_tick());
        if best_bid != INVALID_MIN && best_ask != INVALID_MAX {
            assert!(best_bid < best_ask, "crossed after update {i}");
        }
        if best_bid != INVALID_MIN {
            assert!(depth.best_bid_qty() > 0.0, "empty best bid after update {i}");
        }
        if best_ask != INVALID_MAX {
            assert!(depth.best_ask_qty() > 0.0, "empty best ask after update {i}");
        }
    }
}
