use hftlive::engine::{ConstantLatency, IntpOrderLatency, LatencyLookup, OrderLatencyRow};

fn row(req_ts: i64, exch_ts: i64, resp_ts: i64) -> OrderLatencyRow {
    OrderLatencyRow { req_ts, exch_ts, resp_ts, _padding: 0 }
}

fn rows() -> Vec<OrderLatencyRow> {
    vec![row(100, 110, 130), row(200, 215, 240), row(300, 320, 350)]
}

#[test]
fn constant_latency_ignores_the_time() {
    let model = ConstantLatency::new(5, 7);
    assert_eq!(model.entry(0), 5);
    assert_eq!(model.entry(1_000), 5);
    assert_eq!(model.response(1_000), 7);
}

#[test]
fn entry_before_the_first_request_uses_the_first_row() {
    let mut model = IntpOrderLatency::new(rows());
    assert_eq!(model.entry(50), LatencyLookup::Fixed(10));
}

#[test]
fn entry_between_two_requests_interpolates_their_latencies() {
    let mut model = IntpOrderLatency::new(rows());
    assert_eq!(
        model.entry(150),
        LatencyLookup::Interpolate { x: 150, x1: 100, y1: 10, x2: 200, y2: 15, negate: false }
    );
    assert_eq!(
        model.entry(250),
        LatencyLookup::Interpolate { x: 250, x1: 200, y1: 15, x2: 300, y2: 20, negate: false }
    );
}

#[test]
fn entry_cursor_only_moves_forward() {
    let mut model = IntpOrderLatency::new(rows());
    model.entry(250);
    // The scan resumes from the second row, so an earlier time runs to the last row.
    assert_eq!(model.entry(150), LatencyLookup::Fixed(20));
}

#[test]
fn entry_past_the_last_request_uses_the_last_row() {
    let mut model = IntpOrderLatency::new(rows());
    assert_eq!(model.entry(1_000), LatencyLookup::Fixed(20));
}

#[test]
fn rejected_requests_interpolate_round_trips_negated() {
    let mut model = IntpOrderLatency::new(vec![row(100, 0, 130), row(200, 215, 240)]);
    assert_eq!(
        model.entry(150),
        LatencyLookup::Interpolate { x: 150, x1: 100, y1: 30, x2: 200, y2: 40, negate: true }
    );
}

#[test]
fn response_interpolates_over_exchange_times() {
    let mut model = IntpOrderLatency::new(rows());
    assert_eq!(model.response(50), LatencyLookup::Fixed(20));
    assert_eq!(
        model.response(120),
        LatencyLookup::Interpolate { x: 120, x1: 110, y1: 20, x2: 215, y2: 25, negate: false }
    );
    assert_eq!(model.response(400), LatencyLookup::Fixed(30));
}

#[test]
fn a_model_built_from_several_sources_reads_them_in_order() {
    let mut model = IntpOrderLatency::build(vec![vec![row(100, 110, 130)], vec![row(200, 215, 240), row(300, 320, 350)]], 0);
    assert_eq!(
        model.entry(250),
        LatencyLookup::Interpolate { x: 250, x1: 200, y1: 15, x2: 300, y2: 20, negate: false }
    );
}

#[test]
fn a_latency_offset_shifts_both_legs_of_every_row() {
    let mut model = IntpOrderLatency::build(vec![vec![row(0, 10, 30)], vec![row(100, 120, 150)]], 5);
    assert_eq!(model.entry(-1), LatencyLookup::Fixed(15));
    assert_eq!(
        model.entry(50),
        LatencyLookup::Interpolate { x: 50, x1: 0, y1: 15, x2: 100, y2: 25, negate: false }
    );
    assert_eq!(model.response(10), LatencyLookup::Fixed(25));
}
