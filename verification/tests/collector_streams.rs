use hftlive::collector::{
    combined_stream_names, connection_error_pause, depth_snapshot_retry_ms, perpetual_symbols,
};

fn strings(v: &[&str]) -> Vec<String> {
    v.iter().map(|s| s.to_string()).collect()
}

#[test]
fn stream_names_follow_symbols_then_streams() {
    let streams = strings(&["$symbol@trade", "$symbol@depth@100ms"]);
    let symbols = strings(&["BTCUSDT", "ethusdt"]);
    assert_eq!(
        combined_stream_names(&streams, &symbols),
        "btcusdt@trade/btcusdt@depth@100ms/ethusdt@trade/ethusdt@depth@100ms"
    );
}

#[test]
fn a_stream_without_placeholder_is_kept_as_written() {
    let streams = strings(&["!bookTicker"]);
    let symbols = strings(&["btcusdt"]);
    assert_eq!(combined_stream_names(&streams, &symbols), "!bookTicker");
}

#[test]
fn no_symbols_give_no_streams() {
    let streams = strings(&["$symbol@trade"]);
    assert_eq!(combined_stream_names(&streams, &vec![]), "");
}

#[test]
fn reconnections_pause_after_three_failures() {
    assert_eq!(connection_error_pause(0, false), (1, 0));
    assert_eq!(connection_error_pause(2, false), (3, 0));
    assert_eq!(connection_error_pause(3, false), (4, 1000));
    assert_eq!(connection_error_pause(20, false), (21, 1000));
}

#[test]
fn a_long_lived_connection_resets_the_count() {
    assert_eq!(connection_error_pause(7, true), (0, 0));
}

#[test]
fn only_perpetual_contracts_are_collected() {
    let contracts = vec![
        ("BTCUSDT".to_string(), "PERPETUAL".to_string()),
        ("BTCUSDT_250627".to_string(), "CURRENT_QUARTER".to_string()),
        ("ETHUSDT".to_string(), "PERPETUAL".to_string()),
    ];
    assert_eq!(perpetual_symbols(&contracts), strings(&["BTCUSDT", "ETHUSDT"]));
}

#[test]
fn depth_snapshots_are_tried_five_times_a_second_apart() {
    assert_eq!(depth_snapshot_retry_ms(1), Some(1000));
    assert_eq!(depth_snapshot_retry_ms(4), Some(1000));
    assert_eq!(depth_snapshot_retry_ms(5), None);
}
