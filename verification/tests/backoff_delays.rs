use std::time::Duration;

use hftlive::backoff::{quiet_period_passed, BackoffStrategy, ExponentialBackoff};

#[test]
fn backoff_doubles_from_the_minimum_up_to_the_cap() {
    let mut backoff = ExponentialBackoff::default();
    assert_eq!(backoff.backoff(), Duration::from_millis(100));
    assert_eq!(backoff.backoff(), Duration::from_millis(200));
    assert_eq!(backoff.backoff(), Duration::from_millis(400));
    for _ in 0..20 {
        backoff.backoff();
    }
    assert_eq!(backoff.backoff(), Duration::from_secs(60));
}

#[test]
fn next_delay_starts_over_after_a_reset() {
    let mut backoff = ExponentialBackoff::default();
    assert_eq!(backoff.next_delay_ms(false), 100);
    assert_eq!(backoff.next_delay_ms(false), 200);
    assert_eq!(backoff.next_delay_ms(true), 100);
}

#[test]
fn the_quiet_period_passes_strictly_after_the_interval() {
    assert!(!quiet_period_passed(300_000_000_000, 300_000));
    assert!(quiet_period_passed(300_000_000_001, 300_000));
    assert!(!quiet_period_passed(u64::MAX, u64::MAX));
}
