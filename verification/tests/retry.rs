use connector_cloudflare::retry::Backoff;
use std::time::Duration;

#[test]
fn exponential_backoff_starts_at_one_second_and_caps() {
    let mut backoff = Backoff::new(Duration::from_secs(1), Duration::from_mins(2));
    for expected in [1, 2, 4, 8, 16, 32, 64, 120, 120] {
        let delay = backoff.next(None);
        assert!(delay >= Duration::from_secs(expected));
        assert!(delay <= Duration::from_millis(expected * 1_250));
    }
}

#[test]
fn retry_after_is_a_strict_minimum() {
    let mut backoff = Backoff::new(Duration::from_secs(1), Duration::from_mins(2));
    assert!(backoff.next(Some(Duration::from_secs(90))) >= Duration::from_secs(90));
}

#[test]
fn jitter_adds_thousandths_of_a_quarter() {
    let mut backoff = Backoff::new(Duration::from_secs(4), Duration::from_secs(1000));
    assert_eq!(backoff.next_with(None, 0), Duration::from_secs(4));
    assert_eq!(backoff.next_with(None, 500), Duration::from_millis(9_000));
    assert_eq!(backoff.next_with(None, 7_999), Duration::from_millis(16_000 + 3_996));
    assert_eq!(backoff.attempt, 3);
}

#[test]
fn jitter_stays_below_the_cap() {
    let mut backoff = Backoff::new(Duration::from_secs(100), Duration::from_secs(101));
    assert_eq!(backoff.next_with(None, 999), Duration::from_secs(101));
}

#[test]
fn a_provider_minimum_beyond_the_cap_has_no_jitter() {
    let mut backoff = Backoff::new(Duration::from_secs(1), Duration::from_secs(10));
    assert_eq!(
        backoff.next_with(Some(Duration::from_secs(20)), 999),
        Duration::from_secs(20)
    );
    assert_eq!(
        backoff.next_with(Some(Duration::from_secs(1)), 0),
        Duration::from_secs(2)
    );
}

#[test]
fn the_longest_delay_can_be_asked_for() {
    let mut backoff = Backoff::new(Duration::from_secs(1), Duration::from_secs(10));
    assert_eq!(backoff.next_with(Some(Duration::MAX), 7_000), Duration::MAX);
    assert_eq!(backoff.next_with(Some(Duration::MAX), 4), Duration::MAX);
}

#[test]
fn no_delay_stays_none() {
    let mut backoff = Backoff::new(Duration::from_secs(0), Duration::from_secs(10));
    assert_eq!(backoff.next(None), Duration::from_secs(0));
}

#[test]
fn many_attempts_saturate() {
    let mut backoff = Backoff::new(Duration::from_secs(1), Duration::from_secs(u64::MAX / 1_000));
    backoff.attempt = u32::MAX;
    assert_eq!(backoff.next_with(None, 0), Duration::from_secs(1 << 31));
    assert_eq!(backoff.attempt, u32::MAX);
    let mut backoff = Backoff::new(Duration::from_secs(u64::MAX), Duration::from_secs(5));
    backoff.attempt = 9;
    assert_eq!(backoff.next_with(None, 0), Duration::from_secs(5));
}
