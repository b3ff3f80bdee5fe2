use tox_net_crypto::time::{Duration, Instant, NANOS_PER_MILLI, NANOS_PER_SEC};

#[test]
fn durations_from_units() {
    assert_eq!(NANOS_PER_MILLI, 1_000_000);
    assert_eq!(NANOS_PER_SEC, 1_000_000_000);
    assert_eq!(Duration::from_nanos(5).as_nanos(), 5);
    assert_eq!(Duration::from_millis(1000).nanos, 1_000_000_000);
    assert_eq!(Duration::from_secs(8).nanos, 8_000_000_000);
    assert_eq!(Duration::from_secs(0), Duration::from_millis(0));
    assert_eq!(Duration::from_secs(2), Duration::from_millis(2000));
}

#[test]
fn durations_stop_at_the_longest_span() {
    assert_eq!(Duration::from_secs(u64::MAX).nanos, u64::MAX);
    assert_eq!(Duration::from_millis(u64::MAX).nanos, u64::MAX);
    assert_eq!(Duration::from_secs(18_446_744_073).nanos, 18_446_744_073_000_000_000);
    assert_eq!(Duration::from_secs(18_446_744_074).nanos, u64::MAX);
    assert_eq!(Duration::from_millis(18_446_744_073_709).nanos, 18_446_744_073_709_000_000);
    assert_eq!(Duration::from_millis(18_446_744_073_710).nanos, u64::MAX);
}

#[test]
fn instants_measure_time_since_an_earlier_one() {
    let early = Instant::from_nanos(100);
    let late = Instant::from_nanos(350);
    assert_eq!(late.duration_since(early), Duration::from_nanos(250));
    assert_eq!(early.duration_since(late), Duration::from_nanos(0));
    assert_eq!(early.duration_since(early), Duration::from_nanos(0));
}

#[test]
fn instants_move_forward() {
    let t = Instant::from_nanos(100);
    assert_eq!(t.saturating_add(Duration::from_nanos(50)), Instant::from_nanos(150));
    assert_eq!(t.saturating_add(Duration::from_nanos(u64::MAX)), Instant::from_nanos(u64::MAX));
    assert_eq!(
        Instant::from_nanos(u64::MAX - 1).saturating_add(Duration::from_nanos(1)),
        Instant::from_nanos(u64::MAX)
    );
}
