use flexaudio::clock::{monotonic_now_ns, to_stamp, ClockNormalizer, MonotonicClock};

#[test]
fn monotonic_is_non_decreasing() {
    let clock = MonotonicClock::new();
    let a = monotonic_now_ns(&clock);
    let b = monotonic_now_ns(&clock);
    assert!(b >= a);
}

#[test]
fn first_sample_sets_origin_and_preserves_deltas() {
    let clock = MonotonicClock::new();
    let mut n = ClockNormalizer::new();
    assert!(n.is_unset());
    let t0 = n.normalize(1_000_000, &clock);
    assert!(!n.is_unset());
    let t1 = n.normalize(6_000_000, &clock);
    assert_eq!(t1 - t0, 5_000_000);
    let t2 = n.normalize(4_000_000, &clock);
    assert_eq!(t2 - t0, 3_000_000);
}

#[test]
fn normalize_wrapping_sub_handles_i64_boundary() {
    let clock = MonotonicClock::new();
    let mut n = ClockNormalizer::new();
    let base = n.normalize(i64::MAX, &clock);
    let next = n.normalize(i64::MIN, &clock);
    assert_eq!(next.wrapping_sub(base), 1, "MIN - MAX wraps around to +1");
}

#[test]
fn first_normalize_ignores_device_value_for_origin() {
    let clock = MonotonicClock::new();
    let mut n = ClockNormalizer::new();
    let before = monotonic_now_ns(&clock);
    let t0 = n.normalize(i64::MIN, &clock);
    let after = monotonic_now_ns(&clock);
    assert!(
        t0 >= before && t0 <= after,
        "{before} <= {t0} <= {after}"
    );
    assert!(!n.is_unset());
}

#[test]
fn default_is_unset_like_new() {
    let n = ClockNormalizer::default();
    assert!(n.is_unset());
}

#[test]
fn given_arrivals_are_kept() {
    let mut n = ClockNormalizer::new();
    assert_eq!(n.normalize_at(500, 10_000), 10_000);
    assert_eq!(n.normalize_at(700, 99_999), 10_200);
    assert_eq!(n.normalize_at(400, 0), 9_900);
    assert_eq!(n.normalize_at(500, 0), 10_000);
}

#[test]
fn nanoseconds_wrap_around_into_a_stamp() {
    assert_eq!(to_stamp(0), 0);
    assert_eq!(to_stamp(1_500_000_000), 1_500_000_000);
    assert_eq!(to_stamp(i64::MAX as u128), i64::MAX);
    assert_eq!(to_stamp(1u128 << 63), i64::MIN);
    assert_eq!(to_stamp(u64::MAX as u128), -1);
    assert_eq!(to_stamp((1u128 << 64) + 7), 7);
}

#[test]
fn times_past_the_end_wrap_around() {
    let mut n = ClockNormalizer::new();
    assert_eq!(n.normalize_at(0, 5), 5);
    let far = n.normalize_at(i64::MAX, 0);
    assert_eq!(far, i64::MIN + 4);
    assert_eq!(far.wrapping_sub(5), i64::MAX);
    assert_eq!(n.normalize_at(i64::MIN, 0), i64::MIN + 5);
    let clock = MonotonicClock::new();
    let mut m = ClockNormalizer::new();
    let t0 = m.normalize(0, &clock);
    assert_eq!(m.normalize(i64::MAX, &clock).wrapping_sub(t0), i64::MAX);
}
