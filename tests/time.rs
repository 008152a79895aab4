use orbital::{
    rotation_phase, scaled_step, sim_interval, time_since_periapsis, SimDuration, SimInstant, SimTimer,
    SIM_INTERVAL_MICROS,
};

#[test]
fn epoch_is_zero() {
    let d = SimInstant::epoch() - SimInstant::epoch();
    assert_eq!(d.as_micros(), 0);
}

#[test]
fn instant_arithmetic_is_exact() {
    let t = SimInstant::epoch() + SimDuration::from_micros(1_500_000);
    let back = t - SimDuration::from_micros(500_000);
    assert_eq!((back - SimInstant::epoch()).as_micros(), 1_000_000);
    assert_eq!((t - back).as_micros(), 500_000);
    assert_eq!((back - t).as_micros(), -500_000);
}

#[test]
fn instant_advance_and_rewind() {
    let mut t = SimInstant::epoch();
    t.advance(SimDuration::from_micros(42));
    t.advance(SimDuration::from_micros(8));
    assert_eq!(t.since(SimInstant::epoch()).as_micros(), 50);
    t.rewind(SimDuration::from_micros(70));
    assert_eq!(t.since(SimInstant::epoch()).as_micros(), -20);
    assert!(t.is_before(SimInstant::epoch()));
    assert!(!SimInstant::epoch().is_before(t));
}

#[test]
fn duration_sum_and_difference() {
    let a = SimDuration::from_micros(7);
    let b = SimDuration::from_micros(-3);
    assert_eq!((a + b).as_micros(), 4);
    assert_eq!((a - b).as_micros(), 10);
    let mut c = a;
    c.extend(b);
    assert_eq!(c.as_micros(), 4);
    c.shorten(SimDuration::from_micros(10));
    assert_eq!(c.as_micros(), -6);
}

#[test]
fn remainder_takes_sign_of_dividend() {
    let p = SimDuration::from_micros(10);
    assert_eq!((SimDuration::from_micros(23) % p).as_micros(), 3);
    assert_eq!((SimDuration::from_micros(-23) % p).as_micros(), -3);
    assert_eq!((SimDuration::from_micros(20) % p).as_micros(), 0);
    assert_eq!(SimDuration::from_micros(23).wrap(SimDuration::from_micros(-10)).as_micros(), 3);
    let mut d = SimDuration::from_micros(-7);
    d.wrap_in_place(SimDuration::from_micros(4));
    assert_eq!(d.as_micros(), -3);
}

#[test]
fn large_micro_counts_are_refused() {
    assert_eq!(SimDuration::from_micros_u128(5).map(|d| d.as_micros()), Some(5));
    assert_eq!(
        SimDuration::from_micros_u128(i64::MAX as u128).map(|d| d.as_micros()),
        Some(i64::MAX)
    );
    assert!(SimDuration::from_micros_u128(i64::MAX as u128 + 1).is_none());
}

#[test]
fn timer_starts_at_epoch_and_ticks_ten_millis() {
    let mut timer = SimTimer::new();
    assert_eq!(timer.now(), SimInstant::epoch());
    timer.tick();
    timer.tick();
    assert_eq!(timer.now().since(SimInstant::epoch()).as_micros(), 20_000);
    assert_eq!(SIM_INTERVAL_MICROS, 10_000);
    assert_eq!(sim_interval().as_micros(), 10_000);
    timer.advance(SimDuration::from_micros(-5_000));
    assert_eq!(timer.now().since(SimInstant::epoch()).as_micros(), 15_000);
}

#[test]
fn many_ticks_do_not_drift() {
    let mut timer = SimTimer::new();
    for _ in 0..100_000 {
        timer.tick();
    }
    assert_eq!(timer.now().since(SimInstant::epoch()).as_micros(), 1_000_000_000);
}

#[test]
fn periodic_orbit_time_wraps() {
    let t0 = SimInstant::epoch() + SimDuration::from_micros(1_000);
    let period = SimDuration::from_micros(60_000);
    let later = SimInstant::epoch() + SimDuration::from_micros(1_000 + 3 * 60_000 + 250);
    assert_eq!(time_since_periapsis(later, t0, Some(period)).as_micros(), 250);
    let earlier = SimInstant::epoch() - SimDuration::from_micros(60_000 + 9_000);
    assert_eq!(time_since_periapsis(earlier, t0, Some(period)).as_micros(), -10_000);
    assert_eq!(time_since_periapsis(later, t0, None).as_micros(), 180_250);
}

#[test]
fn one_full_period_returns_to_start() {
    let t0 = SimInstant::epoch() + SimDuration::from_micros(12_345);
    let period = SimDuration::from_micros(987_654);
    let a = time_since_periapsis(t0, t0, Some(period));
    let b = time_since_periapsis(t0 + period, t0, Some(period));
    assert_eq!(a, b);
    assert_eq!(a.as_micros(), 0);
}

#[test]
fn rotation_phase_counts_from_epoch() {
    let day = SimDuration::from_micros(60_000_000);
    let now = SimInstant::epoch() + SimDuration::from_micros(2 * 60_000_000 + 15_000_000);
    assert_eq!(rotation_phase(now, day).as_micros(), 15_000_000);
    let before = SimInstant::epoch() - SimDuration::from_micros(15_000_000);
    assert_eq!(rotation_phase(before, day).as_micros(), -15_000_000);
}

#[test]
fn wall_time_scales_into_sim_time() {
    assert_eq!(scaled_step(16_000, 100_000).map(|d| d.as_micros()), Some(1_600_000_000));
    assert_eq!(scaled_step(0, 100_000).map(|d| d.as_micros()), Some(0));
    assert!(scaled_step(u128::MAX, 2).is_none());
    assert!(scaled_step(i64::MAX as u128, 2).is_none());
    assert_eq!(scaled_step(i64::MAX as u128, 1).map(|d| d.as_micros()), Some(i64::MAX));
}

#[test]
fn whole_periods_reduce_to_zero_both_ways() {
    let t0 = SimInstant::epoch() + SimDuration::from_micros(5_000);
    let period = SimDuration::from_micros(3_600_000);
    for k in -3i64..=3 {
        let t = t0 + SimDuration::from_micros(k * 3_600_000);
        assert_eq!(time_since_periapsis(t, t0, Some(period)).as_micros(), 0);
    }
    let a = t0 + SimDuration::from_micros(1_234);
    let b = t0 + SimDuration::from_micros(1_234 + 2 * 3_600_000);
    assert_eq!(time_since_periapsis(a, t0, Some(period)), time_since_periapsis(b, t0, Some(period)));
    let c = t0 - SimDuration::from_micros(1_234);
    let d = t0 - SimDuration::from_micros(1_234 + 5 * 3_600_000);
    assert_eq!(time_since_periapsis(c, t0, Some(period)).as_micros(), -1_234);
    assert_eq!(time_since_periapsis(d, t0, Some(period)).as_micros(), -1_234);
}

#[test]
fn checked_arithmetic_reports_overflow() {
    let near_end = SimInstant::epoch() + SimDuration::from_micros(i64::MAX - 5);
    assert!(near_end.checked_plus(SimDuration::from_micros(10)).is_none());
    let ok = near_end.checked_plus(SimDuration::from_micros(5)).unwrap();
    assert_eq!(ok.since(SimInstant::epoch()).as_micros(), i64::MAX);
    let near_start = SimInstant::epoch() - SimDuration::from_micros(i64::MAX);
    assert!(near_start.checked_minus(SimDuration::from_micros(2)).is_none());
    assert!(near_end.checked_since(near_start).is_none());
    assert_eq!(
        near_start.checked_minus(SimDuration::from_micros(1)).map(|t| t.since(near_start).as_micros()),
        Some(-1)
    );
    assert_eq!(ok.checked_since(near_end).map(|d| d.as_micros()), Some(5));
}
