use axum_rate_limiter::hashmap::InMemoryLimiter as CountingLimiter;
use axum_rate_limiter::memory::InMemoryLimiter as SlidingLimiter;
use axum_rate_limiter::table::{window_end, window_fits_at, TIMESTAMP_MAX_NANOS, WINDOW_NANOS};

const T0: i128 = 1_700_000_000_000_000_000;
const SEC: i128 = 1_000_000_000;

#[test]
fn window_arithmetic() {
    assert_eq!(WINDOW_NANOS, 60 * SEC);
    assert_eq!(window_end(T0), T0 + 60 * SEC);
    assert!(window_fits_at(T0));
    assert!(window_fits_at(TIMESTAMP_MAX_NANOS - WINDOW_NANOS));
    assert!(!window_fits_at(TIMESTAMP_MAX_NANOS - WINDOW_NANOS + 1));
}

#[test]
fn counting_limiter_admits_max_per_window() {
    let mut l = CountingLimiter::new();
    assert!(l.is_empty());
    let results: Vec<bool> = (0..7).map(|i| l.allow("1.2.3.4", T0 + i * SEC)).collect();
    assert_eq!(results, vec![true, true, true, false, false, false, false]);
    assert_eq!(l.len(), 1);
    assert!(!l.is_empty());
    let e = l.entry("1.2.3.4").unwrap();
    assert_eq!(e.tries, 7);
    assert_eq!(e.expiry, T0 + WINDOW_NANOS);
}

#[test]
fn counting_limiter_counts_at_window_end_and_resets_after() {
    let mut l = CountingLimiter::new();
    for _ in 0..3 {
        assert!(l.allow("a", T0));
    }
    assert!(!l.allow("a", T0 + WINDOW_NANOS));
    assert!(l.allow("a", T0 + WINDOW_NANOS + 1));
    let e = l.entry("a").unwrap();
    assert_eq!(e.tries, 1);
    assert_eq!(e.expiry, T0 + WINDOW_NANOS + 1 + WINDOW_NANOS);
}

#[test]
fn counting_limiter_keeps_identifiers_apart() {
    let mut l = CountingLimiter::new();
    for _ in 0..4 {
        l.allow("a", T0);
    }
    assert!(!l.allow("a", T0));
    assert!(l.allow("b", T0));
    assert_eq!(l.entry("b").unwrap().tries, 1);
    assert_eq!(l.len(), 2);
    assert!(l.entry("c").is_none());
}

#[test]
fn counting_limiter_cleanup_drops_closed_windows() {
    let mut l = CountingLimiter::new();
    l.allow("old", T0);
    l.allow("edge", T0 + SEC);
    l.allow("new", T0 + 2 * SEC);
    l.cleanup(T0 + SEC + WINDOW_NANOS);
    assert!(l.entry("old").is_none());
    assert!(l.entry("edge").is_some());
    assert!(l.entry("new").is_some());
    assert_eq!(l.len(), 2);
    l.cleanup(T0 + SEC + WINDOW_NANOS + 1);
    assert!(l.entry("edge").is_none());
    assert_eq!(l.len(), 1);
    l.cleanup(T0 + 10 * WINDOW_NANOS);
    assert!(l.is_empty());
}

#[test]
fn counting_limiter_cleanup_does_not_change_later_answers() {
    let mut swept = CountingLimiter::new();
    let mut kept = CountingLimiter::new();
    for _ in 0..6 {
        swept.allow("a", T0);
        kept.allow("a", T0);
    }
    swept.cleanup(T0 + WINDOW_NANOS);
    let later = T0 + WINDOW_NANOS + 1;
    assert_eq!(swept.allow("a", later), kept.allow("a", later));
    assert_eq!(swept.entry("a").unwrap().tries, kept.entry("a").unwrap().tries);
}

#[test]
fn counting_limiter_can_allow_checks_clock() {
    assert!(CountingLimiter::can_allow(T0));
    assert!(!CountingLimiter::can_allow(TIMESTAMP_MAX_NANOS));
}

#[test]
fn sliding_limiter_admits_max_then_refuses_without_counting() {
    let mut l = SlidingLimiter::new();
    assert!(l.is_empty());
    let results: Vec<bool> = (0..7).map(|i| l.allow("a", T0 + i * SEC)).collect();
    assert_eq!(results, vec![true, true, true, true, true, false, false]);
    let e = l.entry("a").unwrap();
    assert_eq!(e.tries, 5);
    assert_eq!(e.expiry, T0 + 4 * SEC + WINDOW_NANOS);
    assert_eq!(l.len(), 1);
}

#[test]
fn sliding_limiter_window_moves_with_allowed_requests() {
    let mut l = SlidingLimiter::new();
    for i in 0..5 {
        assert!(l.allow("a", T0 + i * 30 * SEC));
    }
    assert!(!l.allow("a", T0 + 4 * 30 * SEC + WINDOW_NANOS));
    assert!(l.allow("a", T0 + 4 * 30 * SEC + WINDOW_NANOS + 1));
    let e = l.entry("a").unwrap();
    assert_eq!(e.tries, 0);
}

#[test]
fn sliding_limiter_reopened_window_admits_one_extra() {
    let mut l = SlidingLimiter::new();
    for _ in 0..5 {
        assert!(l.allow("a", T0));
    }
    let t1 = T0 + WINDOW_NANOS + 1;
    let results: Vec<bool> = (0..7).map(|_| l.allow("a", t1)).collect();
    assert_eq!(results, vec![true, true, true, true, true, true, false]);
}

#[test]
fn sliding_limiter_cleanup_and_len() {
    let mut l = SlidingLimiter::new();
    l.allow("a", T0);
    l.allow("b", T0 + 2 * WINDOW_NANOS);
    assert_eq!(l.len(), 2);
    l.cleanup(T0 + WINDOW_NANOS);
    assert_eq!(l.len(), 2);
    l.cleanup(T0 + WINDOW_NANOS + 1);
    assert_eq!(l.len(), 1);
    assert!(l.entry("a").is_none());
    assert_eq!(l.entry("b").unwrap().tries, 1);
    assert!(SlidingLimiter::can_allow(T0));
    assert!(!SlidingLimiter::can_allow(TIMESTAMP_MAX_NANOS));
}

#[test]
fn limiters_read_the_clock() {
    let mut l = CountingLimiter::new();
    let (now, decision) = l.allow_now("a");
    assert_eq!(decision, Some(true));
    assert!(now > 1_600_000_000_000_000_000);
    assert_eq!(l.entry("a").unwrap().expiry, now + WINDOW_NANOS);
    let swept_at = l.cleanup_now();
    assert!(swept_at >= now);
    assert_eq!(l.len(), 1);

    let mut s = SlidingLimiter::new();
    let (now, decision) = s.allow_now("a");
    assert_eq!(decision, Some(true));
    assert_eq!(s.entry("a").unwrap().expiry, now + WINDOW_NANOS);
    assert!(s.cleanup_now() >= now);
    assert_eq!(s.len(), 1);
}

#[test]
fn counting_limiter_default_is_empty() {
    let l = CountingLimiter::default();
    assert!(l.is_empty());
    assert_eq!(l.len(), 0);
}

#[test]
fn counting_limiter_sweep_at_window_end_keeps_the_limit() {
    let mut swept = CountingLimiter::new();
    let mut kept = CountingLimiter::new();
    for _ in 0..3 {
        assert!(swept.allow("a", T0));
        assert!(kept.allow("a", T0));
    }
    swept.cleanup(T0 + WINDOW_NANOS);
    assert!(!swept.allow("a", T0 + WINDOW_NANOS));
    assert!(!kept.allow("a", T0 + WINDOW_NANOS));
}

#[test]
fn sliding_limiter_sweep_at_window_end_keeps_the_limit() {
    let mut l = SlidingLimiter::new();
    for _ in 0..5 {
        assert!(l.allow("a", T0));
    }
    l.cleanup(T0 + WINDOW_NANOS);
    assert_eq!(l.len(), 1);
    assert!(!l.allow("a", T0 + WINDOW_NANOS));
}
