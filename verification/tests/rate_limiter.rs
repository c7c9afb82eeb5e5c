//! The rate limiter, with times in nanoseconds.

use syncpond::rate_limiter::RateLimiter;

const SECOND: u128 = 1_000_000_000;
const MILLI: u128 = 1_000_000;

#[test]
fn test_allow_within_limit() {
    let mut rl = RateLimiter::new();
    let window = 60 * SECOND;
    for i in 0..5 {
        assert!(rl.allow("user_a", 5, window, i));
    }
    assert!(!rl.allow("user_a", 5, window, 5));
}

#[test]
fn test_different_keys_are_independent() {
    let mut rl = RateLimiter::new();
    let window = 60 * SECOND;
    for i in 0..3 {
        rl.allow("key_a", 3, window, i);
    }
    assert!(!rl.allow("key_a", 3, window, 3), "key_a should be rate limited");
    assert!(rl.allow("key_b", 3, window, 4), "key_b should be independent");
}

#[test]
fn test_window_expiry_allows_again() {
    let mut rl = RateLimiter::new();
    let window = 50 * MILLI;
    rl.allow("user", 1, window, 0);
    assert!(!rl.allow("user", 1, window, 1), "should be blocked");
    assert!(
        rl.allow("user", 1, window, 100 * MILLI),
        "should be allowed after window expires"
    );
}

#[test]
fn test_limit_of_zero_always_denies() {
    let mut rl = RateLimiter::new();
    let window = 60 * SECOND;
    assert!(!rl.allow("user", 0, window, 0));
}

#[test]
fn test_stale_keys_are_evicted() {
    let mut rl = RateLimiter::new();
    let window = 10 * MILLI;
    rl.allow("stale_key", 5, window, 0);
    rl.allow("trigger_eviction", 5, window, 30 * MILLI);
    assert!(
        rl.allow("stale_key", 1, window, 30 * MILLI),
        "stale key should be evicted and allowed"
    );
}

#[test]
fn test_default_creates_new_instance() {
    let mut rl: RateLimiter = RateLimiter::default();
    let window = 60 * SECOND;
    assert!(rl.allow("k", 1, window, 0));
}
