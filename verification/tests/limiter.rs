use gleam_finder::limiter::{grant, RateLimiter};

#[test]
fn first_request_goes_out_at_once() {
    let mut limiter = RateLimiter::new(6_000, false);
    assert_eq!(limiter.cooldown(), 6_000);
    assert_eq!(limiter.acquire(&"a.example".to_string(), 1_000), 1_000);
}

#[test]
fn same_host_is_spaced_by_the_cooldown() {
    let mut limiter = RateLimiter::new(6_000, false);
    let host = "a.example".to_string();
    let mut grants = Vec::new();
    for now in [1_000u64, 1_001, 1_002, 8_000, 30_000, 30_000, 35_999, 42_000] {
        grants.push(limiter.acquire(&host, now));
    }
    assert_eq!(grants, vec![1_000, 7_000, 13_000, 19_000, 30_000, 36_000, 42_000, 48_000]);
    for pair in grants.windows(2) {
        assert!(pair[1] - pair[0] >= 6_000);
    }
}

#[test]
fn different_hosts_do_not_wait_for_each_other() {
    let mut limiter = RateLimiter::new(6_000, false);
    assert_eq!(limiter.acquire(&"a.example".to_string(), 1_000), 1_000);
    assert_eq!(limiter.acquire(&"b.example".to_string(), 1_000), 1_000);
    assert_eq!(limiter.acquire(&"c.example".to_string(), 1_000), 1_000);
    assert_eq!(limiter.acquire(&"a.example".to_string(), 1_000), 7_000);
    assert_eq!(limiter.acquire(&"b.example".to_string(), 7_000), 7_000);
    assert_eq!(limiter.acquire(&"undefined".to_string(), 2_000), 2_000);
    assert_eq!(limiter.acquire(&"undefined".to_string(), 2_000), 8_000);
}

#[test]
fn force_mode_spaces_all_requests() {
    let mut limiter = RateLimiter::new(6_000, true);
    assert_eq!(limiter.acquire(&"a.example".to_string(), 1_000), 1_000);
    assert_eq!(limiter.acquire(&"b.example".to_string(), 1_000), 7_000);
    assert_eq!(limiter.acquire(&"c.example".to_string(), 1_000), 13_000);
    assert_eq!(limiter.acquire(&"a.example".to_string(), 50_000), 50_000);
}

#[test]
fn zero_cooldown_never_waits() {
    let mut limiter = RateLimiter::new(0, false);
    let host = "a.example".to_string();
    assert_eq!(limiter.acquire(&host, 5), 5);
    assert_eq!(limiter.acquire(&host, 5), 5);
    assert_eq!(limiter.acquire(&host, 4), 5);
}

#[test]
fn clock_that_runs_backwards_still_waits() {
    let mut limiter = RateLimiter::new(10, false);
    let host = "a.example".to_string();
    assert_eq!(limiter.acquire(&host, 100), 100);
    assert_eq!(limiter.acquire(&host, 50), 110);
}

#[test]
fn grant_time_is_the_later_of_now_and_ready() {
    assert_eq!(grant(None, 10, 7), 7);
    assert_eq!(grant(Some(100), 10, 105), 110);
    assert_eq!(grant(Some(100), 10, 110), 110);
    assert_eq!(grant(Some(100), 10, 111), 111);
    assert_eq!(grant(Some(u64::MAX - 5), 10, 0), u64::MAX);
    assert_eq!(grant(Some(u64::MAX), u64::MAX, u64::MAX), u64::MAX);
}
