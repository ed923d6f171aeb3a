use rate_fanout::limiter::{Admission, RateLimiter};

// The reference configuration: 240 permits per one-minute window (in
// milliseconds), burst of 1.
const RATE: u64 = 240;
const WINDOW_MS: u64 = 60_000;

/// Acquires one permit, advancing the simulated clock as the limiter
/// directs; returns the admission time.
fn obtain_permit(limiter: &mut RateLimiter, now: &mut u64) -> u64 {
    loop {
        match limiter.acquire(*now) {
            Admission::Granted => return *now,
            Admission::Retry { ready_at } => {
                assert!(ready_at > *now);
                *now = ready_at;
            }
        }
    }
}

#[test]
fn test_first_burst_is_immediate() {
    let mut limiter = RateLimiter::new(RATE, WINDOW_MS, 1, 0);
    assert_eq!(limiter.acquire(0), Admission::Granted);
}

#[test]
fn test_second_request_waits_one_interval() {
    let mut limiter = RateLimiter::new(RATE, WINDOW_MS, 1, 0);
    assert_eq!(limiter.acquire(0), Admission::Granted);
    // 60_000 ms / 240 permits = one permit every 250 ms.
    assert_eq!(limiter.acquire(0), Admission::Retry { ready_at: 250 });
    assert_eq!(limiter.acquire(249), Admission::Retry { ready_at: 250 });
    assert_eq!(limiter.acquire(250), Admission::Granted);
}

#[test]
fn test_burst_of_five_is_immediate() {
    let mut limiter = RateLimiter::new(RATE, WINDOW_MS, 5, 0);
    for _ in 0..5 {
        assert_eq!(limiter.acquire(0), Admission::Granted);
    }
    assert!(matches!(limiter.acquire(0), Admission::Retry { .. }));
}

#[test]
fn test_retry_hint_is_exact() {
    let mut limiter = RateLimiter::new(RATE, WINDOW_MS, 1, 1_000);
    assert_eq!(limiter.acquire(1_000), Admission::Granted);
    match limiter.acquire(1_000) {
        Admission::Retry { ready_at } => {
            // One tick earlier must still be refused.
            assert!(matches!(
                limiter.acquire(ready_at - 1),
                Admission::Retry { .. }
            ));
            assert_eq!(limiter.acquire(ready_at), Admission::Granted);
        }
        Admission::Granted => panic!("burst of one admits only one request at once"),
    }
}

#[test]
fn test_rate_bound_in_first_window() {
    // With burst 1, a full window admits exactly `RATE` requests.
    let mut limiter = RateLimiter::new(RATE, WINDOW_MS, 1, 0);
    let mut now: u64 = 0;
    let mut grants_in_window: u64 = 0;
    loop {
        let t = obtain_permit(&mut limiter, &mut now);
        if t >= WINDOW_MS {
            break;
        }
        grants_in_window += 1;
    }
    assert_eq!(grants_in_window, RATE);
}

#[test]
fn test_spacing_is_one_interval() {
    let mut limiter = RateLimiter::new(RATE, WINDOW_MS, 1, 0);
    let mut now: u64 = 0;
    let mut last: Option<u64> = None;
    for _ in 0..1_000 {
        let t = obtain_permit(&mut limiter, &mut now);
        if let Some(prev) = last {
            assert_eq!(t - prev, 250);
        }
        last = Some(t);
    }
}

#[test]
fn test_ten_thousand_admissions_elapsed_time() {
    // 10,000 admissions at 240 per minute with burst 1: the first is free,
    // every further one costs 250 ms, so the last is admitted at
    // 9,999 * 250 ms = 2,499,750 ms — within the 42nd one-minute window.
    let mut limiter = RateLimiter::new(RATE, WINDOW_MS, 1, 0);
    let mut now: u64 = 0;
    let mut last: u64 = 0;
    for _ in 0..10_000u32 {
        last = obtain_permit(&mut limiter, &mut now);
    }
    assert_eq!(last, 9_999 * 250);
    assert_eq!(last.div_ceil(WINDOW_MS), 42);
}

#[test]
fn test_rate_not_dividing_window() {
    // 7 permits per 100 time units: the wait for the next permit is exactly
    // ceil(100 / 7) = 15 time units, with no divisibility assumption.
    let mut limiter = RateLimiter::new(7, 100, 1, 0);
    let mut now: u64 = 0;
    let mut times = Vec::new();
    for _ in 0..8 {
        times.push(obtain_permit(&mut limiter, &mut now));
    }
    assert_eq!(times, vec![0, 15, 30, 45, 60, 75, 90, 105]);
}
