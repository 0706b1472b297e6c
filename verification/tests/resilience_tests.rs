use stream_recorder::errors::AppError;
use stream_recorder::resilience::{
    CircuitBreaker, CircuitState, HealthCheck, MemoryMonitor, RetryDecision, RetryState,
};

#[test]
fn breaker_trips_after_threshold_failures() {
    let ctx = "storage".to_string();
    let mut b = CircuitBreaker::new(3, 60);
    assert!(b.try_acquire(0, &ctx).is_ok());
    b.record_failure(1);
    assert!(b.try_acquire(1, &ctx).is_ok());
    b.record_failure(2);
    assert!(b.try_acquire(2, &ctx).is_ok());
    b.record_failure(3);
    // Three consecutive failures reach the threshold: the next call is
    // refused at once, without the underlying operation.
    assert_eq!(b.state, CircuitState::Open);
    match b.try_acquire(4, &ctx) {
        Err(AppError::ServiceUnavailable(m)) => assert_eq!(m, "storage"),
        other => panic!("expected ServiceUnavailable, got {:?}", other),
    }
}

#[test]
fn breaker_allows_one_trial_after_cooldown() {
    let ctx = "cache".to_string();
    let mut b = CircuitBreaker::new(2, 60);
    b.record_failure(100);
    b.record_failure(100);
    assert_eq!(b.state, CircuitState::Open);
    // Still inside the cooldown window.
    assert!(b.try_acquire(159, &ctx).is_err());
    // Cooldown elapsed: exactly one trial call passes.
    assert!(b.try_acquire(160, &ctx).is_ok());
    assert_eq!(b.state, CircuitState::HalfOpen);
    // A second caller while the trial is in flight is refused.
    assert!(b.try_acquire(161, &ctx).is_err());
    // The trial's success closes the breaker and clears the count.
    b.record_success();
    assert_eq!(b.state, CircuitState::Closed);
    assert_eq!(b.failure_count, 0);
    assert!(b.try_acquire(162, &ctx).is_ok());
}

#[test]
fn breaker_failed_trial_reopens() {
    let ctx = "db".to_string();
    let mut b = CircuitBreaker::new(1, 10);
    b.record_failure(0);
    assert!(b.try_acquire(10, &ctx).is_ok());
    assert_eq!(b.state, CircuitState::HalfOpen);
    b.record_failure(10);
    assert_eq!(b.state, CircuitState::Open);
    assert!(b.try_acquire(15, &ctx).is_err());
}

#[test]
fn backoff_doubles_and_gives_up() {
    // Initial delay 100 ms, budget of 4 attempts: the k-th retry waits
    // 100 * 2^(k-1), and the fourth failure surfaces the error.
    let mut r = RetryState::new(4, 100);
    assert_eq!(r.on_failure(), RetryDecision::RetryAfter(100));
    assert_eq!(r.on_failure(), RetryDecision::RetryAfter(200));
    assert_eq!(r.on_failure(), RetryDecision::RetryAfter(400));
    assert_eq!(r.on_failure(), RetryDecision::GiveUp);
}

#[test]
fn backoff_single_attempt_gives_up_at_once() {
    let mut r = RetryState::new(1, 50);
    assert_eq!(r.on_failure(), RetryDecision::GiveUp);
}

#[test]
fn health_check_records_latest_probe() {
    let mut h = HealthCheck::new();
    assert!(h.is_healthy());
    assert_eq!(h.last_check_time(), 0);
    assert!(!h.record_health(false, 500));
    assert!(!h.is_healthy());
    assert_eq!(h.last_check_time(), 500);
    assert!(h.record_health(true, 900));
    assert!(h.is_healthy());
    assert_eq!(h.last_check_time(), 900);
}

#[test]
fn memory_monitor_compares_against_threshold() {
    let mut m = MemoryMonitor::new(2);
    // 2 MiB threshold, in bytes.
    assert!(m.check_memory(2 * 1024 * 1024));
    assert!(!m.check_memory(2 * 1024 * 1024 + 1));
    assert_eq!(m.last_usage, 2 * 1024 * 1024 + 1);
}
