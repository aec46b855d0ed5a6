use agent_core::circuit_breaker::{BreakerState, CircuitBreaker, CircuitBreakerError};

#[test]
fn test_closed_allows_requests() {
    let mut cb = CircuitBreaker::new();
    assert!(cb.check().is_ok());
}

#[test]
fn test_opens_after_threshold() {
    let mut cb = CircuitBreaker::with_config(3, 60_000, 1);
    for _ in 0..3 {
        cb.record_failure();
    }
    assert!(cb.check().is_err());
}

#[test]
fn test_success_resets_counter() {
    let mut cb = CircuitBreaker::with_config(3, 60_000, 1);
    cb.record_failure();
    cb.record_failure();
    cb.record_success();
    cb.record_failure();
    assert!(cb.check().is_ok());
}

#[test]
fn test_half_open_on_timeout() {
    let mut cb = CircuitBreaker::with_config(1, 50, 1);
    cb.record_failure_at(1_000);
    assert!(cb.check_at(1_010).is_err());
    assert!(cb.check_at(1_060).is_ok());
    assert_eq!(cb.state(), BreakerState::HalfOpen);
}

#[test]
fn test_half_open_success_closes() {
    let mut cb = CircuitBreaker::with_config(1, 50, 1);
    cb.record_failure_at(1_000);
    assert!(cb.check_at(1_060).is_ok());
    cb.record_success();
    assert!(cb.check_at(1_061).is_ok());
    assert!(cb.check_at(1_062).is_ok());
    assert_eq!(cb.state(), BreakerState::Closed);
}

#[test]
fn test_half_open_failure_reopens() {
    let mut cb = CircuitBreaker::with_config(1, 50, 1);
    cb.record_failure_at(1_000);
    assert!(cb.check_at(1_060).is_ok());
    cb.record_failure_at(1_061);
    assert!(cb.check_at(1_062).is_err());
    assert_eq!(cb.state(), BreakerState::Open);
}

#[test]
fn open_circuit_reports_remaining_cooldown() {
    let mut cb = CircuitBreaker::with_config(2, 30_000, 1);
    cb.record_failure_at(10_000);
    cb.record_failure_at(10_500);
    assert_eq!(cb.check_at(12_500), Err(CircuitBreakerError::Open { remaining_ms: 28_000 }));
}

#[test]
fn half_open_admits_only_the_configured_trials() {
    let mut cb = CircuitBreaker::with_config(1, 100, 2);
    cb.record_failure_at(5_000);
    assert!(cb.check_at(5_200).is_ok());
    assert!(cb.check_at(5_201).is_ok());
    assert_eq!(cb.check_at(5_202), Err(CircuitBreakerError::Open { remaining_ms: 100 }));
}

#[test]
fn clock_going_back_counts_as_long_elapsed() {
    let mut cb = CircuitBreaker::with_config(1, 60_000, 1);
    cb.record_failure_at(2_000_000);
    assert!(cb.check_at(1_000_000).is_ok());
}

#[test]
fn default_breaker_is_closed() {
    let cb = CircuitBreaker::default();
    assert_eq!(cb.state(), BreakerState::Closed);
}

#[test]
fn open_success_closes() {
    let mut cb = CircuitBreaker::with_config(1, 60_000, 1);
    cb.record_failure_at(1_000);
    assert_eq!(cb.state(), BreakerState::Open);
    cb.record_success();
    assert_eq!(cb.state(), BreakerState::Closed);
    assert!(cb.check_at(1_001).is_ok());
}
