use godot_asset_browser::health_checker::{CircuitBreaker, CircuitState, HealthCheckResult, HealthChecker, HealthHistory};

#[test]
fn test_health_check_result() {
    let success = HealthCheckResult::success("test".to_string(), 100);
    assert!(success.success);
    assert_eq!(success.response_time_ms, 100);

    let failure = HealthCheckResult::failure("test".to_string(), "error".to_string());
    assert!(!failure.success);
    assert!(failure.error.is_some());
}

#[test]
fn test_health_history() {
    let mut history = HealthHistory::new(5);

    history.add_result(HealthCheckResult::success("test".to_string(), 100));
    history.add_result(HealthCheckResult::success("test".to_string(), 200));
    history.add_result(HealthCheckResult::failure("test".to_string(), "error".to_string()));

    assert_eq!(history.results().len(), 3);
    let (ok, total) = history.success_counts();
    let success_rate = ok as f64 / total as f64;
    assert!(success_rate > 0.6 && success_rate < 0.7);
    let (sum, count) = history.average_response_parts();
    let average_response_time = sum as f64 / count as f64;
    assert!(average_response_time > 0.0);
}

#[test]
fn test_circuit_breaker() {
    let mut cb = CircuitBreaker::new(3, 60_000);

    assert_eq!(cb.state(), CircuitState::Closed);
    assert!(cb.should_allow_request());

    // Record failures
    cb.record_failure();
    cb.record_failure();
    assert_eq!(cb.state(), CircuitState::Closed);

    cb.record_failure();
    assert_eq!(cb.state(), CircuitState::Open);
    assert!(!cb.should_allow_request());

    // Record success should close circuit
    cb.record_success();
    assert_eq!(cb.state(), CircuitState::Closed);
    assert!(cb.should_allow_request());
}

#[test]
fn test_health_checker() {
    let mut checker = HealthChecker::new();

    let result = HealthCheckResult::success("source1".to_string(), 150);
    checker.record_result(result);

    let history = checker.get_history("source1");
    assert!(history.is_some());
    assert_eq!(history.unwrap().results().len(), 1);
}

// Further cases

#[test]
fn test_history_keeps_most_recent() {
    let mut history = HealthHistory::new(2);
    history.add_result(HealthCheckResult::success_at("s".to_string(), 1, 10));
    history.add_result(HealthCheckResult::success_at("s".to_string(), 2, 20));
    history.add_result(HealthCheckResult::success_at("s".to_string(), 3, 30));
    assert_eq!(history.results().len(), 2);
    assert_eq!(history.results()[0].response_time_ms, 2);
    assert_eq!(history.latest().unwrap().response_time_ms, 3);
}

#[test]
fn test_open_breaker_half_opens_after_timeout() {
    let mut cb = CircuitBreaker::new(1, 1_000);
    cb.record_failure_at(5_000);
    assert_eq!(cb.state(), CircuitState::Open);
    assert!(!cb.should_allow_request_at(5_500));
    assert!(cb.should_allow_request_at(6_001));
    assert_eq!(cb.state(), CircuitState::HalfOpen);
}

#[test]
fn test_breaker_rejects_check() {
    let mut checker = HealthChecker::new().configure(1, 60_000, 10);
    let r = checker.finish_check_at("src", Err("down".to_string()), 5, 100);
    assert!(!r.success);
    assert_eq!(checker.get_circuit_state("src"), Some(CircuitState::Open));
    let refused = checker.admit_check_at("src", 200).unwrap();
    assert_eq!(refused.error.as_deref(), Some("Circuit breaker is open"));
}
