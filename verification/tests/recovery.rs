use alec::recovery::{CircuitBreaker, CircuitConfig, CircuitState, DegradationLevel};

#[test]
fn test_circuit_state_default() {
    assert_eq!(CircuitState::default(), CircuitState::Closed);
}

#[test]
fn test_circuit_state_allows_requests() {
    assert!(CircuitState::Closed.allows_requests());
    assert!(!CircuitState::Open.allows_requests());
    assert!(CircuitState::HalfOpen.allows_requests());
}

#[test]
fn test_circuit_breaker_opens() {
    let mut cb = CircuitBreaker::with_config(CircuitConfig { failure_threshold: 3, ..Default::default() });

    assert_eq!(cb.state(), CircuitState::Closed);

    cb.record_failure();
    cb.record_failure();
    assert_eq!(cb.state(), CircuitState::Closed);
    assert_eq!(cb.failure_count(), 2);

    cb.record_failure();
    assert_eq!(cb.state(), CircuitState::Open);
}

#[test]
fn test_circuit_breaker_success_resets_count() {
    let mut cb = CircuitBreaker::with_config(CircuitConfig { failure_threshold: 3, ..Default::default() });

    cb.record_failure();
    cb.record_failure();
    assert_eq!(cb.failure_count(), 2);

    cb.record_success();
    assert_eq!(cb.failure_count(), 0);
}

#[test]
fn test_circuit_breaker_reset() {
    let mut cb = CircuitBreaker::new();
    cb.record_failure();
    cb.record_failure();
    cb.record_failure();
    cb.record_failure();
    cb.record_failure();
    assert_eq!(cb.state(), CircuitState::Open);

    cb.reset();
    assert_eq!(cb.state(), CircuitState::Closed);
    assert_eq!(cb.failure_count(), 0);
}

#[test]
fn test_circuit_breaker_force_open() {
    let mut cb = CircuitBreaker::new();
    assert_eq!(cb.state(), CircuitState::Closed);

    cb.force_open();
    assert_eq!(cb.state(), CircuitState::Open);
}

#[test]
fn test_circuit_breaker_force_closed() {
    let mut cb = CircuitBreaker::new();
    cb.force_open();
    assert_eq!(cb.state(), CircuitState::Open);

    cb.force_closed();
    assert_eq!(cb.state(), CircuitState::Closed);
}

#[test]
fn circuit_breaker_recovers_after_timeout() {
    let mut cb = CircuitBreaker::with_config(CircuitConfig {
        failure_threshold: 1,
        success_threshold: 2,
        ..Default::default()
    });

    cb.record_failure();
    assert_eq!(cb.state(), CircuitState::Open);
    assert!(!cb.should_allow_after(false));

    assert!(cb.should_allow_after(true));
    assert_eq!(cb.state(), CircuitState::HalfOpen);

    cb.record_success();
    assert_eq!(cb.state(), CircuitState::HalfOpen);

    cb.record_success();
    assert_eq!(cb.state(), CircuitState::Closed);
}

#[test]
fn circuit_breaker_half_open_failure_reopens() {
    let mut cb = CircuitBreaker::with_config(CircuitConfig {
        failure_threshold: 1,
        success_threshold: 2,
        ..Default::default()
    });

    cb.record_failure();
    cb.should_allow_after(true);
    assert_eq!(cb.state(), CircuitState::HalfOpen);

    cb.record_failure();
    assert_eq!(cb.state(), CircuitState::Open);
}

#[test]
fn test_degradation_level_ordering() {
    assert!(DegradationLevel::Normal < DegradationLevel::Light);
    assert!(DegradationLevel::Light < DegradationLevel::Moderate);
    assert!(DegradationLevel::Moderate < DegradationLevel::Heavy);
    assert!(DegradationLevel::Heavy < DegradationLevel::Emergency);
}

#[test]
fn test_degradation_level_should_disable() {
    let level = DegradationLevel::Moderate;

    assert!(!level.should_disable(DegradationLevel::Heavy));
    assert!(!level.should_disable(DegradationLevel::Emergency));
    assert!(level.should_disable(DegradationLevel::Moderate));
    assert!(level.should_disable(DegradationLevel::Light));
    assert!(level.should_disable(DegradationLevel::Normal));
}

#[test]
fn test_degradation_level_escalate() {
    assert_eq!(DegradationLevel::Normal.escalate(), DegradationLevel::Light);
    assert_eq!(DegradationLevel::Light.escalate(), DegradationLevel::Moderate);
    assert_eq!(DegradationLevel::Moderate.escalate(), DegradationLevel::Heavy);
    assert_eq!(DegradationLevel::Heavy.escalate(), DegradationLevel::Emergency);
    assert_eq!(DegradationLevel::Emergency.escalate(), DegradationLevel::Emergency);
}

#[test]
fn test_degradation_level_de_escalate() {
    assert_eq!(DegradationLevel::Emergency.de_escalate(), DegradationLevel::Heavy);
    assert_eq!(DegradationLevel::Heavy.de_escalate(), DegradationLevel::Moderate);
    assert_eq!(DegradationLevel::Moderate.de_escalate(), DegradationLevel::Light);
    assert_eq!(DegradationLevel::Light.de_escalate(), DegradationLevel::Normal);
    assert_eq!(DegradationLevel::Normal.de_escalate(), DegradationLevel::Normal);
}

#[test]
fn circuit_breaker_timeout_elapsed_in_ms() {
    let cb = CircuitBreaker::with_config(CircuitConfig { recovery_timeout_ms: 500, ..Default::default() });
    assert!(!cb.timeout_elapsed(499));
    assert!(cb.timeout_elapsed(500));
    assert_eq!(CircuitConfig::default().recovery_timeout_ms, 30_000);
}
