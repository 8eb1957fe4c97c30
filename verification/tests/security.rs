use alec::security::{
    validate_fingerprint, AuditEvent, AuditEventType, AuditFilter, AuditLogger, CertValidation, MemoryAuditLogger,
    SecurityConfig, Severity,
};

#[test]
fn test_security_config_default() {
    let config = SecurityConfig::default();
    assert!(!config.tls_enabled);
    assert!(!config.mtls_required);
    assert!(!config.audit_enabled);
    assert!(config.rate_limit.is_none());
}

#[test]
fn test_security_config_secure() {
    let config = SecurityConfig::secure();
    assert!(config.tls_enabled);
    assert!(config.mtls_required);
    assert!(config.audit_enabled);
    assert!(config.rate_limit.is_some());
}

#[test]
fn test_audit_logger() {
    let mut logger = MemoryAuditLogger::new(100);

    logger.log(AuditEvent::new(AuditEventType::ConnectionEstablished, "New connection").with_emitter(42));

    let events = logger.events();
    assert_eq!(events.len(), 1);
    assert_eq!(events[0].emitter_id, Some(42));
    assert_eq!(events[0].event_type, AuditEventType::ConnectionEstablished);
}

#[test]
fn test_audit_logger_max_events() {
    let mut logger = MemoryAuditLogger::new(3);

    for i in 0..5 {
        logger.log(AuditEvent::new(AuditEventType::MessageReceived, &format!("Message {}", i)));
    }

    let events = logger.events();
    assert_eq!(events.len(), 3);
    assert!(events[0].details.contains("Message 2"));
    assert!(events[2].details.contains("Message 4"));
}

#[test]
fn test_audit_filter() {
    let mut logger = MemoryAuditLogger::new(100);

    logger.log(
        AuditEvent::new(AuditEventType::MessageReceived, "msg1").with_emitter(1).with_severity(Severity::Info),
    );
    logger.log(
        AuditEvent::new(AuditEventType::AnomalyDetected, "anomaly").with_emitter(2).with_severity(Severity::High),
    );
    logger.log(
        AuditEvent::new(AuditEventType::MessageReceived, "msg2").with_emitter(1).with_severity(Severity::Info),
    );

    let filter = AuditFilter { event_type: Some(AuditEventType::MessageReceived), ..Default::default() };
    let results = logger.query(&filter);
    assert_eq!(results.len(), 2);

    let filter = AuditFilter { emitter_id: Some(2), ..Default::default() };
    let results = logger.query(&filter);
    assert_eq!(results.len(), 1);

    let filter = AuditFilter { min_severity: Some(Severity::High), ..Default::default() };
    let results = logger.query(&filter);
    assert_eq!(results.len(), 1);
}

#[test]
fn test_fingerprint_validation() {
    let allowed = vec!["abc123".to_string(), "def456".to_string()];

    assert_eq!(validate_fingerprint("abc123", &allowed), CertValidation::Valid);
    assert_eq!(validate_fingerprint("def456", &allowed), CertValidation::Valid);
    assert_eq!(validate_fingerprint("unknown", &allowed), CertValidation::FingerprintMismatch);
    assert_eq!(validate_fingerprint("anything", &[]), CertValidation::Valid);
}

#[test]
fn test_audit_event_log_line() {
    let event =
        AuditEvent::new(AuditEventType::AuthFailure, "Invalid credentials").with_emitter(123).with_severity(Severity::High);

    let line = event.to_log_line();
    assert!(line.contains("AUTH_FAILURE"));
    assert!(line.contains("emitter=123"));
    assert!(line.contains("Invalid credentials"));
}

#[test]
fn test_severity_ordering() {
    assert!(Severity::Info < Severity::Low);
    assert!(Severity::Low < Severity::Medium);
    assert!(Severity::Medium < Severity::High);
    assert!(Severity::High < Severity::Critical);
}

#[test]
fn log_line_exact_layout() {
    let event = AuditEvent::with_timestamp(AuditEventType::AuthFailure, "bad key", 1700)
        .with_emitter(7)
        .with_severity(Severity::High);
    assert_eq!(event.to_log_line(), "[1700] High AUTH_FAILURE emitter=7 - bad key");
    let event = AuditEvent::with_timestamp(AuditEventType::MessageReceived, "x", 0);
    assert_eq!(event.to_log_line(), "[0] Info MESSAGE_RECEIVED - x");
}

#[test]
fn severity_levels_roundtrip() {
    for level in 1u8..6 {
        assert_eq!(Severity::from(level).to_level(), level);
    }
    assert_eq!(Severity::from(0), Severity::Info);
    assert_eq!(Severity::from(200), Severity::Critical);
}

#[test]
fn logger_keeps_order_and_clears() {
    let mut logger = MemoryAuditLogger::new(2);
    logger.log(AuditEvent::with_timestamp(AuditEventType::MessageReceived, "a", 1).with_emitter(1));
    logger.log(AuditEvent::with_timestamp(AuditEventType::AnomalyDetected, "b", 2).with_emitter(2));
    assert_eq!(logger.events_by_type(AuditEventType::AnomalyDetected).len(), 1);
    assert_eq!(logger.events_by_emitter(1).len(), 1);
    let filter = AuditFilter { from_timestamp: Some(2), ..Default::default() };
    assert_eq!(logger.query(&filter).len(), 1);
    logger.clear();
    assert!(logger.is_empty());
}

#[test]
fn rate_limit_config_sets_both_limits() {
    let config = SecurityConfig::with_rate_limit(10, 5);
    assert_eq!(config.rate_limit, Some(10));
    assert_eq!(config.rate_burst, Some(5));
    let config = SecurityConfig::new().allow_fingerprint("ff00");
    assert_eq!(config.allowed_fingerprints, vec!["ff00".to_string()]);
}

use alec::security::{RateLimiter, SecurityContext};

#[test]
fn test_rate_limiter_burst() {
    let mut limiter = RateLimiter::new(10, 5);

    for i in 0..5 {
        assert!(limiter.check(1, 0), "Request {} should pass", i);
    }

    assert!(!limiter.check(1, 0), "6th request should fail");
}

#[test]
fn test_rate_limiter_refill() {
    let mut limiter = RateLimiter::new(10, 5);

    for _ in 0..5 {
        limiter.check(1, 0);
    }
    assert!(!limiter.check(1, 0));

    assert!(limiter.check(1, 1));
}

#[test]
fn test_rate_limiter_multiple_emitters() {
    let mut limiter = RateLimiter::new(10, 3);

    assert!(limiter.check(1, 0));
    assert!(limiter.check(1, 0));
    assert!(limiter.check(1, 0));
    assert!(!limiter.check(1, 0));

    assert!(limiter.check(2, 0));
}

#[test]
fn test_security_context() {
    let config = SecurityConfig::with_rate_limit(10, 5);
    let mut ctx = SecurityContext::new(config);

    for _ in 0..5 {
        assert!(ctx.check_rate_limit(1, 0));
    }
    assert!(!ctx.check_rate_limit(1, 0));
}

#[test]
fn rate_limiter_peek_remaining_and_reset() {
    let mut limiter = RateLimiter::new(2, 4);
    assert_eq!(limiter.remaining(9), 4);
    assert!(limiter.would_allow(9, 100));
    assert_eq!(limiter.tracked_count(), 0);
    for _ in 0..4 {
        assert!(limiter.check(9, 100));
    }
    assert_eq!(limiter.remaining(9), 0);
    assert!(!limiter.would_allow(9, 100));
    // One second refills two tokens, capped at the burst.
    assert!(limiter.would_allow(9, 101));
    assert!(limiter.check(9, 101));
    assert_eq!(limiter.remaining(9), 1);
    assert!(limiter.check(9, 1_000_000));
    assert_eq!(limiter.remaining(9), 3);
    // A clock that goes back refills nothing.
    assert!(limiter.check(9, 5));
    assert_eq!(limiter.remaining(9), 2);
    assert_eq!(limiter.tracked_count(), 1);
    limiter.reset(9);
    assert_eq!(limiter.tracked_count(), 0);
    assert_eq!(limiter.remaining(9), 4);
    limiter.check(1, 0);
    limiter.check(2, 0);
    limiter.reset_all();
    assert_eq!(limiter.tracked_count(), 0);
}

#[test]
fn rate_limiter_zero_rate_never_refills() {
    let mut limiter = RateLimiter::new(0, 1);
    assert!(limiter.check(1, 0));
    assert!(!limiter.check(1, u64::MAX));
}

#[test]
fn security_context_defaults_and_cert_checks() {
    let mut ctx = SecurityContext::default();
    assert!(ctx.rate_limiter.is_none());
    assert!(ctx.check_rate_limit(1, 0));
    assert_eq!(ctx.validate_cert("anything"), CertValidation::Valid);

    let config = SecurityConfig::secure().allow_fingerprint("aa:bb");
    let ctx = SecurityContext::new(config);
    assert_eq!(ctx.validate_cert("aa:bb"), CertValidation::Valid);
    assert_eq!(ctx.validate_cert("cc"), CertValidation::FingerprintMismatch);

    // Burst defaults to a tenth of the rate, at least 1.
    let mut config = SecurityConfig::default();
    config.rate_limit = Some(5);
    let mut ctx = SecurityContext::new(config);
    assert!(ctx.check_rate_limit(3, 0));
    assert!(!ctx.check_rate_limit(3, 0));
    assert_eq!(ctx.rate_limiter.as_ref().unwrap().remaining(3), 0);
}

#[test]
fn security_context_audits_when_enabled() {
    let mut ctx = SecurityContext::new(SecurityConfig::with_audit()).with_memory_audit(4);
    ctx.audit(AuditEvent::new(AuditEventType::AuthFailure, "bad"));
    ctx.flush();
    let mut quiet = SecurityContext::default().with_memory_audit(4);
    quiet.audit(AuditEvent::new(AuditEventType::AuthFailure, "bad"));
}
