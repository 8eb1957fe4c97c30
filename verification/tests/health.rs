use alec::health::{HealthCheck, HealthConfig, HealthMonitor, HealthStatus};
use std::time::Duration;

#[test]
fn test_health_status_is_ok() {
    assert!(HealthStatus::Healthy.is_ok());
    assert!(HealthStatus::Degraded.is_ok());
    assert!(!HealthStatus::Unhealthy.is_ok());
    assert!(!HealthStatus::Unknown.is_ok());
}

#[test]
fn test_health_status_default() {
    assert_eq!(HealthStatus::default(), HealthStatus::Unknown);
}

#[test]
fn test_health_check_healthy() {
    let check = HealthCheck::healthy("test_component");
    assert_eq!(check.component, "test_component");
    assert_eq!(check.status, HealthStatus::Healthy);
    assert_eq!(check.message, "OK");
    assert_eq!(check.latency_ms, 0);
}

#[test]
fn test_health_check_unhealthy() {
    let check = HealthCheck::unhealthy("test_component", "Something is wrong");
    assert_eq!(check.component, "test_component");
    assert_eq!(check.status, HealthStatus::Unhealthy);
    assert_eq!(check.message, "Something is wrong");
}

#[test]
fn test_health_check_degraded() {
    let check = HealthCheck::degraded("test_component", "Running slow");
    assert_eq!(check.component, "test_component");
    assert_eq!(check.status, HealthStatus::Degraded);
    assert_eq!(check.message, "Running slow");
}

#[test]
fn test_health_check_with_latency() {
    let check = HealthCheck::healthy("test").with_latency(50);
    assert_eq!(check.latency_ms, 50);
}

#[test]
fn test_health_monitor_empty() {
    let monitor = HealthMonitor::new();
    assert_eq!(monitor.status(), HealthStatus::Unknown);
    assert!(monitor.checks().is_empty());
}

#[test]
fn test_health_monitor_add_check() {
    let mut monitor = HealthMonitor::new();

    monitor.add_check(HealthCheck::healthy("component_a"));
    assert_eq!(monitor.status(), HealthStatus::Healthy);
    assert_eq!(monitor.checks().len(), 1);

    monitor.add_check(HealthCheck::healthy("component_b"));
    assert_eq!(monitor.status(), HealthStatus::Healthy);
    assert_eq!(monitor.checks().len(), 2);
}

#[test]
fn test_health_monitor_degraded_status() {
    let mut monitor = HealthMonitor::new();

    monitor.add_check(HealthCheck::healthy("component_a"));
    monitor.add_check(HealthCheck::degraded("component_b", "slow"));

    assert_eq!(monitor.status(), HealthStatus::Degraded);
    assert!(monitor.is_operational());
}

#[test]
fn test_health_monitor_unhealthy_status() {
    let mut monitor = HealthMonitor::new();

    monitor.add_check(HealthCheck::healthy("component_a"));
    monitor.add_check(HealthCheck::unhealthy("component_b", "failed"));

    assert_eq!(monitor.status(), HealthStatus::Unhealthy);
    assert!(!monitor.is_operational());
}

#[test]
fn test_health_monitor_replaces_check() {
    let mut monitor = HealthMonitor::new();

    monitor.add_check(HealthCheck::healthy("component_a"));
    assert_eq!(monitor.status(), HealthStatus::Healthy);

    monitor.add_check(HealthCheck::degraded("component_a", "slow"));
    assert_eq!(monitor.checks().len(), 1);
    assert_eq!(monitor.status(), HealthStatus::Degraded);
}

#[test]
fn test_health_monitor_get_check() {
    let mut monitor = HealthMonitor::new();

    monitor.add_check(HealthCheck::healthy("component_a"));
    monitor.add_check(HealthCheck::degraded("component_b", "slow"));

    let check = monitor.get_check("component_a");
    assert!(check.is_some());
    assert_eq!(check.unwrap().status, HealthStatus::Healthy);

    let check = monitor.get_check("component_c");
    assert!(check.is_none());
}

#[test]
fn test_health_monitor_counts() {
    let mut monitor = HealthMonitor::new();

    monitor.add_check(HealthCheck::healthy("a"));
    monitor.add_check(HealthCheck::healthy("b"));
    monitor.add_check(HealthCheck::degraded("c", "slow"));
    monitor.add_check(HealthCheck::unhealthy("d", "failed"));

    assert_eq!(monitor.healthy_count(), 2);
    assert_eq!(monitor.degraded_count(), 1);
    assert_eq!(monitor.unhealthy_count(), 1);
}

#[test]
fn test_health_monitor_clear() {
    let mut monitor = HealthMonitor::new();

    monitor.add_check(HealthCheck::healthy("a"));
    monitor.add_check(HealthCheck::healthy("b"));
    assert_eq!(monitor.checks().len(), 2);

    monitor.clear();
    assert!(monitor.checks().is_empty());
    assert_eq!(monitor.status(), HealthStatus::Unknown);
}

#[test]
fn test_health_monitor_report() {
    let mut monitor = HealthMonitor::new();

    monitor.add_check(HealthCheck::healthy("component_a"));
    monitor.add_check(HealthCheck::degraded("component_b", "running slow"));

    let report = monitor.report();
    assert!(report.contains("System Status: Degraded"));
    assert!(report.contains("component_a"));
    assert!(report.contains("component_b"));
    assert!(report.contains("running slow"));
    assert_eq!(
        report,
        "System Status: Degraded\n\n[Healthy] component_a - OK (0ms)\n[Degraded] component_b - running slow (0ms)\n"
    );
}

#[test]
fn test_health_config_default() {
    let config = HealthConfig::default();
    assert_eq!(config.degraded_latency_ms, 100);
    assert_eq!(config.unhealthy_latency_ms, 1000);
    assert_eq!(config.check_interval, Duration::from_secs(10));
}

#[test]
fn health_status_names_and_healthiness() {
    assert_eq!(HealthStatus::Healthy.name(), "Healthy");
    assert_eq!(HealthStatus::Degraded.name(), "Degraded");
    assert!(HealthStatus::Healthy.is_healthy());
    assert!(!HealthStatus::Degraded.is_healthy());
}

#[test]
fn health_check_message_replaced() {
    let check = HealthCheck::healthy("db").with_message("all good");
    assert_eq!(check.message, "all good");
    assert_eq!(check.status, HealthStatus::Healthy);
}
