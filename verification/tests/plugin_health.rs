use cairn_runtime::plugin_health::PluginHealthMonitor;

#[test]
fn new_plugin_is_unhealthy_until_first_heartbeat() {
    let monitor = PluginHealthMonitor::new();
    assert!(!monitor.is_healthy("unknown-plugin"));
}

#[test]
fn heartbeat_makes_plugin_healthy() {
    let mut monitor = PluginHealthMonitor::new();
    monitor.record_heartbeat("p1");
    assert!(monitor.is_healthy("p1"));
}

#[test]
fn stale_heartbeat_marks_unhealthy() {
    let mut monitor = PluginHealthMonitor::with_timeout_ms(1);
    monitor.record_heartbeat_at("p1", 100);
    assert!(!monitor.is_healthy_at("p1", 105));
    assert!(monitor.is_healthy_at("p1", 100));
}

#[test]
fn unhealthy_plugins_returns_stale_ids() {
    let mut monitor = PluginHealthMonitor::with_timeout_ms(1);
    monitor.record_heartbeat_at("p1", 100);
    monitor.record_heartbeat_at("p2", 100);
    let unhealthy = monitor.unhealthy_plugins_at(105);
    assert!(unhealthy.contains(&"p1".to_owned()));
    assert!(unhealthy.contains(&"p2".to_owned()));
}

#[test]
fn fresh_heartbeat_not_in_unhealthy_list() {
    let mut monitor = PluginHealthMonitor::with_timeout_ms(60_000);
    monitor.record_heartbeat("p1");
    assert!(monitor.unhealthy_plugins().is_empty());
}

#[test]
fn record_error_stores_message() {
    let mut monitor = PluginHealthMonitor::new();
    monitor.record_heartbeat("p1");
    monitor.record_error("p1", "segfault".into());
    let state = monitor.get("p1").unwrap();
    assert_eq!(state.last_error.as_deref(), Some("segfault"));
}

#[test]
fn record_missed_increments_counter() {
    let mut monitor = PluginHealthMonitor::new();
    monitor.record_heartbeat("p1");
    monitor.record_missed("p1");
    monitor.record_missed("p1");
    assert_eq!(monitor.get("p1").unwrap().consecutive_missed, 2);
}

#[test]
fn heartbeat_resets_missed_counter() {
    let mut monitor = PluginHealthMonitor::new();
    monitor.record_heartbeat("p1");
    monitor.record_missed("p1");
    monitor.record_missed("p1");
    monitor.record_heartbeat("p1");
    assert_eq!(monitor.get("p1").unwrap().consecutive_missed, 0);
}

#[test]
fn remove_clears_state() {
    let mut monitor = PluginHealthMonitor::new();
    monitor.record_heartbeat("p1");
    assert_eq!(monitor.tracked_count(), 1);
    monitor.remove("p1");
    assert_eq!(monitor.tracked_count(), 0);
    assert!(monitor.get("p1").is_none());
}

#[test]
fn heartbeat_timeout_boundary_is_exclusive() {
    let mut monitor = PluginHealthMonitor::with_timeout_ms(30);
    monitor.record_heartbeat_at("p1", 1_000);
    assert!(monitor.is_healthy_at("p1", 1_029));
    assert!(!monitor.is_healthy_at("p1", 1_030));
}
