use cairn_runtime::provider_health_tracker::ProviderHealthTracker;

#[test]
fn new_provider_is_healthy() {
    let tracker = ProviderHealthTracker::new();
    assert!(tracker.is_healthy("unknown"));
    assert!(tracker.get("unknown").is_none());
}

#[test]
fn success_rate_tracks_correctly() {
    let mut tracker = ProviderHealthTracker::new();
    let id = "p1";
    tracker.record_success(id, 100);
    tracker.record_success(id, 200);
    tracker.record_failure(id, 50, "timeout".into());

    let stats = tracker.get(id).unwrap();
    assert_eq!(stats.success_count, 2);
    assert_eq!(stats.failure_count, 1);
    let rate = stats.success_count as f64 / (stats.success_count + stats.failure_count) as f64;
    assert!((rate - 0.6667).abs() < 0.01);
}

#[test]
fn consecutive_failures_reset_on_success() {
    let mut tracker = ProviderHealthTracker::new();
    let id = "p1";
    tracker.record_failure(id, 10, "err".into());
    tracker.record_failure(id, 10, "err".into());
    assert_eq!(tracker.get(id).unwrap().consecutive_failures, 2);

    tracker.record_success(id, 50);
    assert_eq!(tracker.get(id).unwrap().consecutive_failures, 0);
}

#[test]
fn three_consecutive_failures_marks_unhealthy() {
    let mut tracker = ProviderHealthTracker::new();
    let id = "p1";
    for _ in 0..3 {
        tracker.record_failure(id, 10, "err".into());
    }
    assert!(!tracker.is_healthy(id));
}

#[test]
fn latency_percentiles() {
    let mut tracker = ProviderHealthTracker::new();
    let id = "p1";
    for ms in 1..=100u64 {
        tracker.record_success(id, ms);
    }
    let stats = tracker.get(id).unwrap();
    assert_eq!(stats.p50(), 51);
    assert_eq!(stats.p95(), 95);
}

#[test]
fn last_error_stored() {
    let mut tracker = ProviderHealthTracker::new();
    let id = "p1";
    tracker.record_failure(id, 10, "rate limited".into());
    assert_eq!(tracker.get(id).unwrap().last_error.as_deref(), Some("rate limited"));
}

#[test]
fn two_failures_keep_provider_healthy() {
    let mut tracker = ProviderHealthTracker::new();
    tracker.record_failure("p1", 10, "err".into());
    tracker.record_failure("p1", 10, "err".into());
    assert!(tracker.is_healthy("p1"));
}

#[test]
fn check_time_recorded() {
    let mut tracker = ProviderHealthTracker::new();
    tracker.record_success_at("p1", 5, 1234);
    assert_eq!(tracker.get("p1").unwrap().last_check_ms, 1234);
    tracker.record_failure_at("p1", 5, "x".into(), 2000);
    assert_eq!(tracker.get("p1").unwrap().last_check_ms, 2000);
}
