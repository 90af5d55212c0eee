use cairn_runtime::approval::{ApprovalRequirement, ApprovalServiceImpl};
use cairn_runtime::budget::{budget_status, BudgetServiceImpl, BudgetStatus, ProviderBudget, ProviderBudgetPeriod};
use cairn_runtime::calibration::{ConfidenceCalibrator, OutcomeSample, WINDOW_MS};
use cairn_runtime::channel::ChannelServiceImpl;
use cairn_runtime::domain::ProjectKey;
use cairn_runtime::observability::{latency_stats, sort_ascending, LlmCallTrace, LlmObservabilityServiceImpl};
use cairn_runtime::provider_pool::ProviderConnectionPoolServiceImpl;
use cairn_runtime::quota::{enforce_quota, QuotaServiceImpl, TenantQuota};
use cairn_runtime::recovery::{Decision, FailureKind, RecoveryTransition};
use cairn_runtime::resource_sharing::{admit_prompt_version, ResourceSharingServiceImpl};
use cairn_runtime::retention::{RetentionAction, RetentionServiceImpl};
use cairn_runtime::runtime_error::RuntimeError;
use cairn_runtime::spend_alert::SpendAlertServiceImpl;

fn budget(tenant: &str, limit: u64, spend: u64, threshold: u32) -> ProviderBudget {
    ProviderBudget {
        tenant_id: tenant.to_owned(),
        budget_id: format!("budget_{tenant}_monthly"),
        period: ProviderBudgetPeriod::Monthly,
        limit_micros: limit,
        current_spend_micros: spend,
        alert_threshold_percent: threshold,
    }
}

#[test]
fn budget_id_and_set_budget() {
    let mut svc = BudgetServiceImpl::new();
    let b = svc.set_budget("tenant_budget", ProviderBudgetPeriod::Monthly, 1_000, 80);
    assert_eq!(b.budget_id, "budget_tenant_budget_monthly");
    assert_eq!(b.current_spend_micros, 0);
    let d = svc.set_budget("tenant_budget", ProviderBudgetPeriod::Daily, 10, 50);
    assert_eq!(d.budget_id, "budget_tenant_budget_daily");
    assert_eq!(svc.list_budgets("tenant_budget").len(), 2);
    let again = svc.set_budget("tenant_budget", ProviderBudgetPeriod::Monthly, 2_000, 90);
    assert_eq!(again.limit_micros, 2_000);
    assert_eq!(svc.list_budgets("tenant_budget").len(), 2);
    assert_eq!(svc.get_budget("tenant_budget", ProviderBudgetPeriod::Monthly).unwrap().alert_threshold_percent, 90);
    assert!(svc.get_budget("other", ProviderBudgetPeriod::Monthly).is_none());
}

#[test]
fn budget_status_without_budgets_has_nothing_remaining() {
    let svc = BudgetServiceImpl::new();
    assert_eq!(
        svc.check_budget("t"),
        BudgetStatus { remaining_micros: 0, percent_used: 0, alert_triggered: false, exceeded: false }
    );
}

#[test]
fn budget_status_exceeded_and_alerting() {
    let s = budget_status(&vec![budget("t", 1_000, 1_100, 80)]);
    assert_eq!(s, BudgetStatus { remaining_micros: 0, percent_used: 110, alert_triggered: true, exceeded: true });
}

#[test]
fn budget_status_takes_worst_over_budgets() {
    let s = budget_status(&vec![budget("t", 1_000, 500, 80), budget("t", 200, 190, 99), budget("t", 0, 0, 100)]);
    assert_eq!(s.percent_used, 100);
    assert_eq!(s.remaining_micros, 0);
    assert!(s.alert_triggered);
    assert!(!s.exceeded);
    let s = budget_status(&vec![budget("t", 1_000, 500, 80), budget("t", 200, 150, 99)]);
    assert_eq!(s, BudgetStatus { remaining_micros: 50, percent_used: 75, alert_triggered: false, exceeded: false });
}

fn quota(runs: u32, max_runs: u32, sessions: u32, max_sessions: u32) -> TenantQuota {
    TenantQuota {
        tenant_id: "t".to_owned(),
        max_concurrent_runs: max_runs,
        max_sessions_per_hour: max_sessions,
        max_tasks_per_run: 0,
        current_active_runs: runs,
        sessions_this_hour: sessions,
    }
}

#[test]
fn quota_refuses_at_limit() {
    let q = quota(3, 3, 0, 10);
    match enforce_quota(Some(&q), "t", "max_concurrent_runs") {
        Err(RuntimeError::QuotaExceeded { tenant_id, quota_type, current, limit }) => {
            assert_eq!(tenant_id, "t");
            assert_eq!(quota_type, "max_concurrent_runs");
            assert_eq!((current, limit), (3, 3));
        },
        other => panic!("unexpected {other:?}"),
    }
    assert!(enforce_quota(Some(&q), "t", "max_sessions_per_hour").is_ok());
    assert!(enforce_quota(Some(&quota(2, 3, 0, 0)), "t", "max_concurrent_runs").is_ok());
    assert!(enforce_quota(Some(&quota(5, 0, 0, 0)), "t", "max_concurrent_runs").is_ok());
    assert!(enforce_quota(Some(&q), "t", "other_quota").is_ok());
    assert!(enforce_quota(None, "t", "max_concurrent_runs").is_ok());
}

#[test]
fn quota_service_without_usage_admits() {
    let mut svc = QuotaServiceImpl::new();
    assert!(svc.check_run_quota("t").is_ok());
    let q = svc.set_quota("t", 1, 1, 5);
    assert_eq!(q.current_active_runs, 0);
    assert!(svc.check_run_quota("t").is_ok());
    assert!(svc.check_session_quota("t").is_ok());
    assert_eq!(svc.get_quota("t").unwrap().max_tasks_per_run, 5);
}

#[test]
fn provider_pool_create_and_get() {
    let mut svc = ProviderConnectionPoolServiceImpl::new();
    let pool = svc.create_pool("t1", "pool_1", 3).unwrap();
    assert_eq!(pool.pool_id, "pool_1");
    assert_eq!(pool.max_connections, 3);
    assert_eq!(pool.active_connections, 0);
    assert!(matches!(svc.create_pool("t1", "pool_1", 3), Err(RuntimeError::Conflict { .. })));
}

#[test]
fn provider_pool_add_connections_and_assert_available() {
    let mut svc = ProviderConnectionPoolServiceImpl::new();
    svc.create_pool("t2", "pool_2", 2).unwrap();

    let pool = svc.add_connection("pool_2", "conn_a").unwrap();
    assert_eq!(pool.active_connections, 1);
    assert!(pool.connection_ids.contains(&"conn_a".to_owned()));

    let pool = svc.add_connection("pool_2", "conn_b").unwrap();
    assert_eq!(pool.active_connections, 2);
    assert!(pool.connection_ids.contains(&"conn_b".to_owned()));

    let available = svc.get_available("pool_2");
    assert!(available.is_some(), "should have an available connection");

    let err = svc.add_connection("pool_2", "conn_c").unwrap_err();
    assert!(
        matches!(&err, RuntimeError::PolicyDenied { reason } if reason.contains("pool_full")),
        "expected pool_full error, got: {err:?}"
    );
    if let RuntimeError::PolicyDenied { reason } = err {
        assert_eq!(reason, "pool_full: pool 'pool_2' is at max capacity (2/2)");
    }
}

#[test]
fn provider_pool_remove_connection_frees_capacity() {
    let mut svc = ProviderConnectionPoolServiceImpl::new();
    svc.create_pool("t3", "pool_3", 1).unwrap();
    svc.add_connection("pool_3", "conn_x").unwrap();

    let err = svc.add_connection("pool_3", "conn_y").unwrap_err();
    assert!(matches!(err, RuntimeError::PolicyDenied { .. }));

    let pool = svc.remove_connection("pool_3", "conn_x").unwrap();
    assert_eq!(pool.active_connections, 0);

    let pool = svc.add_connection("pool_3", "conn_y").unwrap();
    assert_eq!(pool.active_connections, 1);
}

#[test]
fn provider_pool_errors() {
    let mut svc = ProviderConnectionPoolServiceImpl::new();
    assert!(matches!(svc.add_connection("nope", "c"), Err(RuntimeError::NotFound { .. })));
    svc.create_pool("t", "p", 5).unwrap();
    svc.add_connection("p", "c").unwrap();
    assert!(matches!(svc.add_connection("p", "c"), Err(RuntimeError::Conflict { .. })));
    assert!(matches!(svc.remove_connection("p", "d"), Err(RuntimeError::NotFound { .. })));
    assert_eq!(svc.list_pools("t").len(), 1);
    assert_eq!(svc.list_pools("u").len(), 0);
}

#[test]
fn channel_send_and_consume_in_order() {
    let mut svc = ChannelServiceImpl::new();
    let project = ProjectKey::new("t", "w", "p");
    let ch = svc.create(&project, "inbox".to_owned(), 10);
    assert_eq!(ch.channel_id, "channel_1");
    let m1 = svc.send("channel_1", "alice".to_owned(), "first".to_owned()).unwrap();
    let m2 = svc.send("channel_1", "bob".to_owned(), "second".to_owned()).unwrap();
    assert_eq!(m1, "channel_msg_1");
    assert_eq!(m2, "channel_msg_2");

    let got = svc.consume("channel_1", "worker".to_owned()).unwrap().unwrap();
    assert_eq!(got.body, "first");
    assert_eq!(got.consumed_by.as_deref(), Some("worker"));
    let got = svc.consume("channel_1", "worker".to_owned()).unwrap().unwrap();
    assert_eq!(got.body, "second");
    assert!(svc.consume("channel_1", "worker".to_owned()).unwrap().is_none());

    let all = svc.list_messages("channel_1", 10).unwrap();
    assert_eq!(all.len(), 2);
    assert!(all.iter().all(|m| m.consumed_at_ms.is_some()));
}

#[test]
fn channel_unknown_is_not_found() {
    let mut svc = ChannelServiceImpl::new();
    assert!(matches!(svc.send("channel_9", "a".to_owned(), "b".to_owned()), Err(RuntimeError::NotFound { .. })));
    assert!(matches!(svc.consume("channel_9", "a".to_owned()), Err(RuntimeError::NotFound { .. })));
    assert!(matches!(svc.list_messages("channel_9", 1), Err(RuntimeError::NotFound { .. })));
    assert!(svc.get("channel_9").is_none());
}

#[test]
fn channel_listing_pages_by_project() {
    let mut svc = ChannelServiceImpl::new();
    let p = ProjectKey::new("t", "w", "p");
    let q = ProjectKey::new("t", "w", "q");
    svc.create(&p, "a".to_owned(), 1);
    svc.create(&q, "b".to_owned(), 1);
    svc.create(&p, "c".to_owned(), 1);
    let page = svc.list_channels(&p, 10, 1);
    assert_eq!(page.len(), 1);
    assert_eq!(page[0].name, "c");
    assert_eq!(svc.list_channels(&p, 1, 0)[0].name, "a");
    assert!(svc.list_channels(&p, 5, 9).is_empty());
}

#[test]
fn resource_sharing_share_and_revoke_controls_version_creation() {
    let mut sharing = ResourceSharingServiceImpl::new();
    let ws_b = ProjectKey::new("tenant_sharing", "ws_b", "default");

    let err = admit_prompt_version(false, &ws_b, "ver_1", "asset_shared", Some("ws_a"), &sharing).unwrap_err();
    assert!(matches!(err, RuntimeError::PolicyDenied { .. }));

    let share = sharing.share(
        "tenant_sharing",
        "ws_a",
        "ws_b",
        "prompt_asset",
        "asset_shared",
        vec!["read".to_owned(), "version".to_owned()],
    );
    assert_eq!(share.share_id, "share_1");
    assert!(admit_prompt_version(false, &ws_b, "ver_2", "asset_shared", Some("ws_a"), &sharing).is_ok());

    sharing.revoke(&share.share_id).unwrap();
    let err2 = admit_prompt_version(false, &ws_b, "ver_3", "asset_shared", Some("ws_a"), &sharing).unwrap_err();
    assert!(matches!(err2, RuntimeError::PolicyDenied { .. }));
}

#[test]
fn resource_sharing_list_shares_for_workspace() {
    let mut sharing = ResourceSharingServiceImpl::new();
    sharing.share("tenant_list_shares", "ws_a", "ws_b", "prompt_asset", "asset_1", vec![]);
    let shares = sharing.list_shares("tenant_list_shares", "ws_b");
    assert_eq!(shares.len(), 1);
    assert_eq!(shares[0].resource_id, "asset_1");
    assert!(sharing.list_shares("tenant_list_shares", "ws_a").is_empty());
}

#[test]
fn version_admission_reasons() {
    let mut sharing = ResourceSharingServiceImpl::new();
    let caller = ProjectKey::new("t", "ws_b", "p");
    assert!(matches!(admit_prompt_version(true, &caller, "v", "a", None, &sharing), Err(RuntimeError::Conflict { .. })));
    assert!(admit_prompt_version(false, &caller, "v", "a", None, &sharing).is_ok());
    assert!(admit_prompt_version(false, &caller, "v", "a", Some("ws_b"), &sharing).is_ok());
    match admit_prompt_version(false, &caller, "v", "a", Some("ws_a"), &sharing) {
        Err(RuntimeError::PolicyDenied { reason }) => assert_eq!(
            reason,
            "prompt asset 'a' belongs to workspace 'ws_a'; no resource share grants workspace 'ws_b' access"
        ),
        other => panic!("unexpected {other:?}"),
    }
    sharing.share("t", "ws_a", "ws_b", "prompt_asset", "a", vec!["read".to_owned()]);
    match admit_prompt_version(false, &caller, "v", "a", Some("ws_a"), &sharing) {
        Err(RuntimeError::PolicyDenied { reason }) => {
            assert_eq!(reason, "resource share for asset 'a' does not grant 'version' permission")
        },
        other => panic!("unexpected {other:?}"),
    }
    assert!(matches!(sharing.revoke("share_9"), Err(RuntimeError::NotFound { .. })));
}

#[test]
fn retention_policy_requires_tenant_and_replaces() {
    let mut svc = RetentionServiceImpl::new();
    assert!(matches!(svc.set_policy_at(false, "t", 30, 7, 100, 5), Err(RuntimeError::NotFound { .. })));
    let p = svc.set_policy_at(true, "t", 30, 7, 100, 5).unwrap();
    assert_eq!(p.policy_id, "retention_policy_5");
    assert_eq!(p.max_events_per_entity, Some(100));
    svc.set_policy_at(true, "t", 60, 7, 10, 6).unwrap();
    assert_eq!(svc.get_policy("t").unwrap().full_history_days, 60);
    assert!(matches!(svc.apply_retention("t"), RetentionAction::Prune(_)));
    match svc.apply_retention("other") {
        RetentionAction::Nothing(r) => assert_eq!((r.events_pruned, r.entities_affected), (0, 0)),
        other => panic!("unexpected {other:?}"),
    }
}

fn trace(id: &str, latency_ms: u64, is_error: bool, created_at_ms: u64) -> LlmCallTrace {
    LlmCallTrace {
        trace_id: id.to_owned(),
        model_id: "test-model".to_owned(),
        prompt_tokens: 100,
        completion_tokens: 50,
        latency_ms,
        cost_micros: 500,
        session_id: None,
        run_id: None,
        created_at_ms,
        is_error,
    }
}

#[test]
fn latency_percentiles_computed_correctly() {
    let mut svc = LlmObservabilityServiceImpl::new();
    let far_future = u64::MAX / 2;
    for i in 1..=10u64 {
        svc.record(trace(&format!("t{i}"), i * 10, false, far_future + i));
    }
    let stats = svc.latency_percentiles(u64::MAX / 2);
    assert_eq!(stats.sample_count, 10, "must have 10 samples");
    assert_eq!(stats.p50_ms, 60, "p50 must be 60 ms");
    assert_eq!(stats.p95_ms, 100, "p95 must be 100 ms");
}

#[test]
fn latency_percentiles_empty_returns_zeros() {
    let svc = LlmObservabilityServiceImpl::new();
    let stats = svc.latency_percentiles(60_000);
    assert_eq!(stats.sample_count, 0);
    assert_eq!(stats.p50_ms, 0);
    assert_eq!(stats.p95_ms, 0);
}

#[test]
fn error_rate_computed_correctly() {
    let mut svc = LlmObservabilityServiceImpl::new();
    let far_future = u64::MAX / 2;
    for i in 0u64..7 {
        svc.record(trace(&format!("ok_{i}"), 50, false, far_future + i));
    }
    for i in 0u64..3 {
        svc.record(trace(&format!("err_{i}"), 50, true, far_future + 7 + i));
    }
    let (errors, total) = svc.error_counts(u64::MAX / 2);
    let rate = errors as f32 / total as f32;
    assert!((rate - 0.3).abs() < 0.001, "error rate must be 0.3, got {rate}");
}

#[test]
fn window_excludes_old_traces() {
    let mut svc = LlmObservabilityServiceImpl::new();
    svc.record(trace("old", 5, true, 100));
    svc.record(trace("new", 7, false, 1_000));
    let stats = svc.latency_percentiles_at(500, 1_200);
    assert_eq!(stats.sample_count, 1);
    assert_eq!(stats.p50_ms, 7);
    assert_eq!(svc.error_counts_at(500, 1_200), (0, 1));
    assert_eq!(svc.error_counts_at(5_000, 1_200), (1, 2));
}

#[test]
fn sorting_and_stats_on_unsorted_sample() {
    assert_eq!(sort_ascending(&vec![5, 1, 4, 1, 3]), vec![1, 1, 3, 4, 5]);
    let s = latency_stats(&vec![30, 10, 20]);
    assert_eq!((s.p50_ms, s.p95_ms, s.sample_count), (20, 30, 3));
}

#[test]
fn calibration_groups_recent_outcomes_by_agent_type() {
    let now = WINDOW_MS + 1_000;
    let outcomes = vec![
        OutcomeSample { agent_type: "code_review".to_owned(), success: true, recorded_at: now },
        OutcomeSample { agent_type: "planner".to_owned(), success: false, recorded_at: now },
        OutcomeSample { agent_type: "code_review".to_owned(), success: false, recorded_at: now - 1 },
        OutcomeSample { agent_type: "code_review".to_owned(), success: true, recorded_at: 10 },
    ];
    let buckets = ConfidenceCalibrator::new().buckets_at(&outcomes, now);
    assert_eq!(buckets.len(), 2);
    assert_eq!(buckets[0].agent_type, "code_review");
    assert_eq!(buckets[0].members, vec![0, 2]);
    assert_eq!(buckets[0].successes, 1);
    assert_eq!(buckets[1].agent_type, "planner");
    assert_eq!(buckets[1].members, vec![1]);
    assert_eq!(buckets[1].successes, 0);
}

#[test]
fn spend_alert_triggered_when_session_exceeds_threshold() {
    let mut svc = SpendAlertServiceImpl::new();
    svc.set_threshold("tenant_spend", 1_000);
    let alert = svc.check_session_spend("sess_spend_1", "tenant_spend", Some(1_200));
    assert!(alert.is_some(), "alert must fire when cost (1200) > threshold (1000)");
    let alert = alert.unwrap();
    assert_eq!(alert.threshold_micros, 1_000);
    assert_eq!(alert.current_micros, 1_200);
    assert!(alert.triggered_at_ms > 0);
}

#[test]
fn spend_alert_not_triggered_below_threshold() {
    let mut svc = SpendAlertServiceImpl::new();
    svc.set_threshold("tenant_low", 2_000);
    assert!(svc.check_session_spend("sess_low", "tenant_low", Some(500)).is_none());
}

#[test]
fn spend_alert_fires_only_once_per_session() {
    let mut svc = SpendAlertServiceImpl::new();
    svc.set_threshold("tenant_once", 500);
    assert!(svc.check_session_spend("sess_once", "tenant_once", Some(600)).is_some(), "first check must fire");
    assert!(svc.check_session_spend("sess_once", "tenant_once", Some(600)).is_none(), "second check must not fire");
}

#[test]
fn spend_alert_requires_threshold_to_be_set() {
    let mut svc = SpendAlertServiceImpl::new();
    assert!(svc.check_session_spend("sess_none", "tenant_none", Some(9_999_999)).is_none());
}

#[test]
fn spend_alert_independent_per_tenant() {
    let mut svc = SpendAlertServiceImpl::new();
    svc.set_threshold("tenant_a", 1_000);
    svc.set_threshold("tenant_b", 5_000);
    assert!(svc.check_session_spend("sess_a", "tenant_a", Some(1_200)).is_some());
    assert!(svc.check_session_spend("sess_b", "tenant_b", Some(1_200)).is_none());
}

#[test]
fn spend_alert_id_carries_tenant_and_time() {
    let mut svc = SpendAlertServiceImpl::new();
    svc.set_threshold("t", 0);
    let a = svc.check_session_spend_at("s", "t", None, 77).unwrap();
    assert_eq!(a.alert_id, "alert_t_77");
    assert_eq!(a.current_micros, 0);
}

#[test]
fn approval_resolve_cascades_to_run() {
    let mut svc = ApprovalServiceImpl::new();
    let project = ProjectKey::new("t", "w", "p");
    let (rec, waiting) = svc.request(&project, "appr_1", Some("run_1".to_owned()), None, ApprovalRequirement::Required);
    assert!(rec.decision.is_none());
    assert_eq!(waiting.as_deref(), Some("run_1"));
    assert_eq!(svc.list_pending(&project, 10, 0).len(), 1);

    let (rec, cascade) = svc.resolve("appr_1", Decision::Rejected).unwrap();
    assert_eq!(rec.decision, Some(Decision::Rejected));
    let cascade = cascade.unwrap();
    assert_eq!(cascade.run_id, "run_1");
    assert_eq!(cascade.transition, RecoveryTransition::Fail(FailureKind::ApprovalRejected));
    assert!(svc.list_pending(&project, 10, 0).is_empty());
    assert_eq!(svc.list_all(&project, 10, 0).len(), 1);

    match svc.resolve("appr_1", Decision::Approved) {
        Err(RuntimeError::InvalidTransition { entity, from, to }) => {
            assert_eq!((entity.as_str(), from.as_str(), to.as_str()), ("approval", "resolved", "Approved"))
        },
        other => panic!("unexpected {other:?}"),
    }
    assert!(matches!(svc.resolve("nope", Decision::Approved), Err(RuntimeError::NotFound { .. })));
}

#[test]
fn approval_without_run_has_no_cascade() {
    let mut svc = ApprovalServiceImpl::new();
    let project = ProjectKey::new("t", "w", "p");
    let (_, waiting) = svc.request_with_context(
        &project,
        "appr_2",
        None,
        None,
        ApprovalRequirement::Advisory,
        Some("Title".to_owned()),
        None,
    );
    assert!(waiting.is_none());
    let (rec, cascade) = svc.resolve("appr_2", Decision::Approved).unwrap();
    assert!(cascade.is_none());
    assert_eq!(rec.title.as_deref(), Some("Title"));
    assert_eq!(svc.get("appr_2").unwrap().decision, Some(Decision::Approved));
}

use cairn_runtime::approval_policy::{ApprovalPolicyServiceImpl, WorkspaceRole};
use cairn_runtime::lifecycle::{check_transition, claim_lease, completion_checkpoint, heartbeat_lease, EntityState};

#[test]
fn policy_create_returns_record_with_correct_fields() {
    let mut svc = ApprovalPolicyServiceImpl::new();
    let policy = svc.create("tenant_1", "Compliance Review".to_owned(), 2, vec![WorkspaceRole::Admin], Some(3_600_000), None);
    assert!(!policy.policy_id.is_empty());
    assert_eq!(policy.policy_id, "approval_policy_1");
    assert_eq!(policy.name, "Compliance Review");
    assert_eq!(policy.required_approvers, 2);
    assert_eq!(policy.allowed_approver_roles, vec![WorkspaceRole::Admin]);
    assert_eq!(policy.auto_approve_after_ms, Some(3_600_000));
    assert!(policy.attached_release_ids.is_empty());
}

#[test]
fn attach_to_release_adds_release_to_policy() {
    let mut svc = ApprovalPolicyServiceImpl::new();
    let policy = svc.create("t1", "Gate".to_owned(), 1, vec![], None, None);
    let updated = svc.attach_to_release(&policy.policy_id, "release_1").unwrap();
    assert_eq!(updated.attached_release_ids, vec!["release_1".to_owned()]);
    assert!(matches!(svc.attach_to_release("approval_policy_9", "release_1"), Err(RuntimeError::NotFound { .. })));
}

#[test]
fn attach_to_release_is_idempotent() {
    let mut svc = ApprovalPolicyServiceImpl::new();
    let policy = svc.create("t1", "Gate".to_owned(), 1, vec![], None, None);
    svc.attach_to_release(&policy.policy_id, "release_1").unwrap();
    let final_policy = svc.attach_to_release(&policy.policy_id, "release_1").unwrap();
    assert_eq!(final_policy.attached_release_ids.len(), 1, "duplicate attach must not add a second entry");
    assert_eq!(svc.get(&policy.policy_id).unwrap().attached_release_ids.len(), 1);
}

#[test]
fn lease_claim_and_heartbeat() {
    let queued = EntityState { state_name: "Queued".to_owned(), version: 4 };
    let c = claim_lease("task_1", Some(&queued), true, "worker".to_owned(), 1_000, 50).unwrap();
    assert_eq!((c.lease_token, c.lease_expires_at_ms), (5, 1_050));
    match claim_lease("task_1", Some(&queued), false, "worker".to_owned(), 1_000, 50) {
        Err(RuntimeError::InvalidTransition { from, to, .. }) => assert_eq!((from.as_str(), to.as_str()), ("Queued", "Leased")),
        other => panic!("unexpected {other:?}"),
    }
    assert!(matches!(claim_lease("task_1", None, true, "w".to_owned(), 1, 1), Err(RuntimeError::NotFound { .. })));

    let leased = EntityState { state_name: "Leased".to_owned(), version: 5 };
    assert_eq!(heartbeat_lease("task_1", Some(&leased), 500, 100).unwrap(), (5, 600));
    assert!(matches!(heartbeat_lease("task_1", Some(&queued), 500, 100), Err(RuntimeError::InvalidTransition { .. })));
    assert!(check_transition("run", "run_1", Some(&queued), true, "Running").is_ok());
    assert!(matches!(check_transition("run", "run_1", None, true, "Running"), Err(RuntimeError::NotFound { .. })));
}

#[test]
fn completion_checkpoint_only_when_asked() {
    assert_eq!(completion_checkpoint(Some("run_1"), Some(true), "task_1", 9).as_deref(), Some("cp_auto_run_1_task_1_9"));
    assert!(completion_checkpoint(Some("run_1"), Some(false), "task_1", 9).is_none());
    assert!(completion_checkpoint(Some("run_1"), None, "task_1", 9).is_none());
    assert!(completion_checkpoint(None, Some(true), "task_1", 9).is_none());
}

#[test]
fn channel_create_send_consume_flow() {
    let mut service = ChannelServiceImpl::new();
    let project = ProjectKey::new("tenant_acme", "ws_main", "project_alpha");
    let channel = service.create(&project, "ops".to_owned(), 10);
    assert_eq!(channel.name, "ops");

    service.send(&channel.channel_id, "alice".to_owned(), "one".to_owned()).unwrap();
    service.send(&channel.channel_id, "alice".to_owned(), "two".to_owned()).unwrap();
    service.send(&channel.channel_id, "alice".to_owned(), "three".to_owned()).unwrap();

    let consumed_1 = service.consume(&channel.channel_id, "bob".to_owned()).unwrap().unwrap();
    let consumed_2 = service.consume(&channel.channel_id, "bob".to_owned()).unwrap().unwrap();
    assert_eq!(consumed_1.body, "one");
    assert_eq!(consumed_2.body, "two");

    let remaining = service.list_messages(&channel.channel_id, 10).unwrap();
    assert_eq!(remaining.iter().filter(|message| message.consumed_at_ms.is_none()).count(), 1);
}
