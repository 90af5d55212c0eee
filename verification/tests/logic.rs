use cairn_runtime::credential::{check_lost_race, decrypt_value, encrypt_value, prepare_store, rotate_key, settle_store, CredentialError, CredentialInfo, StoreSettlement};
use cairn_runtime::domain::ProjectKey;
use cairn_runtime::external_worker::{parse_outcome, ExternalWorkerOutcome, ExternalWorkerServiceImpl, TaskStatus, TaskTarget};
use cairn_runtime::guardrail::{evaluate, DecisionKind, GuardrailPolicy, GuardrailRule, GuardrailServiceImpl, RuleEffect};
use cairn_runtime::tenancy::TenantServiceImpl;
use cairn_runtime::json::JsonValue;
use cairn_runtime::provider_binding::{OperationKind, ProviderBindingServiceImpl};
use cairn_runtime::provider_health::{is_due, record_check, BindingInfo, HealthStatus, PriorHealth};
use cairn_runtime::recovery::{ApprovalInfo, Decision, FailureKind, RecoveryServiceImpl, RecoveryTransition, SweptRun, SweptState};
use cairn_runtime::release_gate::{supersede, ActivationError, ApprovalStatus, ReleaseGate, ReleaseInfo};
use cairn_runtime::runtime_error::RuntimeError;
use cairn_runtime::signal_routing::{subscribe, SubscribeError};
use cairn_runtime::tool_call_approval::{ApprovalCache, ApprovalDecision, ApprovalError, ApprovalScope, ProposalState};

#[test]
fn credential_round_trip() {
    let c = encrypt_value("t1", "openai", "sk-secret", Some("key-a"), 1_000).unwrap();
    assert_ne!(c, b"sk-secret".to_vec());
    assert_eq!(decrypt_value("t1", "openai", &c, Some("key-a"), 1_000).unwrap(), "sk-secret");
    assert!(decrypt_value("t1", "openai", &c, Some("key-b"), 1_000).is_err());
    assert!(decrypt_value("t1", "openai", &c, Some("key-a"), 1_001).is_err());
    assert!(decrypt_value("t2", "openai", &c, Some("key-a"), 1_000).is_err());
}

#[test]
fn credential_store_refuses_second_active() {
    let existing = vec![CredentialInfo {
        id: "cred_1".to_owned(),
        tenant_id: "t1".to_owned(),
        provider_id: "openai".to_owned(),
        encrypted_value: vec![],
        key_id: None,
        key_version: None,
        encrypted_at_ms: Some(1),
        active: true,
    }];
    match prepare_store("t1", true, "openai", "x", None, &existing, 5) {
        Err(CredentialError::Conflict { id }) => assert_eq!(id, "provider=openai tenant=t1"),
        other => panic!("unexpected {other:?}"),
    }
    let ok = prepare_store("t1", true, "anthropic", "x", None, &existing, 5).unwrap();
    assert_eq!(ok.credential_id, "cred_5");
    assert_eq!(ok.key_version, "v1");
    assert_eq!(decrypt_value("t1", "anthropic", &ok.encrypted_value, None, 5).unwrap(), "x");
}

#[test]
fn credential_rotation_reencrypts_under_new_key() {
    let sealed = encrypt_value("t1", "openai", "sk-1", Some("old"), 10).unwrap();
    let records = vec![CredentialInfo {
        id: "cred_10".to_owned(),
        tenant_id: "t1".to_owned(),
        provider_id: "openai".to_owned(),
        encrypted_value: sealed,
        key_id: Some("old".to_owned()),
        key_version: None,
        encrypted_at_ms: Some(10),
        active: true,
    }];
    let (_, rotated) = rotate_key("t1", true, &records, "old", "new", 100).unwrap();
    assert_eq!(rotated.len(), 1);
    assert_eq!(rotated[0].key_version, "v1");
    assert_eq!(
        decrypt_value("t1", "openai", &rotated[0].encrypted_value, Some("new"), rotated[0].encrypted_at_ms).unwrap(),
        "sk-1"
    );
}

#[test]
fn lost_race_needs_a_later_active_credential() {
    let cred = |id: &str| CredentialInfo {
        id: id.to_owned(),
        tenant_id: "t".to_owned(),
        provider_id: "p".to_owned(),
        encrypted_value: vec![],
        key_id: None,
        key_version: None,
        encrypted_at_ms: None,
        active: true,
    };
    assert!(!check_lost_race(&vec![cred("cred_1")], "p", &"cred_1".to_owned()));
    assert!(check_lost_race(&vec![cred("cred_1"), cred("cred_2")], "p", &"cred_1".to_owned()));
    assert!(!check_lost_race(&vec![cred("cred_1"), cred("cred_2")], "p", &"cred_2".to_owned()));
}

fn rule(action: &str, effect: RuleEffect) -> GuardrailRule {
    GuardrailRule { subject_type: "tool".to_owned(), subject_id: None, action: action.to_owned(), effect }
}

#[test]
fn guardrail_first_matching_rule_decides() {
    let policies = vec![
        GuardrailPolicy {
            policy_id: "gp_1".to_owned(),
            tenant_id: "t".to_owned(),
            name: "first".to_owned(),
            rules: vec![rule("invoke", RuleEffect::Deny)],
        },
        GuardrailPolicy {
            policy_id: "gp_2".to_owned(),
            tenant_id: "t".to_owned(),
            name: "second".to_owned(),
            rules: vec![rule("invoke", RuleEffect::Allow)],
        },
    ];
    let d = evaluate(&policies, &"tool".to_owned(), &None, &"invoke".to_owned());
    assert_eq!(d.decision, DecisionKind::Denied);
    assert_eq!(d.policy_id.as_deref(), Some("gp_1"));
    let d = evaluate(&policies, &"tool".to_owned(), &None, &"read".to_owned());
    assert_eq!(d.decision, DecisionKind::Allowed);
    assert!(d.policy_id.is_none());
}

#[test]
fn guardrail_denies_matching_tool_and_allows_non_matching_tool() {
    let mut tenants = TenantServiceImpl::new();
    tenants.create("tenant_acme", "Acme".to_owned()).unwrap();

    let mut service = GuardrailServiceImpl::new();
    service
        .create_policy(
            &tenants,
            "tenant_acme",
            "tool-delete-policy".to_owned(),
            vec![GuardrailRule {
                subject_type: "tool".to_owned(),
                subject_id: Some("fs.delete".to_owned()),
                action: "invoke".to_owned(),
                effect: RuleEffect::Deny,
            }],
        )
        .unwrap();

    let denied = service
        .evaluate_for(&tenants, "tenant_acme", &"tool".to_owned(), &Some("fs.delete".to_owned()), &"invoke".to_owned())
        .unwrap();
    assert_eq!(denied.decision, DecisionKind::Denied);

    let allowed = service
        .evaluate_for(&tenants, "tenant_acme", &"tool".to_owned(), &Some("fs.read".to_owned()), &"invoke".to_owned())
        .unwrap();
    assert_eq!(allowed.decision, DecisionKind::Allowed);
}

#[test]
fn guardrail_unknown_tenant_is_not_found_and_ids_name_the_time() {
    let mut tenants = TenantServiceImpl::new();
    let mut service = GuardrailServiceImpl::new();
    match service.create_policy_at(&tenants, "ghost", "p".to_owned(), vec![], 5) {
        Err(RuntimeError::NotFound { entity, id }) => assert_eq!((entity.as_str(), id.as_str()), ("tenant", "ghost")),
        other => panic!("unexpected {other:?}"),
    }
    assert!(matches!(
        service.evaluate_for(&tenants, "ghost", &"tool".to_owned(), &None, &"invoke".to_owned()),
        Err(RuntimeError::NotFound { .. })
    ));
    tenants.create("t", "T".to_owned()).unwrap();
    let p = service.create_policy_at(&tenants, "t", "p".to_owned(), vec![rule("invoke", RuleEffect::Log)], 77).unwrap();
    assert_eq!((p.policy_id.as_str(), p.tenant_id.as_str(), p.rules.len()), ("guardrail_policy_77", "t", 1));
    let d = service.evaluate_for(&tenants, "t", &"tool".to_owned(), &None, &"invoke".to_owned()).unwrap();
    assert_eq!((d.decision, d.policy_id.as_deref(), d.reason.as_deref()), (DecisionKind::Denied, Some("guardrail_policy_77"), Some("matched deny rule for invoke")));
}

#[test]
fn third_failure_degrades_and_deactivates_bindings() {
    let bindings = vec![
        BindingInfo {
            provider_binding_id: "b1".to_owned(),
            project: ProjectKey::new("t", "w", "p"),
            provider_connection_id: "conn".to_owned(),
            active: true,
        },
        BindingInfo {
            provider_binding_id: "b2".to_owned(),
            project: ProjectKey::new("t", "w", "p"),
            provider_connection_id: "other".to_owned(),
            active: true,
        },
    ];
    let prior = PriorHealth { status: HealthStatus::Unreachable, consecutive_failures: 2 };
    let d = record_check(Some(prior), false, &"conn".to_owned(), &bindings);
    assert_eq!(d.status, HealthStatus::Degraded);
    assert_eq!(d.consecutive_failures, 3);
    assert_eq!(d.binding_changes.len(), 1);
    assert_eq!(d.binding_changes[0].provider_binding_id, "b1");
    assert!(!d.binding_changes[0].active);

    let d = record_check(None, false, &"conn".to_owned(), &bindings);
    assert_eq!(d.status, HealthStatus::Unreachable);
    assert!(d.binding_changes.is_empty());

    let degraded = PriorHealth { status: HealthStatus::Degraded, consecutive_failures: 4 };
    let d = record_check(Some(degraded), true, &"conn".to_owned(), &bindings);
    assert_eq!(d.status, HealthStatus::Degraded);
}

#[test]
fn health_check_due_after_interval() {
    assert!(is_due(None, 1_000, 5));
    assert!(!is_due(Some(100), 1_000, 500));
    assert!(is_due(Some(100), 1_000, 1_100));
}

#[test]
fn release_gate_requires_approval() {
    let mut gate = ReleaseGate::new();
    let rel = "rel_1".to_owned();
    assert!(gate.check_activation(&rel, "approved", None).is_ok());
    gate.attach_policy(&rel, "pol_1");
    assert!(matches!(gate.check_activation(&rel, "approved", None), Err(ActivationError::PolicyDenied { .. })));
    let (id, title, _) = gate.request_approval(&rel);
    assert_eq!(id, "apr_rel_rel_1");
    assert_eq!(title, "Approve prompt release: rel_1");
    assert!(gate.check_activation(&rel, "approved", Some(ApprovalStatus::Approved)).is_ok());
    assert!(gate.check_activation(&rel, "approved", Some(ApprovalStatus::Pending)).is_err());
    assert!(matches!(gate.check_activation(&rel, "draft", None), Err(ActivationError::InvalidTransition { .. })));
}

#[test]
fn supersede_only_other_active_releases_of_the_asset() {
    let info = |id: &str, asset: &str, state: &str| ReleaseInfo {
        prompt_release_id: id.to_owned(),
        prompt_asset_id: asset.to_owned(),
        state: state.to_owned(),
    };
    let all = vec![info("r1", "a", "active"), info("r2", "a", "draft"), info("r3", "b", "active"), info("r4", "a", "approved")];
    assert_eq!(supersede(&all, &"a".to_owned(), &"r4".to_owned()), vec!["r1".to_owned()]);
    assert!(supersede(&all, &"a".to_owned(), &"r1".to_owned()).is_empty());
}

#[test]
fn recovery_sweep_plans_and_counts() {
    let run = |id: &str, state: SweptState, checkpoint: bool, updated_at: u64, pending: bool| SweptRun {
        run_id: id.to_owned(),
        state,
        has_checkpoint: checkpoint,
        updated_at,
        approval_pending: pending,
        may_resume: true,
        may_fail: true,
    };
    let runs = vec![
        run("wedged", SweptState::Running, false, 0, false),
        run("fresh", SweptState::Running, false, 999_000, false),
        run("approved", SweptState::WaitingApproval, false, 0, false),
        run("paused", SweptState::Paused, false, 0, false),
    ];
    let approvals = vec![
        ApprovalInfo { run_id: Some("approved".to_owned()), decision: Some(Decision::Rejected), updated_at: 1 },
        ApprovalInfo { run_id: Some("approved".to_owned()), decision: Some(Decision::Approved), updated_at: 5 },
    ];
    let (plans, summary) = RecoveryServiceImpl::new().recover_all(&runs, &approvals, 1_000_000);
    assert_eq!(plans.len(), 4);
    assert_eq!(plans[0].transition, Some(RecoveryTransition::Fail(FailureKind::ExecutionError)));
    assert!(plans[1].transition.is_none());
    assert_eq!(plans[2].transition, Some(RecoveryTransition::ResumeRunning));
    assert!(plans[3].transition.is_none());
    assert_eq!(summary.scanned_runs, 4);
    assert_eq!(summary.failed_runs, 1);
    assert_eq!(summary.advanced_runs, 1);
    assert_eq!(summary.recovered_runs, 2);
}

#[test]
fn signal_subscription_needs_a_target() {
    let p = ProjectKey::new("t", "w", "p");
    assert!(matches!(subscribe(p.duplicate(), "k".to_owned(), None, None, None, true, 1), Err(SubscribeError::NoTarget)));
    assert!(matches!(
        subscribe(p.duplicate(), "k".to_owned(), Some("run_x".to_owned()), None, None, false, 1),
        Err(SubscribeError::RunNotFound(id)) if id == "run_x"
    ));
    let s = subscribe(p, "k".to_owned(), Some("run_x".to_owned()), None, None, true, 42).unwrap();
    assert_eq!(s.subscription_id, "signal_sub_42");
    assert_eq!(s.target, "run_x");
}

#[test]
fn tool_call_approval_lifecycle() {
    let mut cache: ApprovalCache<u8> = ApprovalCache::new();
    let p = ProjectKey::new("t", "w", "p");
    let d = cache.submit("call_1".to_owned(), p, "s1".to_owned(), "fs.write".to_owned(), JsonValue::Null, false);
    assert_eq!(d, ApprovalDecision::PendingOperator);
    let claim = cache.claim_approve(&"call_1".to_owned(), ApprovalScope::Once, None).unwrap();
    assert_eq!(claim.previous_state, ProposalState::Pending);
    assert_eq!(cache.entry(&"call_1".to_owned()).unwrap().state, ProposalState::Approved);
    assert!(matches!(cache.claim_reject(&"call_1".to_owned(), None), Err(ApprovalError::InvalidTransition { .. })));
    cache.revert_approve(&"call_1".to_owned(), claim.previous_state, false);
    assert_eq!(cache.entry(&"call_1".to_owned()).unwrap().state, ProposalState::Pending);
    assert!(matches!(cache.claim_approve(&"nope".to_owned(), ApprovalScope::Once, None), Err(ApprovalError::NotFound)));
}

#[test]
fn worker_outcomes_and_reports() {
    assert_eq!(parse_outcome("completed").unwrap(), ExternalWorkerOutcome::Completed);
    assert_eq!(parse_outcome("failed").unwrap(), ExternalWorkerOutcome::Failed { failure_class: FailureKind::ExecutionError });
    assert_eq!(parse_outcome("suspended").unwrap(), ExternalWorkerOutcome::Suspended);
    match parse_outcome("exploded") {
        Err(RuntimeError::Internal { message }) => assert_eq!(message, "unknown worker outcome: exploded"),
        other => panic!("unexpected {other:?}"),
    }
    let svc = ExternalWorkerServiceImpl::new();
    let running = TaskStatus { state_name: "Running".to_owned(), terminal: false };
    let done = TaskStatus { state_name: "Completed".to_owned(), terminal: true };
    assert_eq!(svc.report("t1", Some(&running), Some(ExternalWorkerOutcome::Canceled)).unwrap(), Some(TaskTarget::Canceled));
    assert_eq!(svc.report("t1", Some(&running), None).unwrap(), None);
    assert!(matches!(svc.report("t1", None, None), Err(RuntimeError::NotFound { .. })));
    match svc.report("t1", Some(&done), None) {
        Err(RuntimeError::InvalidTransition { from, to, .. }) => assert_eq!((from.as_str(), to.as_str()), ("Completed", "worker report")),
        other => panic!("unexpected {other:?}"),
    }
}

#[test]
fn worker_registry_lifecycle() {
    let mut svc = ExternalWorkerServiceImpl::new();
    let w = svc.register_at("t1", "w1", "Worker".to_owned(), 9);
    assert_eq!(w.status, "active");
    assert_eq!(svc.suspend("w1").unwrap().status, "suspended");
    assert_eq!(svc.reactivate("w1").unwrap().status, "active");
    assert!(matches!(svc.suspend("w2"), Err(RuntimeError::NotFound { .. })));
    svc.register_at("t2", "w2", "Other".to_owned(), 9);
    assert_eq!(svc.list("t1", 10, 0).len(), 1);
    assert_eq!(svc.get("w2").unwrap().tenant_id, "t2");
}

#[test]
fn provider_binding_create_and_toggle() {
    let mut svc = ProviderBindingServiceImpl::new();
    let project = ProjectKey::new("tenant_acme", "ws_main", "project_alpha");
    let created = svc
        .create_at(&project, true, "conn_openai", Some("tenant_acme"), OperationKind::Generate, "gpt-5", None, 77)
        .unwrap();
    assert_eq!(created.provider_binding_id, "pb_77_conn_openai_generate");
    assert!(created.active);
    let fetched = svc.get(&created.provider_binding_id).unwrap();
    assert_eq!(fetched.provider_model_id, "gpt-5");
    assert_eq!(svc.active_for(&project, OperationKind::Generate), vec![created.provider_binding_id.clone()]);
    assert!(!svc.deactivate(&created.provider_binding_id).unwrap().active);
    assert!(svc.active_for(&project, OperationKind::Generate).is_empty());
    assert!(svc.activate(&created.provider_binding_id).unwrap().active);

    assert!(matches!(
        svc.create_at(&project, false, "conn_openai", Some("tenant_acme"), OperationKind::Embed, "m", None, 1),
        Err(RuntimeError::NotFound { .. })
    ));
    assert!(matches!(
        svc.create_at(&project, true, "conn_x", None, OperationKind::Embed, "m", None, 1),
        Err(RuntimeError::NotFound { .. })
    ));
    assert!(matches!(
        svc.create_at(&project, true, "conn_x", Some("other"), OperationKind::Embed, "m", None, 1),
        Err(RuntimeError::Internal { .. })
    ));
}

#[test]
fn credential_rotation_fails_on_first_unusable_credential() {
    let sealed = encrypt_value("t1", "openai", "sk-1", Some("old"), 10).unwrap();
    let good = CredentialInfo {
        id: "cred_10".to_owned(),
        tenant_id: "t1".to_owned(),
        provider_id: "openai".to_owned(),
        encrypted_value: sealed.clone(),
        key_id: Some("old".to_owned()),
        key_version: None,
        encrypted_at_ms: Some(10),
        active: true,
    };
    let no_time = CredentialInfo { id: "cred_x".to_owned(), encrypted_at_ms: None, ..good.clone_info() };
    let tampered = CredentialInfo { id: "cred_y".to_owned(), encrypted_value: vec![1, 2, 3], ..good.clone_info() };
    match rotate_key("t1", true, &vec![good.clone_info(), no_time.clone_info(), tampered.clone_info()], "old", "new", 100) {
        Err(CredentialError::Internal(m)) => assert_eq!(m, "credential cred_x missing encrypted_at_ms"),
        other => panic!("unexpected {other:?}"),
    }
    match rotate_key("t1", true, &vec![good.clone_info(), tampered, no_time], "old", "new", 100) {
        Err(CredentialError::Internal(m)) => assert!(m.contains("decryption failed")),
        other => panic!("unexpected {other:?}"),
    }
    // Credentials under another key, or inactive, are not looked at.
    let other = CredentialInfo { key_id: Some("other".to_owned()), encrypted_at_ms: None, ..good.clone_info() };
    assert_eq!(rotate_key("t1", true, &vec![good, other], "old", "new", 100).unwrap().1.len(), 1);
}

trait CloneInfo {
    fn clone_info(&self) -> CredentialInfo;
}

impl CloneInfo for CredentialInfo {
    fn clone_info(&self) -> CredentialInfo {
        CredentialInfo {
            id: self.id.clone(),
            tenant_id: self.tenant_id.clone(),
            provider_id: self.provider_id.clone(),
            encrypted_value: self.encrypted_value.clone(),
            key_id: self.key_id.clone(),
            key_version: self.key_version.clone(),
            encrypted_at_ms: self.encrypted_at_ms,
            active: self.active,
        }
    }
}

fn active_cred(id: &str) -> CredentialInfo {
    CredentialInfo {
        id: id.to_owned(),
        tenant_id: "t".to_owned(),
        provider_id: "p".to_owned(),
        encrypted_value: vec![],
        key_id: Some("old".to_owned()),
        key_version: None,
        encrypted_at_ms: None,
        active: true,
    }
}

#[test]
fn credential_store_and_rotation_refused_for_unknown_tenant() {
    match prepare_store("t_missing", false, "openai", "x", None, &vec![], 5) {
        Err(CredentialError::NotFound { entity, id }) => {
            assert_eq!(entity, "tenant");
            assert_eq!(id, "t_missing");
        }
        other => panic!("unexpected {other:?}"),
    }
    match rotate_key("t_missing", false, &vec![active_cred("cred_1")], "old", "new", 1) {
        Err(CredentialError::NotFound { entity, id }) => {
            assert_eq!(entity, "tenant");
            assert_eq!(id, "t_missing");
        }
        other => panic!("unexpected {other:?}"),
    }
}

#[test]
fn credential_store_settles_lost_race_by_revoking_itself() {
    match settle_store(&vec![active_cred("cred_1"), active_cred("cred_2")], "t", "p", &"cred_1".to_owned()) {
        StoreSettlement::Revoke { credential_id, error } => {
            assert_eq!(credential_id, "cred_1");
            match error {
                CredentialError::Conflict { id } => assert_eq!(id, "provider=p tenant=t"),
                other => panic!("unexpected {other:?}"),
            }
        }
        StoreSettlement::Keep => panic!("the earlier id lost the race"),
    }
    assert!(matches!(
        settle_store(&vec![active_cred("cred_1"), active_cred("cred_2")], "t", "p", &"cred_2".to_owned()),
        StoreSettlement::Keep
    ));
    assert!(matches!(settle_store(&vec![active_cred("cred_1")], "t", "p", &"cred_1".to_owned()), StoreSettlement::Keep));
}

#[test]
fn tool_call_approval_failed_append_reverts_claim() {
    let mut cache: ApprovalCache<u8> = ApprovalCache::new();
    let p = ProjectKey::new("t", "w", "p");
    cache.submit("call_1".to_owned(), p, "s1".to_owned(), "fs.write".to_owned(), JsonValue::Null, false);
    let claim = cache
        .claim_approve(&"call_1".to_owned(), ApprovalScope::Session { match_policy: 7u8 }, Some(JsonValue::Bool(true)))
        .unwrap();
    let r = cache.finish_approve(&"call_1".to_owned(), claim, true, Err::<(), &str>("store down"));
    assert_eq!(r.unwrap_err(), "store down");
    let e = cache.entry(&"call_1".to_owned()).unwrap();
    assert_eq!(e.state, ProposalState::Pending);
    assert!(e.approved_args.is_none());
    assert!(cache.session_rules(&"s1".to_owned()).is_none());
    // the proposal can still be approved afterwards
    let claim = cache
        .claim_approve(&"call_1".to_owned(), ApprovalScope::Session { match_policy: 7u8 }, Some(JsonValue::Bool(true)))
        .unwrap();
    let args = cache.finish_approve(&"call_1".to_owned(), claim, true, Ok::<(), &str>(())).unwrap();
    assert!(matches!(args, JsonValue::Bool(true)));
    assert_eq!(cache.entry(&"call_1".to_owned()).unwrap().state, ProposalState::Approved);
    assert_eq!(cache.session_rules(&"s1".to_owned()).unwrap().len(), 1);
}

#[test]
fn tool_call_approval_errors_name_the_entity() {
    match ApprovalError::NotFound.into_runtime("call_9") {
        RuntimeError::NotFound { entity, id } => {
            assert_eq!(entity, "tool_call_approval");
            assert_eq!(id, "call_9");
        }
        other => panic!("unexpected {other:?}"),
    }
    match (ApprovalError::InvalidTransition { from: "approved".to_owned(), to: "rejected".to_owned() }).into_runtime("c") {
        RuntimeError::InvalidTransition { entity, from, to } => {
            assert_eq!(entity, "tool_call_approval");
            assert_eq!(from, "approved");
            assert_eq!(to, "rejected");
        }
        other => panic!("unexpected {other:?}"),
    }
}
