use cairn_runtime::approval::ApprovalServiceImpl;
use cairn_runtime::domain::ProjectKey;
use cairn_runtime::prompt_release::PromptReleaseServiceImpl;
use cairn_runtime::recovery::Decision;
use cairn_runtime::runtime_error::RuntimeError;

fn project() -> ProjectKey {
    ProjectKey::new("t", "w", "p")
}

#[test]
fn release_created_as_draft_and_activation_needs_approved_state() {
    let mut releases = PromptReleaseServiceImpl::new();
    let approvals = ApprovalServiceImpl::new();
    let r = releases.create_at(&project(), "rel_1", "asset", "v1", 9).unwrap();
    assert_eq!((r.state.as_str(), r.created_at_ms), ("draft", 9));
    assert!(matches!(releases.create(&project(), "rel_1", "asset", "v1"), Err(RuntimeError::Conflict { .. })));
    match releases.activate("rel_1", &approvals) {
        Err(RuntimeError::InvalidTransition { entity, from, to }) => {
            assert_eq!((entity.as_str(), from.as_str(), to.as_str()), ("prompt_release", "draft", "active"))
        },
        other => panic!("unexpected {other:?}"),
    }
    assert!(matches!(releases.activate("nope", &approvals), Err(RuntimeError::NotFound { .. })));
    releases.transition("rel_1", "approved").unwrap();
    let active = releases.activate("rel_1", &approvals).unwrap();
    assert_eq!(active.state, "active");
}

#[test]
fn activation_supersedes_the_active_release_of_the_same_asset() {
    let mut releases = PromptReleaseServiceImpl::new();
    let approvals = ApprovalServiceImpl::new();
    let other_project = ProjectKey::new("t", "w", "q");
    for (id, asset, p) in [("a1", "asset", project()), ("a2", "asset", project()), ("b1", "other", project()), ("c1", "asset", other_project.duplicate())] {
        releases.create(&p, id, asset, "v").unwrap();
        releases.transition(id, "approved").unwrap();
    }
    releases.activate("a1", &approvals).unwrap();
    releases.activate("b1", &approvals).unwrap();
    releases.activate("c1", &approvals).unwrap();
    releases.activate("a2", &approvals).unwrap();
    let state = |id: &str| releases.get(id).unwrap().state.clone();
    assert_eq!(state("a1"), "approved");
    assert_eq!(state("a2"), "active");
    assert_eq!(state("b1"), "active");
    assert_eq!(state("c1"), "active");
}

#[test]
fn gated_release_needs_its_approval_approved() {
    let mut releases = PromptReleaseServiceImpl::new();
    let mut approvals = ApprovalServiceImpl::new();
    releases.create(&project(), "rel", "asset", "v").unwrap();
    releases.transition("rel", "approved").unwrap();
    releases.attach_approval_policy("rel", "policy_1").unwrap();
    assert!(matches!(releases.attach_approval_policy("nope", "policy_1"), Err(RuntimeError::NotFound { .. })));

    match releases.activate("rel", &approvals) {
        Err(RuntimeError::PolicyDenied { reason }) => assert!(reason.contains("call request_approval first")),
        other => panic!("unexpected {other:?}"),
    }
    let a = releases.request_approval("rel", &mut approvals).unwrap();
    assert_eq!(a.approval_id, "apr_rel_rel");
    assert_eq!(a.title.as_deref(), Some("Approve prompt release: rel"));
    match releases.activate("rel", &approvals) {
        Err(RuntimeError::PolicyDenied { reason }) => assert!(reason.contains("pending")),
        other => panic!("unexpected {other:?}"),
    }
    approvals.resolve("apr_rel_rel", Decision::Approved).unwrap();
    assert_eq!(releases.activate("rel", &approvals).unwrap().state, "active");
}

#[test]
fn gated_release_with_rejected_approval_is_denied() {
    let mut releases = PromptReleaseServiceImpl::new();
    let mut approvals = ApprovalServiceImpl::new();
    releases.create(&project(), "rel", "asset", "v").unwrap();
    releases.transition("rel", "approved").unwrap();
    releases.attach_approval_policy("rel", "policy_1").unwrap();
    releases.request_approval("rel", &mut approvals).unwrap();
    approvals.resolve("apr_rel_rel", Decision::Rejected).unwrap();
    match releases.activate("rel", &approvals) {
        Err(RuntimeError::PolicyDenied { reason }) => assert!(reason.contains("rejected")),
        other => panic!("unexpected {other:?}"),
    }
    // An approval that is not there is an internal error.
    let empty = ApprovalServiceImpl::new();
    assert!(matches!(releases.activate("rel", &empty), Err(RuntimeError::Internal { .. })));
}

#[test]
fn rollout_and_rollback() {
    let mut releases = PromptReleaseServiceImpl::new();
    releases.create(&project(), "old", "asset", "v1").unwrap();
    releases.create(&project(), "new", "asset", "v2").unwrap();
    releases.transition("new", "active").unwrap();
    let r = releases.start_rollout("new", 25).unwrap();
    assert_eq!(r.rollout_percent, Some(25));
    let back = releases.rollback("new", "old").unwrap();
    assert_eq!((back.prompt_release_id.as_str(), back.state.as_str()), ("old", "active"));
    assert_eq!(releases.get("new").unwrap().state, "archived");
    assert!(matches!(releases.rollback("new", "missing"), Err(RuntimeError::NotFound { ref id, .. }) if id == "missing"));
    assert_eq!(releases.list_by_project(&project(), 10, 0).len(), 2);
    assert_eq!(releases.list_by_project(&project(), 1, 1)[0].prompt_release_id, "new");
}
