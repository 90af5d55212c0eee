use cairn_runtime::domain::ProjectKey;
use cairn_runtime::quota::QuotaServiceImpl;
use cairn_runtime::runtime_error::RuntimeError;
use cairn_runtime::session::{SessionServiceImpl, SessionState};

fn project() -> ProjectKey {
    ProjectKey::new("t", "w", "p")
}

#[test]
fn session_create_opens_and_refuses_a_taken_id() {
    let mut sessions = SessionServiceImpl::new();
    let mut quotas = QuotaServiceImpl::new();
    quotas.set_quota("t", 5, 10, 3);
    let s = sessions.create(&project(), "sess_1", &mut quotas).unwrap();
    assert_eq!((s.session_id.as_str(), s.state), ("sess_1", SessionState::Open));
    match sessions.create(&project(), "sess_1", &mut quotas) {
        Err(RuntimeError::Conflict { entity, id }) => assert_eq!((entity.as_str(), id.as_str()), ("session", "sess_1")),
        other => panic!("unexpected {other:?}"),
    }
    assert_eq!(sessions.list(&project(), 10, 0).len(), 1);
    assert!(sessions.list(&ProjectKey::new("t", "w", "q"), 10, 0).is_empty());
}

#[test]
fn session_archive_is_idempotent_and_unknown_is_not_found() {
    let mut sessions = SessionServiceImpl::new();
    let mut quotas = QuotaServiceImpl::new();
    sessions.create(&project(), "s", &mut quotas).unwrap();
    let a = sessions.archive("s").unwrap();
    assert_eq!(a.state, SessionState::Archived);
    let again = sessions.archive("s").unwrap();
    assert_eq!(again.state, SessionState::Archived);
    assert!(matches!(sessions.archive("nope"), Err(RuntimeError::NotFound { .. })));
}

#[test]
fn session_derived_state_applies_until_the_session_ends() {
    let mut sessions = SessionServiceImpl::new();
    let mut quotas = QuotaServiceImpl::new();
    sessions.create(&project(), "s", &mut quotas).unwrap();
    // Runs still going: the session stays open.
    assert!(!sessions.update_derived_state("s", SessionState::Open));
    // The root run completed.
    assert!(sessions.update_derived_state("s", SessionState::Completed));
    assert_eq!(sessions.get("s").unwrap().state, SessionState::Completed);
    // An ended session keeps its state.
    assert!(!sessions.update_derived_state("s", SessionState::Failed));
    assert_eq!(sessions.get("s").unwrap().state, SessionState::Completed);
    assert!(!sessions.update_derived_state("unknown", SessionState::Failed));
}
