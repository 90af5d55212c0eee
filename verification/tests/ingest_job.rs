use cairn_runtime::domain::ProjectKey;
use cairn_runtime::ingest_job::{IngestJobServiceImpl, IngestJobState};
use cairn_runtime::runtime_error::RuntimeError;

fn test_project() -> ProjectKey {
    ProjectKey::new("tenant_acme", "ws_main", "project_alpha")
}

#[test]
fn start_persists_and_returns_job() {
    let mut svc = IngestJobServiceImpl::new();
    let record = svc.start(&test_project(), "job_1", Some("src_1".to_owned()), 5);
    assert_eq!(record.id, "job_1");
    assert_eq!(record.state, IngestJobState::Processing);
    assert_eq!(record.document_count, 5);
}

#[test]
fn complete_success_transitions_state() {
    let mut svc = IngestJobServiceImpl::new();
    svc.start(&test_project(), "job_2", None, 3);
    let record = svc.complete("job_2", true, None).unwrap();
    assert_eq!(record.state, IngestJobState::Completed);
    assert!(record.error_message.is_none());
}

#[test]
fn complete_failure_records_error() {
    let mut svc = IngestJobServiceImpl::new();
    svc.start(&test_project(), "job_3", None, 1);
    let record = svc.complete("job_3", false, Some("parse failed".to_owned())).unwrap();
    assert_eq!(record.state, IngestJobState::Failed);
    assert_eq!(record.error_message.as_deref(), Some("parse failed"));
}

#[test]
fn get_returns_started_job() {
    let mut svc = IngestJobServiceImpl::new();
    svc.start(&test_project(), "job_4", None, 2);
    let found = svc.get("job_4");
    assert!(found.is_some());
    assert_eq!(found.unwrap().document_count, 2);
}

#[test]
fn ingest_job_impl_get_nonexistent_returns_none() {
    let svc = IngestJobServiceImpl::new();
    assert!(svc.get("job_missing").is_none());
}

#[test]
fn list_by_project_returns_matching_jobs() {
    let mut svc = IngestJobServiceImpl::new();
    let project = test_project();
    let other = ProjectKey::new("other", "ws", "proj");
    svc.start(&project, "job_a", None, 1);
    svc.start(&project, "job_b", None, 2);
    svc.start(&other, "job_c", None, 3);
    assert_eq!(svc.list_by_project(&project, 10, 0).len(), 2);
    assert_eq!(svc.list_by_project(&other, 10, 0).len(), 1);
}

#[test]
fn complete_unknown_job_is_internal_error() {
    let mut svc = IngestJobServiceImpl::new();
    match svc.complete("nope", true, None) {
        Err(RuntimeError::Internal { message }) => assert_eq!(message, "ingest job not found after complete"),
        other => panic!("unexpected {other:?}"),
    }
    assert!(svc.get("nope").is_none());
}

#[test]
fn complete_keeps_start_fields_and_stamps_time() {
    let mut svc = IngestJobServiceImpl::new();
    svc.start_at(&test_project(), "job", Some("s".to_owned()), 7, 100);
    let done = svc.complete_at("job", false, Some("boom".to_owned()), 250).unwrap();
    assert_eq!((done.created_at_ms, done.updated_at_ms, done.document_count), (100, 250, 7));
    assert_eq!(done.source_id.as_deref(), Some("s"));
    // Starting the id again replaces the job in its place.
    svc.start_at(&test_project(), "job", None, 1, 300);
    let again = svc.get("job").unwrap();
    assert_eq!((again.state, again.document_count, again.created_at_ms), (IngestJobState::Processing, 1, 300));
    let page = svc.list_by_project(&test_project(), 10, 0);
    assert_eq!(page.len(), 1);
    assert!(svc.list_by_project(&test_project(), 10, 1).is_empty());
}
