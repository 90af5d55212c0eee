use cairn_runtime::audit::{AuditOutcome, AuditServiceImpl};
use cairn_runtime::domain::ProjectKey;
use cairn_runtime::json::JsonValue;
use cairn_runtime::mailbox::MailboxServiceImpl;

#[test]
fn record_creates_audit_entry() {
    let mut service = AuditServiceImpl::new();
    let metadata = JsonValue::Object {
        fields: vec![("source".to_owned(), JsonValue::Str("test".to_owned()))],
        encoded: "{\"source\":\"test\"}".to_owned(),
    };
    let entry = service.record(
        "tenant_audit".to_owned(),
        "operator_1".to_owned(),
        "create_tenant".to_owned(),
        "tenant".to_owned(),
        "tenant_audit".to_owned(),
        AuditOutcome::Success,
        metadata,
    );
    assert_eq!(entry.tenant_id, "tenant_audit");
    assert_eq!(entry.action, "create_tenant");
    assert_eq!(entry.resource_type, "tenant");
    assert_eq!(entry.resource_id, "tenant_audit");
    assert!(matches!(entry.metadata, JsonValue::Object { ref encoded, .. } if encoded == "{\"source\":\"test\"}"));
}

#[test]
fn audit_entries_are_numbered_in_order() {
    let mut service = AuditServiceImpl::new();
    let a = service.record_at("t".into(), "a".into(), "x".into(), "r".into(), "1".into(), AuditOutcome::Success, JsonValue::Null, 5);
    let b = service.record_at("t".into(), "b".into(), "y".into(), "r".into(), "2".into(), AuditOutcome::Failure, JsonValue::Null, 6);
    assert_eq!((a.entry_id.as_str(), b.entry_id.as_str()), ("audit_1", "audit_2"));
    assert_eq!((b.occurred_at_ms, b.outcome), (6, AuditOutcome::Failure));
    assert!(b.request_id.is_none() && b.ip_address.is_none());
}

fn project() -> ProjectKey {
    ProjectKey::new("t", "w", "p")
}

#[test]
fn mailbox_send_addresses_task_and_names_sender() {
    let mut mb = MailboxServiceImpl::new();
    let m = mb.send_at(&project(), "task_a", "task_b", "hello".to_owned(), 42);
    assert_eq!(m.message_id, "msg_task_a_42");
    assert_eq!(m.task_id.as_deref(), Some("task_b"));
    assert_eq!(m.from_task_id.as_deref(), Some("task_a"));
    assert_eq!(m.deliver_at_ms, 0);
    let got = mb.receive("task_b", 10);
    assert_eq!(got.len(), 1);
    assert_eq!(got[0].content, "hello");
    assert!(mb.receive("task_a", 10).is_empty());
}

#[test]
fn mailbox_append_lists_by_run_and_task_in_pages() {
    let mut mb = MailboxServiceImpl::new();
    mb.append(&project(), "m1", Some("run_1".into()), None, "a".into(), None, 0);
    mb.append(&project(), "m2", Some("run_1".into()), Some("task_1".into()), "b".into(), Some("run_0".into()), 9);
    mb.append(&project(), "m3", Some("run_2".into()), Some("task_1".into()), "c".into(), None, 0);
    let run1: Vec<String> = mb.list_by_run("run_1", 10, 0).into_iter().map(|m| m.message_id).collect();
    assert_eq!(run1, vec!["m1".to_owned(), "m2".to_owned()]);
    let task1: Vec<String> = mb.list_by_task("task_1", 1, 1).into_iter().map(|m| m.message_id).collect();
    assert_eq!(task1, vec!["m3".to_owned()]);
    assert_eq!(mb.get("m2").unwrap().from_run_id.as_deref(), Some("run_0"));
    // The same id again replaces the message in its place.
    mb.append(&project(), "m1", Some("run_3".into()), None, "z".into(), None, 0);
    assert!(mb.list_by_run("run_1", 10, 0).iter().all(|m| m.message_id == "m2"));
    assert_eq!(mb.get("m1").unwrap().content, "z");
    assert!(mb.get("m9").is_none());
}
