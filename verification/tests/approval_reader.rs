use cairn_runtime::domain::ProjectKey;
use cairn_runtime::json::JsonValue;
use cairn_runtime::tool_call_approval::{approved_proposal, ProposalEntry, ProposalState};

fn path(p: &str) -> JsonValue {
    JsonValue::Object {
        fields: vec![("path".to_owned(), JsonValue::Str(p.to_owned()))],
        encoded: format!("{{\"path\":\"{p}\"}}"),
    }
}

fn encoded(v: &JsonValue) -> String {
    match v {
        JsonValue::Object { encoded, .. } => encoded.clone(),
        other => panic!("not an object: {other:?}"),
    }
}

fn rec(state: ProposalState) -> ProposalEntry {
    ProposalEntry {
        project: ProjectKey::new("t", "w", "p"),
        session_id: "s".to_owned(),
        tool_name: "read".to_owned(),
        tool_args: path("/a"),
        state,
        amended_args: None,
        approved_args: None,
        rejection_reason: None,
    }
}

#[test]
fn pending_record_maps_to_none() {
    let r = rec(ProposalState::Pending);
    assert!(approved_proposal("tc", Some(&r)).is_none(), "pending must not leak as approved");
}

#[test]
fn approved_record_maps_with_original_args() {
    let r = rec(ProposalState::Approved);
    let got = approved_proposal("tc", Some(&r)).expect("approved record");
    assert_eq!(got.tool_name, "read");
    assert_eq!(encoded(&got.tool_args), "{\"path\":\"/a\"}");
}

#[test]
fn approved_record_prefers_approved_args_over_amended_and_original() {
    let mut r = rec(ProposalState::Approved);
    r.amended_args = Some(path("/b"));
    r.approved_args = Some(path("/c"));
    let got = approved_proposal("tc", Some(&r)).expect("approved record");
    assert_eq!(encoded(&got.tool_args), "{\"path\":\"/c\"}");
}

#[test]
fn approved_record_falls_back_to_amended_when_no_approved_args() {
    let mut r = rec(ProposalState::Approved);
    r.amended_args = Some(path("/b"));
    let got = approved_proposal("tc", Some(&r)).expect("approved record");
    assert_eq!(encoded(&got.tool_args), "{\"path\":\"/b\"}");
    assert_eq!(got.call_id, "tc");
}

#[test]
fn missing_or_rejected_record_maps_to_none() {
    assert!(approved_proposal("tc", None).is_none());
    assert!(approved_proposal("tc", Some(&rec(ProposalState::Rejected))).is_none());
    assert!(approved_proposal("tc", Some(&rec(ProposalState::Amended))).is_none());
}
