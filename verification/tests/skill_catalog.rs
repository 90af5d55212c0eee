use cairn_runtime::json::JsonValue;
use cairn_runtime::runtime_error::RuntimeError;
use cairn_runtime::skill_catalog::{Skill, SkillCatalogServiceImpl, SkillInvocationStatus, SkillStatus};

fn to_json(v: &serde_json::Value) -> JsonValue {
    match v {
        serde_json::Value::Null => JsonValue::Null,
        serde_json::Value::Bool(b) => JsonValue::Bool(*b),
        serde_json::Value::Number(n) => JsonValue::Number(n.to_string()),
        serde_json::Value::String(s) => JsonValue::Str(s.clone()),
        serde_json::Value::Array(items) => JsonValue::Array {
            items: items.iter().map(to_json).collect(),
            encoded: serde_json::to_string(v).unwrap(),
        },
        serde_json::Value::Object(map) => JsonValue::Object {
            fields: map.iter().map(|(k, x)| (k.clone(), to_json(x))).collect(),
            encoded: serde_json::to_string(v).unwrap(),
        },
    }
}

fn json(text: &str) -> JsonValue {
    to_json(&serde_json::from_str::<serde_json::Value>(text).unwrap())
}

fn make_skill(id: &str) -> Skill {
    Skill {
        skill_id: id.to_owned(),
        name: format!("{id} Skill"),
        description: format!("Does {id} things"),
        version: "1.0.0".to_owned(),
        entry_point: format!("skills/{id}/main.md"),
        required_permissions: vec![],
        tags: vec!["general".to_owned()],
        enabled: false,
        status: SkillStatus::Proposed,
    }
}

#[test]
fn skill_register_enable_invoke_returns_invocation_id() {
    let mut svc = SkillCatalogServiceImpl::new();
    svc.register(make_skill("content-pipeline"));
    svc.enable("content-pipeline").unwrap();
    let inv = svc.invoke("content-pipeline", json(r#"{"topic": "AI news"}"#)).unwrap();
    assert!(!inv.invocation_id.is_empty(), "invocation_id must be returned");
    assert_eq!(inv.skill_id, "content-pipeline");
    assert_eq!(inv.status, SkillInvocationStatus::Running);
}

#[test]
fn invoke_disabled_skill_returns_policy_denied() {
    let mut svc = SkillCatalogServiceImpl::new();
    svc.register(make_skill("disabled-skill"));
    let err = svc.invoke("disabled-skill", json("{}")).unwrap_err();
    assert!(matches!(err, RuntimeError::PolicyDenied { .. }), "expected PolicyDenied, got: {err:?}");
    if let RuntimeError::PolicyDenied { reason } = err {
        assert_eq!(reason, "skill 'disabled-skill' is not enabled");
    }
}

#[test]
fn invoke_unknown_skill_returns_not_found() {
    let svc = SkillCatalogServiceImpl::new();
    let err = svc.invoke("ghost-skill", json("{}")).unwrap_err();
    assert!(matches!(err, RuntimeError::NotFound { .. }));
}

#[test]
fn enable_unknown_skill_returns_not_found() {
    let mut svc = SkillCatalogServiceImpl::new();
    let err = svc.enable("nonexistent").unwrap_err();
    assert!(matches!(err, RuntimeError::NotFound { .. }));
}

#[test]
fn list_returns_all_skills_without_filter() {
    let mut svc = SkillCatalogServiceImpl::new();
    svc.register(make_skill("a"));
    svc.register(make_skill("b"));
    assert_eq!(svc.list(&vec![]).len(), 2);
}

#[test]
fn list_filters_by_tag() {
    let mut svc = SkillCatalogServiceImpl::new();
    let mut s = make_skill("research");
    s.tags = vec!["research".to_owned()];
    svc.register(s);
    svc.register(make_skill("coding"));
    let research = svc.list(&vec!["research".to_owned()]);
    assert_eq!(research.len(), 1);
    assert_eq!(research[0].skill_id, "research");
}

#[test]
fn invoke_preserves_args() {
    let mut svc = SkillCatalogServiceImpl::new();
    svc.register(make_skill("writer"));
    svc.enable("writer").unwrap();
    let text = r#"{"topic": "Rust", "length": 500}"#;
    let inv = svc.invoke("writer", json(text)).unwrap();
    match (&inv.args, json(text)) {
        (JsonValue::Object { encoded: a, .. }, JsonValue::Object { encoded: b, .. }) => assert_eq!(a, &b),
        _ => panic!("args must stay an object"),
    }
}

#[test]
fn invocation_id_carries_the_time_and_disable_blocks() {
    let mut svc = SkillCatalogServiceImpl::new();
    svc.register(make_skill("w"));
    svc.enable("w").unwrap();
    assert_eq!(svc.invoke_at("w", JsonValue::Null, 123).unwrap().invocation_id, "inv_123");
    svc.disable("w").unwrap();
    assert!(matches!(svc.invoke_at("w", JsonValue::Null, 124), Err(RuntimeError::PolicyDenied { .. })));
    assert!(!svc.get("w").unwrap().enabled);
}
