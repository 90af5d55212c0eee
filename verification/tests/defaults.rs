use cairn_runtime::defaults::{DefaultsServiceImpl, Scope};
use cairn_runtime::domain::ProjectKey;
use cairn_runtime::json::JsonValue;

fn string_of(v: Option<&JsonValue>) -> Option<String> {
    match v {
        Some(JsonValue::Str(s)) => Some(s.clone()),
        Some(other) => panic!("not a string: {other:?}"),
        None => None,
    }
}

#[test]
fn defaults_resolve_workspace_override_then_tenant_fallback_after_clear() {
    let mut service = DefaultsServiceImpl::new();
    let project = ProjectKey::new("tenant_defaults", "ws_defaults", "project_defaults");

    service.set(Scope::Tenant, "tenant_defaults", "model", JsonValue::Str("gpt-4".to_owned()));
    service.set(Scope::Workspace, "ws_defaults", "model", JsonValue::Str("gpt-3.5".to_owned()));

    let first = string_of(service.resolve(&project, "model"));
    assert_eq!(first.as_deref(), Some("gpt-3.5"));

    service.clear(Scope::Workspace, "ws_defaults", "model");

    let second = string_of(service.resolve(&project, "model"));
    assert_eq!(second.as_deref(), Some("gpt-4"));
}

#[test]
fn defaults_project_layer_wins_and_system_is_last() {
    let mut service = DefaultsServiceImpl::new();
    let project = ProjectKey::new("t", "w", "p");
    assert!(service.resolve(&project, "model").is_none());

    // The system layer is stored under `system`, whatever id it is given.
    let stored = service.set(Scope::System, "anything", "model", JsonValue::Str("base".to_owned()));
    assert_eq!((stored.scope, stored.scope_id.as_str(), stored.key.as_str()), (Scope::System, "system", "model"));
    assert!(matches!(stored.value, JsonValue::Str(ref v) if v == "base"));
    assert_eq!(string_of(service.resolve(&project, "model")).as_deref(), Some("base"));
    assert!(service.get(Scope::System, "system", "model").is_some());
    assert!(service.get(Scope::System, "anything", "model").is_none());

    service.set(Scope::Project, "p", "model", JsonValue::Str("mine".to_owned()));
    service.set(Scope::Tenant, "t", "model", JsonValue::Str("tenant".to_owned()));
    assert_eq!(string_of(service.resolve(&project, "model")).as_deref(), Some("mine"));

    // Setting a layer again replaces its value.
    service.set(Scope::Project, "p", "model", JsonValue::Str("again".to_owned()));
    assert_eq!(string_of(service.resolve(&project, "model")).as_deref(), Some("again"));

    // Another project of the tenant falls back to the tenant layer.
    let other = ProjectKey::new("t", "w2", "p2");
    assert_eq!(string_of(service.resolve(&other, "model")).as_deref(), Some("tenant"));
    // Another key has no value anywhere.
    assert!(service.resolve(&project, "temperature").is_none());
}
