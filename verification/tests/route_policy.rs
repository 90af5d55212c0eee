use cairn_runtime::route_policy::RoutePolicyServiceImpl;
use cairn_runtime::runtime_error::RuntimeError;

#[test]
fn route_policy_create_refused_for_unknown_tenant() {
    let mut svc = RoutePolicyServiceImpl::new();
    let r = svc.create_at(false, "t_missing", "default".to_owned(), "[]".to_owned(), 1_000);
    match r {
        Err(RuntimeError::NotFound { entity, id }) => {
            assert_eq!(entity, "tenant");
            assert_eq!(id, "t_missing");
        }
        other => panic!("expected NotFound, got {:?}", other),
    }
    assert!(svc.get("route_policy_1000").is_none());
}

#[test]
fn route_policy_create_stores_enabled_policy() {
    let mut svc = RoutePolicyServiceImpl::new();
    let p = svc
        .create_at(true, "t1", "cheap-first".to_owned(), "[{\"priority\":1}]".to_owned(), 1_234)
        .unwrap();
    assert_eq!(p.policy_id, "route_policy_1234");
    assert_eq!(p.tenant_id, "t1");
    assert_eq!(p.name, "cheap-first");
    assert_eq!(p.rules_json, "[{\"priority\":1}]");
    assert!(p.enabled);
    let got = svc.get("route_policy_1234").unwrap();
    assert_eq!(got.name, "cheap-first");
    assert!(svc.get("route_policy_9").is_none());
}

#[test]
fn route_policy_created_in_same_millisecond_replaces() {
    let mut svc = RoutePolicyServiceImpl::new();
    svc.create_at(true, "t1", "first".to_owned(), "[]".to_owned(), 5).unwrap();
    svc.create_at(true, "t1", "second".to_owned(), "[]".to_owned(), 5).unwrap();
    svc.create_at(true, "t1", "third".to_owned(), "[]".to_owned(), 6).unwrap();
    assert_eq!(svc.get("route_policy_5").unwrap().name, "second");
    assert_eq!(svc.get("route_policy_6").unwrap().name, "third");
}

#[test]
fn route_policy_create_with_clock_has_prefixed_id() {
    let mut svc = RoutePolicyServiceImpl::new();
    let p = svc.create(true, "t1", "p".to_owned(), "[]".to_owned()).unwrap();
    assert!(p.policy_id.starts_with("route_policy_"));
    assert_eq!(svc.get(&p.policy_id).unwrap().tenant_id, "t1");
}
