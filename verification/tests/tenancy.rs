use cairn_runtime::domain::ProjectKey;
use cairn_runtime::runtime_error::RuntimeError;
use cairn_runtime::tenancy::{ProjectServiceImpl, TenantServiceImpl};

#[test]
fn create_persists_and_returns_tenant() {
    let mut svc = TenantServiceImpl::new();
    let record = svc.create("tenant_acme", "Acme Corp".to_owned()).unwrap();
    assert_eq!(record.tenant_id, "tenant_acme");
    assert_eq!(record.name, "Acme Corp");
}

#[test]
fn tenant_impl_create_duplicate_returns_conflict() {
    let mut svc = TenantServiceImpl::new();
    svc.create("tenant_acme", "Acme Corp".to_owned()).unwrap();
    let result = svc.create("tenant_acme", "Acme Corp 2".to_owned());
    assert!(result.is_err());
    match result {
        Err(RuntimeError::Conflict { entity, id }) => assert_eq!((entity.as_str(), id.as_str()), ("tenant", "tenant_acme")),
        other => panic!("unexpected {other:?}"),
    }
    assert_eq!(svc.get("tenant_acme").unwrap().name, "Acme Corp");
}

#[test]
fn get_returns_created_tenant() {
    let mut svc = TenantServiceImpl::new();
    svc.create("tenant_1", "Tenant One".to_owned()).unwrap();
    let found = svc.get("tenant_1");
    assert!(found.is_some());
    assert_eq!(found.unwrap().name, "Tenant One");
}

#[test]
fn tenant_impl_get_nonexistent_returns_none() {
    let svc = TenantServiceImpl::new();
    assert!(svc.get("missing").is_none());
}

#[test]
fn list_returns_all_tenants() {
    let mut svc = TenantServiceImpl::new();
    svc.create("t1", "One".to_owned()).unwrap();
    svc.create("t2", "Two".to_owned()).unwrap();
    let results = svc.list(10, 0);
    assert_eq!(results.len(), 2);
}

#[test]
fn tenant_list_pages_in_creation_order() {
    let mut svc = TenantServiceImpl::new();
    for (i, id) in ["a", "b", "c"].iter().enumerate() {
        svc.create_at(id, format!("n{i}"), 10 + i as u64).unwrap();
    }
    let page: Vec<String> = svc.list(2, 1).into_iter().map(|t| t.tenant_id).collect();
    assert_eq!(page, vec!["b".to_owned(), "c".to_owned()]);
    assert!(svc.list(5, 3).is_empty());
    assert_eq!(svc.get("c").unwrap().created_at_ms, 12);
}

fn test_project() -> ProjectKey {
    ProjectKey::new("tenant_acme", "ws_main", "project_alpha")
}

#[test]
fn create_persists_and_returns_project() {
    let mut svc = ProjectServiceImpl::new();
    let project = test_project();
    let record = svc.create(&project, "Alpha Project".to_owned()).unwrap();
    assert_eq!(record.project_id, project.project_id);
    assert_eq!(record.workspace_id, project.workspace_id);
    assert_eq!(record.tenant_id, project.tenant_id);
    assert_eq!(record.name, "Alpha Project");
}

#[test]
fn project_impl_create_duplicate_returns_conflict() {
    let mut svc = ProjectServiceImpl::new();
    let project = test_project();
    svc.create(&project, "Alpha".to_owned()).unwrap();
    let result = svc.create(&project, "Alpha 2".to_owned());
    assert!(result.is_err());
    assert!(matches!(result, Err(RuntimeError::Conflict { ref entity, ref id }) if entity == "project" && id == "project_alpha"));
}

#[test]
fn get_returns_created_project() {
    let mut svc = ProjectServiceImpl::new();
    let project = test_project();
    svc.create(&project, "Alpha".to_owned()).unwrap();
    let found = svc.get(&project);
    assert!(found.is_some());
    assert_eq!(found.unwrap().name, "Alpha");
}

#[test]
fn project_impl_get_nonexistent_returns_none() {
    let svc = ProjectServiceImpl::new();
    assert!(svc.get(&test_project()).is_none());
}

#[test]
fn list_by_workspace_filters_correctly() {
    let mut svc = ProjectServiceImpl::new();
    svc.create(&ProjectKey::new("t1", "ws1", "p_a"), "A".to_owned()).unwrap();
    svc.create(&ProjectKey::new("t1", "ws1", "p_b"), "B".to_owned()).unwrap();
    svc.create(&ProjectKey::new("t1", "ws2", "p_c"), "C".to_owned()).unwrap();
    assert_eq!(svc.list_by_workspace("t1", "ws1", 10, 0).len(), 2);
    assert_eq!(svc.list_by_workspace("t1", "ws2", 10, 0).len(), 1);
}

#[test]
fn same_project_id_in_another_workspace_is_another_project() {
    let mut svc = ProjectServiceImpl::new();
    svc.create(&ProjectKey::new("t1", "ws1", "p"), "A".to_owned()).unwrap();
    assert!(svc.create(&ProjectKey::new("t1", "ws2", "p"), "B".to_owned()).is_ok());
    let second: Vec<String> = svc.list_by_workspace("t1", "ws1", 1, 1).into_iter().map(|p| p.name).collect();
    assert!(second.is_empty());
    assert_eq!(svc.get(&ProjectKey::new("t1", "ws2", "p")).unwrap().name, "B");
}
