use cairn_runtime::domain::ProjectKey;
use cairn_runtime::prompt_registry::{PromptAssetServiceImpl, PromptVersionServiceImpl};
use cairn_runtime::resource_sharing::ResourceSharingServiceImpl;
use cairn_runtime::runtime_error::RuntimeError;

#[test]
fn prompt_asset_create_get_and_conflict() {
    let mut assets = PromptAssetServiceImpl::new();
    let project = ProjectKey::new("t", "ws_a", "p");
    let a = assets.create_at(&project, "asset_1", "Greeting".to_owned(), "system".to_owned(), 7).unwrap();
    assert_eq!((a.workspace_id.as_str(), a.created_at_ms), ("ws_a", 7));
    match assets.create(&project, "asset_1", "Again".to_owned(), "system".to_owned()) {
        Err(RuntimeError::Conflict { entity, id }) => assert_eq!((entity.as_str(), id.as_str()), ("prompt_asset", "asset_1")),
        other => panic!("unexpected {other:?}"),
    }
    assert_eq!(assets.get("asset_1").unwrap().name, "Greeting");
    assert!(assets.get("asset_2").is_none());
    assert_eq!(assets.list_by_project(&project, 10, 0).len(), 1);
    assert!(assets.list_by_project(&ProjectKey::new("t", "ws_a", "q"), 10, 0).is_empty());
    assert!(assets.list_by_workspace("t", "ws_a", 10, 0).is_empty());
}

#[test]
fn prompt_version_cross_workspace_needs_version_share() {
    let mut assets = PromptAssetServiceImpl::new();
    let mut versions = PromptVersionServiceImpl::new();
    let mut sharing = ResourceSharingServiceImpl::new();
    let owner = ProjectKey::new("t", "ws_a", "p");
    let other = ProjectKey::new("t", "ws_b", "q");
    assets.create(&owner, "asset", "A".to_owned(), "system".to_owned()).unwrap();

    // The owner's workspace needs no share.
    let v1 = versions.create_at(&owner, "v1", "asset", "h1".to_owned(), &assets, &sharing, 3).unwrap();
    assert_eq!((v1.workspace_id.as_str(), v1.created_at_ms), ("ws_a", 3));

    // Another workspace is refused without a share, and with one lacking `version`.
    let err = versions.create(&other, "v2", "asset", "h2".to_owned(), &assets, &sharing).unwrap_err();
    assert!(matches!(err, RuntimeError::PolicyDenied { ref reason } if reason.contains("no resource share grants workspace 'ws_b'")));
    sharing.share("t", "ws_a", "ws_b", "prompt_asset", "asset", vec!["read".to_owned()]);
    let err = versions.create(&other, "v2", "asset", "h2".to_owned(), &assets, &sharing).unwrap_err();
    assert!(matches!(err, RuntimeError::PolicyDenied { ref reason } if reason.contains("does not grant 'version'")));
    assert!(versions.get("v2").is_none());

    // A version of an unknown asset is accepted.
    assert!(versions.create(&other, "v3", "no_such_asset", "h".to_owned(), &assets, &sharing).is_ok());

    // A taken id is a conflict.
    assert!(matches!(
        versions.create(&owner, "v1", "asset", "h".to_owned(), &assets, &sharing),
        Err(RuntimeError::Conflict { .. })
    ));
    let listed: Vec<String> = versions.list_by_asset("asset", 10, 0).into_iter().map(|v| v.prompt_version_id).collect();
    assert_eq!(listed, vec!["v1".to_owned()]);
}
