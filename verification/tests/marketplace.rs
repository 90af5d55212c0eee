use std::sync::Arc;

use cairn_runtime::domain::ProjectKey;
use cairn_runtime::marketplace::{
    DescriptorSource, MarketplaceCommand, MarketplaceError, MarketplaceEvent, MarketplaceService, MarketplaceState,
    VerificationOutcome,
};

fn test_store() -> Arc<()> {
    Arc::new(())
}

fn operator() -> String {
    "op-1".to_owned()
}

fn project_p1() -> ProjectKey {
    ProjectKey::new("t1", "w1", "p1")
}

fn installed() -> MarketplaceService<()> {
    let mut svc = MarketplaceService::new(test_store());
    svc.list_plugin("github".into(), DescriptorSource::BundledCatalog);
    svc.handle_command(MarketplaceCommand::InstallPlugin { plugin_id: "github".into(), initiated_by: operator() }).unwrap();
    svc
}

#[test]
fn list_then_install_succeeds() {
    let mut svc = MarketplaceService::new(test_store());
    let listed = svc.list_plugin("github".into(), DescriptorSource::BundledCatalog);
    assert!(matches!(listed, MarketplaceEvent::PluginListed { .. }));

    let events = svc
        .handle_command(MarketplaceCommand::InstallPlugin { plugin_id: "github".into(), initiated_by: operator() })
        .unwrap();

    assert_eq!(events.len(), 2);
    assert!(matches!(&events[0], MarketplaceEvent::PluginInstallationStarted { .. }));
    assert!(matches!(&events[1], MarketplaceEvent::PluginInstalled { .. }));

    let record = svc.get_record("github").unwrap();
    assert!(matches!(record.state, MarketplaceState::Installed));
}

#[test]
fn install_unlisted_plugin_fails() {
    let mut svc = MarketplaceService::<()>::new(test_store());
    let result = svc.handle_command(MarketplaceCommand::InstallPlugin { plugin_id: "unknown".into(), initiated_by: operator() });
    assert!(matches!(result, Err(MarketplaceError::PluginNotFound(_))));
}

#[test]
fn enable_requires_installed() {
    let mut svc = MarketplaceService::new(test_store());
    svc.list_plugin("github".into(), DescriptorSource::BundledCatalog);

    let result = svc.handle_command(MarketplaceCommand::EnablePluginForProject {
        plugin_id: "github".into(),
        project: project_p1(),
        tool_allowlist: None,
        signal_allowlist: None,
        signal_capture_override: None,
        enabled_by: operator(),
    });
    assert!(matches!(result, Err(MarketplaceError::PluginNotInstalled(_))));
}

#[test]
fn enable_disable_lifecycle() {
    let mut svc = installed();

    let events = svc
        .handle_command(MarketplaceCommand::EnablePluginForProject {
            plugin_id: "github".into(),
            project: project_p1(),
            tool_allowlist: Some(vec!["github.get_issue".into()]),
            signal_allowlist: Some(vec!["github.issue.opened".into()]),
            signal_capture_override: Some(r#"{"graph_project":false,"memory_ingest":null}"#.to_owned()),
            enabled_by: operator(),
        })
        .unwrap();

    assert_eq!(events.len(), 1);
    if let MarketplaceEvent::PluginEnabledForProject { tool_allowlist, signal_allowlist, signal_capture_override, .. } = &events[0] {
        assert_eq!(tool_allowlist.as_ref().unwrap(), &vec!["github.get_issue".to_string()]);
        assert_eq!(signal_allowlist.as_ref().unwrap(), &vec!["github.issue.opened".to_string()]);
        let o: serde_json::Value = serde_json::from_str(signal_capture_override.as_ref().unwrap()).unwrap();
        assert_eq!(o["graph_project"].as_bool(), Some(false));
    } else {
        panic!("expected PluginEnabledForProject");
    }

    let enablement = svc.get_enablement("github", &project_p1()).unwrap();
    assert!(enablement.enabled);

    svc.handle_command(MarketplaceCommand::DisablePluginForProject {
        plugin_id: "github".into(),
        project: project_p1(),
        disabled_by: operator(),
    })
    .unwrap();

    let enablement = svc.get_enablement("github", &project_p1()).unwrap();
    assert!(!enablement.enabled);
}

#[test]
fn uninstall_removes_all_enablements() {
    let mut svc = installed();
    let p1 = project_p1();
    let p2 = ProjectKey::new("t1", "w1", "p2");

    for p in [&p1, &p2] {
        svc.handle_command(MarketplaceCommand::EnablePluginForProject {
            plugin_id: "github".into(),
            project: p.duplicate(),
            tool_allowlist: None,
            signal_allowlist: None,
            signal_capture_override: None,
            enabled_by: operator(),
        })
        .unwrap();
    }

    assert_eq!(svc.enablements_for_project(&p1).len(), 1);
    assert_eq!(svc.enablements_for_project(&p2).len(), 1);

    svc.handle_command(MarketplaceCommand::UninstallPlugin { plugin_id: "github".into(), uninstalled_by: operator() }).unwrap();

    assert_eq!(svc.enablements_for_project(&p1).len(), 0);
    assert_eq!(svc.enablements_for_project(&p2).len(), 0);
    assert!(matches!(svc.get_record("github").unwrap().state, MarketplaceState::Uninstalled));
}

#[test]
fn per_project_isolation() {
    let mut svc = installed();
    let p1 = project_p1();
    let p2 = ProjectKey::new("t1", "w1", "p2");

    svc.handle_command(MarketplaceCommand::EnablePluginForProject {
        plugin_id: "github".into(),
        project: p1.duplicate(),
        tool_allowlist: None,
        signal_allowlist: None,
        signal_capture_override: None,
        enabled_by: operator(),
    })
    .unwrap();

    assert_eq!(svc.enablements_for_project(&p1).len(), 1);
    assert_eq!(svc.enablements_for_project(&p2).len(), 0);
}

#[test]
fn verify_credentials_is_ephemeral() {
    let mut svc = installed();

    let events = svc
        .handle_command(MarketplaceCommand::VerifyPluginCredentials {
            plugin_id: "github".into(),
            credential_scope_key: None,
            verified_by: operator(),
        })
        .unwrap();

    assert_eq!(events.len(), 1);
    assert!(matches!(
        &events[0],
        MarketplaceEvent::PluginCredentialsVerified { outcome: VerificationOutcome::Verified, .. }
    ));
    assert!(matches!(svc.get_record("github").unwrap().state, MarketplaceState::Installed));
}

#[test]
fn disable_without_enablement_is_refused() {
    let mut svc = installed();
    let result = svc.handle_command(MarketplaceCommand::DisablePluginForProject {
        plugin_id: "github".into(),
        project: project_p1(),
        disabled_by: operator(),
    });
    assert!(matches!(result, Err(MarketplaceError::NotEnabledForProject { .. })));
}
