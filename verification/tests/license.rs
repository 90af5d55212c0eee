use cairn_runtime::license::{decide_feature, FeatureGateResult, LicenseServiceImpl};

fn denied(reason: &str) -> FeatureGateResult {
    FeatureGateResult::Denied { reason: reason.to_owned() }
}

#[test]
fn license_activate_and_override_changes_feature_check() {
    let mut service = LicenseServiceImpl::new();
    let tenant_id = "tenant_acme";

    let license = service.activate(tenant_id, "local_eval".to_owned(), None);
    assert_eq!(license.tier, "local_eval");

    // The local evaluation tier's gate denies the feature.
    let base = denied("feature 'advanced_audit_export' requires a higher tier");
    let refused = service.check_feature(tenant_id, "advanced_audit_export", base);
    assert!(matches!(refused, FeatureGateResult::Denied { .. }));

    service.set_override(tenant_id, "advanced_audit_export", true, Some("manager override".to_owned()));

    let base = denied("feature 'advanced_audit_export' requires a higher tier");
    let allowed = service.check_feature(tenant_id, "advanced_audit_export", base);
    assert_eq!(allowed, FeatureGateResult::Allowed);
}

#[test]
fn license_without_activation_is_denied() {
    let service = LicenseServiceImpl::new();
    assert_eq!(
        service.check_feature("t", "x", FeatureGateResult::Allowed),
        denied("no active license for tenant 't'")
    );
}

#[test]
fn license_id_names_tenant_and_issue_time() {
    let mut service = LicenseServiceImpl::new();
    let first = service.activate_at("acme", "team".to_owned(), Some(9_000), 1_234);
    assert_eq!(first.license_id, "lic_acme_1234");
    assert_eq!((first.valid_from_ms, first.valid_until_ms), (1_234, Some(9_000)));
    service.activate_at("acme", "enterprise".to_owned(), None, 2_000);
    let active = service.get_active("acme").unwrap();
    assert_eq!((active.license_id.as_str(), active.tier.as_str()), ("lic_acme_2000", "enterprise"));
    assert!(service.get_active("other").is_none());
}

#[test]
fn license_denying_override_gives_its_reason_or_a_default() {
    let mut service = LicenseServiceImpl::new();
    service.activate_at("t", "team".to_owned(), None, 1);
    service.set_override_at("t", "f", false, Some("blocked".to_owned()), 5);
    assert_eq!(service.check_feature("t", "f", FeatureGateResult::Allowed), denied("blocked"));
    // Setting the override again replaces it.
    let o = service.set_override_at("t", "f", false, None, 6);
    assert_eq!(o.set_at_ms, 6);
    assert_eq!(service.check_feature("t", "f", FeatureGateResult::Allowed), denied("feature 'f' disabled by override"));
    assert_eq!(service.get_override("t", "f").unwrap().set_at_ms, 6);
    assert_eq!(service.check_feature("t", "g", FeatureGateResult::Allowed), FeatureGateResult::Allowed);
    assert_eq!(service.check_feature("t", "g", denied("gate")), denied("gate"));
}

#[test]
fn decide_feature_order_of_precedence() {
    assert_eq!(decide_feature(false, "t", "f", FeatureGateResult::Allowed, None), denied("no active license for tenant 't'"));
    assert_eq!(decide_feature(true, "t", "f", denied("gate"), None), denied("gate"));
}
