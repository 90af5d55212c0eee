use cairn_runtime::route_resolution::{
    check_required_capabilities, resolve_first, AttemptDecision, FallbackChainResolver, RankedBinding, RouteStatus,
};

fn strings(v: &[&str]) -> Vec<String> {
    v.iter().map(|s| s.to_string()).collect()
}

fn ranked(id: &str, required: &[&str], available: &[&str]) -> RankedBinding {
    RankedBinding {
        provider_binding_id: id.to_owned(),
        required_capabilities: strings(required),
        available_capabilities: strings(available),
    }
}

#[test]
fn capability_check_passes_when_all_required_caps_available() {
    let required = strings(&["tool_use", "streaming"]);
    let available = strings(&["streaming", "tool_use"]);
    assert_eq!(check_required_capabilities(&required, &available), None);
}

#[test]
fn capability_check_vetoes_when_required_cap_missing() {
    let required = strings(&["tool_use"]);
    let available = strings(&["streaming"]);
    let missing = check_required_capabilities(&required, &available);
    assert_eq!(missing.map(|i| required[i].as_str()), Some("tool_use"));
}

#[test]
fn capability_check_passes_for_binding_with_no_requirements() {
    assert_eq!(check_required_capabilities(&vec![], &vec![]), None);
}

#[test]
fn fallback_chain_selects_primary_when_capable() {
    let resolver = FallbackChainResolver::new(vec![ranked("primary", &["tool_use"], &["tool_use"])]);
    let (decision, attempts) = resolver.resolve_with_attempts(&"p".to_owned(), 7);
    assert_eq!(decision.final_status, RouteStatus::Selected);
    assert!(!decision.fallback_used);
    assert_eq!(attempts.len(), 1);
    assert_eq!(attempts[0].decision, AttemptDecision::Selected);
}

#[test]
fn fallback_chain_uses_fallback_when_primary_lacks_capability() {
    let resolver = FallbackChainResolver::new(vec![
        ranked("primary", &["tool_use"], &[]),
        ranked("fallback", &[], &["tool_use"]),
    ]);
    let (decision, attempts) = resolver.resolve_with_attempts(&"p".to_owned(), 7);
    assert_eq!(decision.final_status, RouteStatus::Selected);
    assert!(decision.fallback_used, "fallback_used must be true when primary was vetoed");
    assert_eq!(decision.selected_provider_binding_id, Some("fallback".to_owned()));
    assert_eq!(attempts.len(), 2);
    assert_eq!(attempts[0].decision, AttemptDecision::Vetoed);
    assert_eq!(attempts[0].skip_reason.as_deref(), Some("missing capability: tool_use"));
    assert_eq!(attempts[1].decision, AttemptDecision::Selected);
}

#[test]
fn fallback_chain_no_viable_route_when_all_vetoed() {
    let resolver = FallbackChainResolver::new(vec![
        ranked("b1", &["reasoning_trace"], &[]),
        ranked("b2", &["reasoning_trace"], &[]),
    ]);
    let (decision, attempts) = resolver.resolve_with_attempts(&"p".to_owned(), 7);
    assert_eq!(decision.final_status, RouteStatus::NoViableRoute);
    assert!(decision.selected_provider_binding_id.is_none());
    assert_eq!(attempts.len(), 2);
    assert!(attempts.iter().all(|a| a.decision == AttemptDecision::Vetoed));
}

#[test]
fn fallback_chain_empty_is_no_viable_route() {
    let resolver = FallbackChainResolver::new(vec![]);
    let (decision, attempts) = resolver.resolve_with_attempts(&"p".to_owned(), 7);
    assert_eq!(decision.final_status, RouteStatus::NoViableRoute);
    assert_eq!(attempts.len(), 0);
    assert_eq!(decision.attempt_count, 0);
}

#[test]
fn attempt_and_decision_ids_carry_the_time() {
    let resolver = FallbackChainResolver::new(vec![ranked("a", &["x"], &[]), ranked("b", &[], &[])]);
    let (decision, attempts) = resolver.resolve_with_attempts(&"proj".to_owned(), 42);
    assert_eq!(decision.route_decision_id, "rd_42");
    assert_eq!(attempts[0].route_attempt_id, "ra_42_0");
    assert_eq!(attempts[1].route_attempt_id, "ra_42_1");
    assert_eq!(decision.selected_route_attempt_id.as_deref(), Some("ra_42_1"));
    assert_eq!(decision.attempt_count, 2);
}

#[test]
fn resolves_first_active_binding() {
    let decision = resolve_first(&strings(&["bind_1", "bind_2"]), &"p".to_owned(), 5, 6);
    assert_eq!(decision.final_status, RouteStatus::Selected);
    assert_eq!(decision.selected_provider_binding_id, Some("bind_1".to_owned()));
}

#[test]
fn no_bindings_returns_no_viable_route() {
    let decision = resolve_first(&vec![], &"p".to_owned(), 5, 6);
    assert_eq!(decision.final_status, RouteStatus::NoViableRoute);
    assert!(decision.selected_provider_binding_id.is_none());
    assert_eq!(decision.attempt_count, 0);
}
