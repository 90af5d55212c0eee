use cairn_runtime::plugin_capabilities::{
    delivery_failures, CapabilityEntry, CapabilityFamily, CapabilityRegistry, PluginEventRouter, ToolDescriptor,
    EVENT_FORWARD_METHOD,
};

fn tool(name: &str) -> ToolDescriptor {
    ToolDescriptor {
        name: name.to_owned(),
        description: format!("{name} tool"),
        input_schema: None,
        permissions: vec![],
    }
}

fn cap_wire(cap_type: &str) -> CapabilityEntry {
    CapabilityEntry {
        capability_type: cap_type.to_owned(),
        tools: None,
        signals: None,
        channels: None,
    }
}

#[test]
fn register_from_manifest_stores_families() {
    let mut reg = CapabilityRegistry::new();
    reg.register_from_manifest("com.example.git", &vec![cap_wire("tool_provider"), cap_wire("post_turn_hook")]);

    let caps = reg.get("com.example.git").unwrap();
    assert!(caps.families.contains(&CapabilityFamily::ToolProvider));
    assert!(caps.families.contains(&CapabilityFamily::PostTurnHook));
    assert!(!caps.families.contains(&CapabilityFamily::EvalScorer));
}

#[test]
fn register_tools_populates_tool_list() {
    let mut reg = CapabilityRegistry::new();
    reg.register_tools("p1", vec![tool("git.status"), tool("git.diff")]);

    let caps = reg.get("p1").unwrap();
    assert_eq!(caps.tools.len(), 2);
    assert!(caps.families.contains(&CapabilityFamily::ToolProvider));
}

#[test]
fn find_tool_provider_returns_correct_plugin() {
    let mut reg = CapabilityRegistry::new();
    reg.register_tools("git-plugin", vec![tool("git.status")]);
    reg.register_tools("slack-plugin", vec![tool("slack.send")]);

    assert_eq!(reg.find_tool_provider("git.status"), Some("git-plugin".to_owned()));
    assert_eq!(reg.find_tool_provider("slack.send"), Some("slack-plugin".to_owned()));
    assert!(reg.find_tool_provider("unknown.tool").is_none());
}

#[test]
fn plugins_with_family_filters_correctly() {
    let mut reg = CapabilityRegistry::new();
    reg.register_from_manifest("p1", &vec![cap_wire("tool_provider")]);
    reg.register_from_manifest("p2", &vec![cap_wire("eval_scorer")]);
    reg.register_from_manifest("p3", &vec![cap_wire("tool_provider"), cap_wire("eval_scorer")]);

    let tool_providers = reg.plugins_with_family(CapabilityFamily::ToolProvider);
    assert_eq!(tool_providers.len(), 2);
    assert!(tool_providers.contains(&"p1".to_owned()));
    assert!(tool_providers.contains(&"p3".to_owned()));
}

#[test]
fn event_subscriptions_work() {
    let mut reg = CapabilityRegistry::new();
    reg.register_event_subscriptions("audit-plugin", vec!["session_created".into(), "run_created".into()]);
    reg.register_event_subscriptions("metrics-plugin", vec!["run_created".into()]);

    let subscribers = reg.plugins_subscribed_to("run_created");
    assert_eq!(subscribers.len(), 2);

    let subscribers = reg.plugins_subscribed_to("session_created");
    assert_eq!(subscribers.len(), 1);
    assert_eq!(subscribers[0], "audit-plugin");

    assert!(reg.plugins_subscribed_to("unknown_event").is_empty());
}

#[test]
fn manifest_with_signals_and_channels() {
    let mut reg = CapabilityRegistry::new();
    let cap = CapabilityEntry {
        capability_type: "signal_source".to_owned(),
        tools: None,
        signals: Some(vec!["github.webhook".into(), "pagerduty.alert".into()]),
        channels: None,
    };
    let chan = CapabilityEntry {
        capability_type: "channel_provider".to_owned(),
        tools: None,
        signals: None,
        channels: Some(vec!["slack".into()]),
    };
    reg.register_from_manifest("integrations", &vec![cap, chan]);

    let caps = reg.get("integrations").unwrap();
    assert_eq!(caps.signal_sources, vec!["github.webhook", "pagerduty.alert"]);
    assert_eq!(caps.channels, vec!["slack"]);
    assert!(caps.families.contains(&CapabilityFamily::SignalSource));
    assert!(caps.families.contains(&CapabilityFamily::ChannelProvider));
}

#[test]
fn unregister_removes_all_state() {
    let mut reg = CapabilityRegistry::new();
    reg.register_tools("p1", vec![tool("t1")]);
    assert_eq!(reg.len(), 1);
    reg.unregister("p1");
    assert_eq!(reg.len(), 0);
    assert!(reg.get("p1").is_none());
}

#[test]
fn unknown_capability_type_ignored() {
    let mut reg = CapabilityRegistry::new();
    reg.register_from_manifest("p1", &vec![cap_wire("future_capability_v99")]);
    let caps = reg.get("p1").unwrap();
    assert!(caps.families.is_empty());
}

#[test]
fn subscribe_and_lookup() {
    let caps = CapabilityRegistry::new();
    let mut router = PluginEventRouter::new(caps);

    router.subscribe("audit-plugin", "session_created");
    router.subscribe("metrics-plugin", "session_created");
    router.subscribe("metrics-plugin", "run_created");

    let subs = router.subscribers_for("session_created");
    assert_eq!(subs.len(), 2);

    let subs = router.subscribers_for("run_created");
    assert_eq!(subs.len(), 1);
    assert!(subs.contains(&"metrics-plugin".to_owned()));

    assert!(router.subscribers_for("unknown_event").is_empty());
}

#[test]
fn unsubscribe_removes_single_subscription() {
    let caps = CapabilityRegistry::new();
    let mut router = PluginEventRouter::new(caps);

    router.subscribe("p1", "session_created");
    router.subscribe("p2", "session_created");
    router.unsubscribe("p1", "session_created");

    let subs = router.subscribers_for("session_created");
    assert_eq!(subs.len(), 1);
    assert!(subs.contains(&"p2".to_owned()));
}

#[test]
fn unsubscribe_all_removes_plugin_from_all_events() {
    let caps = CapabilityRegistry::new();
    let mut router = PluginEventRouter::new(caps);

    router.subscribe("p1", "session_created");
    router.subscribe("p1", "run_created");
    router.subscribe("p2", "session_created");

    router.unsubscribe_all("p1");

    let subs = router.subscribers_for("session_created");
    assert_eq!(subs.len(), 1);
    assert!(subs.contains(&"p2".to_owned()));
    assert!(router.subscribers_for("run_created").is_empty());
}

#[test]
fn merges_registry_and_explicit_subscriptions() {
    let mut caps = CapabilityRegistry::new();
    caps.register_event_subscriptions("registry-plugin", vec!["session_created".into()]);

    let mut router = PluginEventRouter::new(caps);
    router.subscribe("explicit-plugin", "session_created");

    let subs = router.subscribers_for("session_created");
    assert_eq!(subs.len(), 2);
}

#[test]
fn dispatch_with_no_subscribers_returns_empty() {
    let caps = CapabilityRegistry::new();
    let router = PluginEventRouter::new(caps);
    let subscribers = router.subscribers_for("session_created");
    assert!(subscribers.is_empty());
    let failures = delivery_failures("session_created", &subscribers, &vec![]);
    assert!(failures.is_empty());
}

#[test]
fn dispatch_to_missing_plugin_records_failure() {
    let caps = CapabilityRegistry::new();
    let mut router = PluginEventRouter::new(caps);
    router.subscribe("nonexistent-plugin", "session_created");

    let subscribers = router.subscribers_for("session_created");
    let outcomes: Vec<Option<String>> = subscribers.iter().map(|p| Some(format!("plugin not running: {p}"))).collect();
    let failures = delivery_failures("session_created", &subscribers, &outcomes);

    assert_eq!(failures.len(), 1);
    assert_eq!(failures[0].plugin_id, "nonexistent-plugin");
    assert_eq!(failures[0].event_type, "session_created");
}

#[test]
fn subscribing_twice_counts_once() {
    let mut router = PluginEventRouter::new(CapabilityRegistry::new());
    router.subscribe("p1", "run_created");
    router.subscribe("p1", "run_created");
    assert_eq!(router.subscribers_for("run_created"), vec!["p1".to_owned()]);
}

#[test]
fn registry_and_explicit_subscriber_listed_once() {
    let mut caps = CapabilityRegistry::new();
    caps.register_event_subscriptions("p1", vec!["run_created".into()]);
    let mut router = PluginEventRouter::new(caps);
    router.subscribe("p1", "run_created");
    router.subscribe("p2", "run_created");
    assert_eq!(router.subscribers_for("run_created"), vec!["p1".to_owned(), "p2".to_owned()]);
}

#[test]
fn delivery_failures_keep_only_errors_in_order() {
    let subscribers = vec!["a".to_owned(), "b".to_owned(), "c".to_owned()];
    let outcomes = vec![Some("down".to_owned()), None, Some("timeout".to_owned())];
    let failures = delivery_failures("run_created", &subscribers, &outcomes);
    assert_eq!(failures.len(), 2);
    assert_eq!(failures[0].plugin_id, "a");
    assert_eq!(failures[0].error, "down");
    assert_eq!(failures[1].plugin_id, "c");
    assert_eq!(failures[1].error, "timeout");
    assert_eq!(failures[1].event_type, "run_created");
}

#[test]
fn event_forward_method_name() {
    assert_eq!(EVENT_FORWARD_METHOD, "event.forward");
}

#[test]
fn unsubscribe_unknown_is_harmless() {
    let mut router = PluginEventRouter::new(CapabilityRegistry::new());
    router.unsubscribe("p1", "never_subscribed");
    router.unsubscribe_all("p1");
    assert!(router.subscribers_for("never_subscribed").is_empty());
}
