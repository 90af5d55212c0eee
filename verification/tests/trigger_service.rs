use cairn_runtime::domain::ProjectKey;
use cairn_runtime::json::JsonValue;
use cairn_runtime::trigger::{
    auto_approve_decision, DecisionOutcome, RateLimitConfig, RunTemplate, SignalPattern, SkipReason, TemplateBudget,
    Trigger, TriggerError, TriggerEvent, TriggerService, TriggerState,
};
use cairn_runtime::trigger_conditions::{evaluate_condition, substitute_variables, TriggerCondition};

fn to_json(v: &serde_json::Value) -> JsonValue {
    match v {
        serde_json::Value::Null => JsonValue::Null,
        serde_json::Value::Bool(b) => JsonValue::Bool(*b),
        serde_json::Value::Number(n) => JsonValue::Number(n.to_string()),
        serde_json::Value::String(s) => JsonValue::Str(s.clone()),
        serde_json::Value::Array(items) => JsonValue::Array {
            items: items.iter().map(to_json).collect(),
            encoded: serde_json::to_string(v).unwrap(),
        },
        serde_json::Value::Object(map) => JsonValue::Object {
            fields: map.iter().map(|(k, x)| (k.clone(), to_json(x))).collect(),
            encoded: serde_json::to_string(v).unwrap(),
        },
    }
}

fn json(text: &str) -> JsonValue {
    let v: serde_json::Value = serde_json::from_str(text).unwrap();
    to_json(&v)
}

fn operator() -> String {
    "op-1".to_owned()
}

fn project() -> ProjectKey {
    ProjectKey::new("t1", "w1", "p1")
}

fn make_template(id: &str) -> RunTemplate {
    RunTemplate {
        id: id.to_owned(),
        project: project(),
        name: format!("Template {id}"),
        description: None,
        default_mode: "direct".to_owned(),
        system_prompt: "You are responding to {{action}} on issue #{{issue.number}}".into(),
        initial_user_message: None,
        plugin_allowlist: None,
        tool_allowlist: None,
        budget: TemplateBudget { max_tokens: None, max_wall_clock_ms: None, max_iterations: None },
        sandbox_hint: None,
        required_fields: Vec::new(),
        created_by: operator(),
        created_at: 0,
        updated_at: 0,
    }
}

fn make_trigger(id: &str, template_id: &str) -> Trigger {
    Trigger {
        id: id.to_owned(),
        project: project(),
        name: format!("Trigger {id}"),
        description: None,
        signal_pattern: SignalPattern { signal_type: "github.issue.labeled".into(), plugin_id: Some("github".into()) },
        conditions: vec![TriggerCondition::Contains { path: "labels[].name".into(), value: json("\"cairn-ready\"") }],
        run_template_id: template_id.to_owned(),
        state: TriggerState::Enabled,
        rate_limit: RateLimitConfig::default(),
        max_chain_depth: 5,
        created_by: operator(),
        created_at: 0,
        updated_at: 0,
    }
}

fn approve(t: &String, s: &str) -> DecisionOutcome {
    auto_approve_decision(t, s)
}

#[test]
fn condition_equals_matches() {
    let payload = json(r#"{"action": "labeled"}"#);
    let cond = TriggerCondition::Equals { path: "action".into(), value: json("\"labeled\"") };
    assert!(evaluate_condition(&cond, &payload));
}

#[test]
fn condition_equals_mismatches() {
    let payload = json(r#"{"action": "opened"}"#);
    let cond = TriggerCondition::Equals { path: "action".into(), value: json("\"labeled\"") };
    assert!(!evaluate_condition(&cond, &payload));
}

#[test]
fn condition_contains_array() {
    let payload = json(r#"{"labels": [{"name": "bug"}, {"name": "cairn-ready"}]}"#);
    let cond = TriggerCondition::Contains { path: "labels[].name".into(), value: json("\"cairn-ready\"") };
    assert!(evaluate_condition(&cond, &payload));
}

#[test]
fn condition_contains_array_no_match() {
    let payload = json(r#"{"labels": [{"name": "bug"}, {"name": "enhancement"}]}"#);
    let cond = TriggerCondition::Contains { path: "labels[].name".into(), value: json("\"cairn-ready\"") };
    assert!(!evaluate_condition(&cond, &payload));
}

#[test]
fn condition_exists() {
    let payload = json(r#"{"issue": {"number": 42}}"#);
    assert!(evaluate_condition(&TriggerCondition::Exists { path: "issue.number".into() }, &payload));
    assert!(!evaluate_condition(&TriggerCondition::Exists { path: "issue.title".into() }, &payload));
}

#[test]
fn condition_not() {
    let payload = json(r#"{"action": "opened"}"#);
    let cond = TriggerCondition::Not(Box::new(TriggerCondition::Equals { path: "action".into(), value: json("\"labeled\"") }));
    assert!(evaluate_condition(&cond, &payload));
}

#[test]
fn substitution_replaces_scalars() {
    let payload = json(
        r#"{"action": "labeled", "issue": {"number": 42, "title": "Fix login bug"}, "repository": {"full_name": "org/dogfood"}}"#,
    );
    let template = "Issue #{{issue.number}} in {{repository.full_name}}: {{issue.title}}";
    let result = substitute_variables(template, &payload, &vec![]).unwrap();
    assert_eq!(result, "Issue #42 in org/dogfood: Fix login bug");
}

#[test]
fn substitution_replaces_arrays() {
    let payload = json(r#"{"issue": {"labels": [{"name": "bug"}, {"name": "cairn-ready"}]}}"#);
    let template = "Labels: {{issue.labels[].name}}";
    let result = substitute_variables(template, &payload, &vec![]).unwrap();
    assert_eq!(result, "Labels: bug, cairn-ready");
}

#[test]
fn substitution_missing_field_empty_string() {
    let payload = json(r#"{"action": "labeled"}"#);
    let result = substitute_variables("Value: {{nonexistent}}", &payload, &vec![]).unwrap();
    assert_eq!(result, "Value: ");
}

#[test]
fn substitution_required_field_missing_errors() {
    let payload = json(r#"{"action": "labeled"}"#);
    let result = substitute_variables("{{issue.number}}", &payload, &vec!["issue.number".to_string()]);
    assert!(result.is_err());
    assert_eq!(result.unwrap_err(), vec!["issue.number".to_string()]);
}

#[test]
fn create_trigger_requires_template() {
    let mut svc = TriggerService::new();
    let trigger = make_trigger("t1", "nonexistent");
    assert!(matches!(svc.create_trigger(trigger), Err(TriggerError::TemplateNotFound(_))));
}

#[test]
fn create_and_evaluate_trigger() {
    let mut svc = TriggerService::new();
    svc.create_template(make_template("tmpl-1"));
    svc.create_trigger(make_trigger("t1", "tmpl-1")).unwrap();

    let payload = json(r#"{"action": "labeled", "labels": [{"name": "cairn-ready"}]}"#);
    let events = svc.evaluate_signal(&project(), &"sig-1".to_owned(), "github.issue.labeled", "github", &payload, None, &approve);

    assert_eq!(events.len(), 1);
    assert!(matches!(&events[0], TriggerEvent::TriggerFired { chain_depth: 1, .. }));
}

#[test]
fn condition_mismatch_skips() {
    let mut svc = TriggerService::new();
    svc.create_template(make_template("tmpl-1"));
    svc.create_trigger(make_trigger("t1", "tmpl-1")).unwrap();

    let payload = json(r#"{"action": "labeled", "labels": [{"name": "bug"}]}"#);
    let events = svc.evaluate_signal(&project(), &"sig-2".to_owned(), "github.issue.labeled", "github", &payload, None, &approve);

    assert_eq!(events.len(), 1);
    assert!(matches!(&events[0], TriggerEvent::TriggerSkipped { reason: SkipReason::ConditionMismatch, .. }));
}

#[test]
fn fire_ledger_dedup_prevents_duplicate() {
    let mut svc = TriggerService::new();
    svc.create_template(make_template("tmpl-1"));
    svc.create_trigger(make_trigger("t1", "tmpl-1")).unwrap();

    let payload = json(r#"{"labels": [{"name": "cairn-ready"}]}"#);
    let signal_id = "sig-dup".to_owned();

    let events1 = svc.evaluate_signal(&project(), &signal_id, "github.issue.labeled", "github", &payload, None, &approve);
    assert!(matches!(&events1[0], TriggerEvent::TriggerFired { .. }));

    let events2 = svc.evaluate_signal(&project(), &signal_id, "github.issue.labeled", "github", &payload, None, &approve);
    assert!(matches!(&events2[0], TriggerEvent::TriggerSkipped { reason: SkipReason::AlreadyFired, .. }));
}

#[test]
fn chain_depth_prevents_loops() {
    let mut svc = TriggerService::new();
    svc.create_template(make_template("tmpl-1"));

    let mut trigger = make_trigger("t1", "tmpl-1");
    trigger.max_chain_depth = 3;
    svc.create_trigger(trigger).unwrap();

    let payload = json(r#"{"labels": [{"name": "cairn-ready"}]}"#);

    let events =
        svc.evaluate_signal(&project(), &"sig-depth3".to_owned(), "github.issue.labeled", "github", &payload, Some(2), &approve);
    assert!(matches!(&events[0], TriggerEvent::TriggerFired { chain_depth: 3, .. }));

    let events =
        svc.evaluate_signal(&project(), &"sig-depth4".to_owned(), "github.issue.labeled", "github", &payload, Some(3), &approve);
    assert!(matches!(&events[0], TriggerEvent::TriggerSkipped { reason: SkipReason::ChainTooDeep, .. }));
}

#[test]
fn multiple_triggers_fan_out() {
    let mut svc = TriggerService::new();
    svc.create_template(make_template("tmpl-1"));
    svc.create_template(make_template("tmpl-2"));
    svc.create_trigger(make_trigger("t1", "tmpl-1")).unwrap();
    svc.create_trigger(make_trigger("t2", "tmpl-2")).unwrap();

    let payload = json(r#"{"labels": [{"name": "cairn-ready"}]}"#);
    let events = svc.evaluate_signal(&project(), &"sig-fan".to_owned(), "github.issue.labeled", "github", &payload, None, &approve);

    let fired_count = events.iter().filter(|e| matches!(e, TriggerEvent::TriggerFired { .. })).count();
    assert_eq!(fired_count, 2);
}

#[test]
fn delete_template_blocked_by_trigger() {
    let mut svc = TriggerService::new();
    svc.create_template(make_template("tmpl-1"));
    svc.create_trigger(make_trigger("t1", "tmpl-1")).unwrap();

    let result = svc.delete_template(&"tmpl-1".to_owned(), operator());
    assert!(matches!(result, Err(TriggerError::TemplateInUse { .. })));
}

#[test]
fn delete_template_succeeds_after_trigger_removed() {
    let mut svc = TriggerService::new();
    svc.create_template(make_template("tmpl-1"));
    svc.create_trigger(make_trigger("t1", "tmpl-1")).unwrap();

    svc.delete_trigger(&"t1".to_owned(), operator()).unwrap();
    let result = svc.delete_template(&"tmpl-1".to_owned(), operator());
    assert!(matches!(result, Ok(TriggerEvent::RunTemplateDeleted { .. })));
}

#[test]
fn cross_project_isolation() {
    let mut svc = TriggerService::new();
    svc.create_template(make_template("tmpl-1"));
    svc.create_trigger(make_trigger("t1", "tmpl-1")).unwrap();

    let payload = json(r#"{"labels": [{"name": "cairn-ready"}]}"#);
    let other_project = ProjectKey::new("t1", "w1", "p2");

    let events =
        svc.evaluate_signal(&other_project, &"sig-other".to_owned(), "github.issue.labeled", "github", &payload, None, &approve);
    assert!(events.is_empty());
}

#[test]
fn denied_decision_records_denial() {
    let mut svc = TriggerService::new();
    svc.create_template(make_template("tmpl-1"));
    svc.create_trigger(make_trigger("t1", "tmpl-1")).unwrap();
    let payload = json(r#"{"labels": [{"name": "cairn-ready"}]}"#);
    let deny = |_t: &String, _s: &str| DecisionOutcome::Denied { decision_id: "d1".to_owned(), reason: "policy".to_owned() };
    let events = svc.evaluate_signal(&project(), &"sig-deny".to_owned(), "github.issue.labeled", "github", &payload, None, &deny);
    assert_eq!(events.len(), 1);
    assert!(matches!(&events[0], TriggerEvent::TriggerDenied { reason, .. } if reason == "policy"));
}

#[test]
fn disabled_trigger_does_not_fire() {
    let mut svc = TriggerService::new();
    svc.create_template(make_template("tmpl-1"));
    svc.create_trigger(make_trigger("t1", "tmpl-1")).unwrap();
    svc.disable_trigger(&"t1".to_owned(), operator(), Some("maintenance".to_owned())).unwrap();
    let payload = json(r#"{"labels": [{"name": "cairn-ready"}]}"#);
    let events = svc.evaluate_signal(&project(), &"sig-off".to_owned(), "github.issue.labeled", "github", &payload, None, &approve);
    assert!(events.iter().all(|e| !matches!(e, TriggerEvent::TriggerFired { .. })));
}

#[test]
fn resume_refused_for_trigger_not_suspended() {
    let mut svc = TriggerService::new();
    svc.create_template(make_template("tmpl-1"));
    svc.create_trigger(make_trigger("t1", "tmpl-1")).unwrap();
    assert!(matches!(svc.resume_trigger(&"t1".to_owned()), Err(TriggerError::NotSuspended(_))));
    assert!(matches!(svc.resume_trigger(&"nope".to_owned()), Err(TriggerError::TriggerNotFound(_))));
}
