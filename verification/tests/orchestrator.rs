use cairn_runtime::json::JsonValue;
use cairn_runtime::orchestrator::{ActionFields, ActionType, ContextBundle, PromptBuilder, ResponseParser, TaskSummary};

fn to_json(v: &serde_json::Value) -> JsonValue {
    match v {
        serde_json::Value::Null => JsonValue::Null,
        serde_json::Value::Bool(b) => JsonValue::Bool(*b),
        serde_json::Value::Number(n) => JsonValue::Number(n.to_string()),
        serde_json::Value::String(s) => JsonValue::Str(s.clone()),
        serde_json::Value::Array(items) => JsonValue::Array {
            items: items.iter().map(to_json).collect(),
            encoded: serde_json::to_string(v).unwrap(),
        },
        serde_json::Value::Object(map) => JsonValue::Object {
            fields: map.iter().map(|(k, x)| (k.clone(), to_json(x))).collect(),
            encoded: serde_json::to_string(v).unwrap(),
        },
    }
}

/// Parses a reply the way the caller does: strip fences, parse JSON, read.
fn parse(raw: &str) -> Vec<ActionFields> {
    let cleaned = ResponseParser::strip_markdown_fence(raw);
    let parsed = serde_json::from_str::<serde_json::Value>(&cleaned).ok().map(|v| to_json(&v));
    ResponseParser::parse(raw, parsed)
}

fn confidence(f: &ActionFields) -> f64 {
    f.confidence.as_deref().map(|c| c.parse::<f64>().unwrap()).unwrap_or(0.5).clamp(0.0, 1.0)
}

fn base_ctx() -> ContextBundle {
    ContextBundle {
        run_id: "run_orch_1".to_owned(),
        session_id: "sess_1".to_owned(),
        goal: "Research and summarise the cairn-rs architecture.".to_owned(),
        task_history: vec![],
        available_tools: vec!["cairn.search".to_owned(), "cairn.retrieve".to_owned()],
        memory_snippets: vec![],
        pending_approvals: vec![],
        agent_role: Some("orchestrator".to_owned()),
        iteration: 1,
    }
}

#[test]
fn prompt_builder_produces_system_and_user() {
    let msgs = PromptBuilder::build(&base_ctx());
    assert_eq!(msgs.len(), 2);
    assert_eq!(msgs[0].role, "system");
    assert_eq!(msgs[1].role, "user");
}

#[test]
fn prompt_builder_system_lists_all_action_types() {
    let msgs = PromptBuilder::build(&base_ctx());
    let sys = msgs[0].content.as_str();
    assert!(sys.contains("spawn_subagent"), "missing spawn_subagent");
    assert!(sys.contains("invoke_tool"), "missing invoke_tool");
    assert!(sys.contains("create_memory"), "missing create_memory");
    assert!(sys.contains("complete_run"), "missing complete_run");
    assert!(sys.contains("escalate_to_operator"), "missing escalate_to_operator");
    assert!(sys.contains("JSON array"), "must instruct JSON array return");
}

#[test]
fn prompt_builder_user_contains_goal_and_run_id() {
    let msgs = PromptBuilder::build(&base_ctx());
    let user = msgs[1].content.as_str();
    assert!(user.contains("cairn-rs architecture"), "goal must be embedded");
    assert!(user.contains("run_orch_1"), "run_id must be embedded");
    assert!(user.contains("cairn.search"), "tools must be embedded");
}

#[test]
fn prompt_builder_embeds_task_history() {
    let mut ctx = base_ctx();
    ctx.task_history = vec![TaskSummary {
        task_id: "task_1".to_owned(),
        description: Some("fetch RFC docs".to_owned()),
        state: "completed".to_owned(),
        result: Some("found 12 RFC files".to_owned()),
    }];
    let user = PromptBuilder::build(&ctx)[1].content.clone();
    assert!(user.contains("task_1"), "task_id must appear");
    assert!(user.contains("found 12 RFC files"), "task result must appear");
}

#[test]
fn prompt_builder_embeds_memory_snippets() {
    let mut ctx = base_ctx();
    ctx.memory_snippets = vec!["cairn-rs uses event sourcing".to_owned()];
    let user = PromptBuilder::build(&ctx)[1].content.clone();
    assert!(user.contains("event sourcing"), "memory snippet must appear");
}

#[test]
fn prompt_builder_embeds_pending_approvals() {
    let mut ctx = base_ctx();
    ctx.pending_approvals = vec!["appr_abc".to_owned()];
    let user = PromptBuilder::build(&ctx)[1].content.clone();
    assert!(user.contains("appr_abc"), "approval id must appear");
}

#[test]
fn parser_valid_spawn_and_complete() {
    let raw = r#"[
      {"action_type":"spawn_subagent","description":"Need research","confidence":0.9,
       "tool_name":"researcher","tool_args":{"goal":"summarise RFCs"},"requires_approval":false},
      {"action_type":"complete_run","description":"All done","confidence":0.95,"requires_approval":false}
    ]"#;
    let ps = parse(raw);
    assert_eq!(ps.len(), 2);
    assert_eq!(ps[0].action_type, ActionType::SpawnSubagent);
    assert_eq!(ps[0].tool_name.as_deref(), Some("researcher"));
    assert!((confidence(&ps[0]) - 0.9).abs() < 1e-9);
    assert_eq!(ps[1].action_type, ActionType::CompleteRun);
}

#[test]
fn parser_strips_markdown_fence() {
    let raw = "```json\n[{\"action_type\":\"invoke_tool\",\"description\":\"search\",\"confidence\":0.7,\"tool_name\":\"cairn.search\",\"tool_args\":{},\"requires_approval\":false}]\n```";
    let ps = parse(raw);
    assert_eq!(ps.len(), 1);
    assert_eq!(ps[0].action_type, ActionType::InvokeTool);
}

#[test]
fn parser_single_object_accepted() {
    let raw = r#"{"action_type":"complete_run","description":"done","confidence":1.0,"requires_approval":false}"#;
    let ps = parse(raw);
    assert_eq!(ps.len(), 1);
    assert_eq!(ps[0].action_type, ActionType::CompleteRun);
}

#[test]
fn parser_malformed_returns_escalate() {
    let raw = "Sorry, I cannot help with that right now.";
    let ps = parse(raw);
    assert_eq!(ps.len(), 1);
    assert_eq!(ps[0].action_type, ActionType::EscalateToOperator);
    assert!(ps[0].requires_approval, "escalation must require approval");
    assert!(ps[0].description.contains("non-JSON response"));
}

#[test]
fn parser_unknown_action_type_is_filtered() {
    let raw = r#"[{"action_type":"destroy_everything","description":"chaos","confidence":0.99,"requires_approval":false}]"#;
    let ps = parse(raw);
    assert_eq!(ps.len(), 1);
    assert_eq!(ps[0].action_type, ActionType::EscalateToOperator);
}

#[test]
fn parser_empty_array_returns_escalate() {
    let ps = parse("[]");
    assert_eq!(ps.len(), 1);
    assert_eq!(ps[0].action_type, ActionType::EscalateToOperator);
}

#[test]
fn parser_confidence_clamped_to_0_1() {
    let raw = r#"[{"action_type":"complete_run","description":"ok","confidence":99.0,"requires_approval":false}]"#;
    let ps = parse(raw);
    assert_eq!(ps[0].confidence.as_deref(), Some("99.0"));
    assert!(confidence(&ps[0]) <= 1.0, "confidence must be clamped to [0,1]");
}

#[test]
fn parser_missing_optional_fields_default_safely() {
    let raw = r#"[{"action_type":"complete_run"}]"#;
    let ps = parse(raw);
    assert_eq!(ps.len(), 1);
    assert_eq!(ps[0].action_type, ActionType::CompleteRun);
    assert_eq!(ps[0].description, "");
    assert!((confidence(&ps[0]) - 0.5).abs() < 1e-9, "missing confidence defaults to 0.5");
    assert!(!ps[0].requires_approval);
    assert!(ps[0].tool_name.is_none());
    assert!(ps[0].tool_args.is_none());
}

#[test]
fn escalation_quotes_first_200_bytes() {
    let raw = "x".repeat(300);
    let ps = parse(&raw);
    assert_eq!(ps.len(), 1);
    assert_eq!(ps[0].description, format!("LLM returned a non-JSON response: {}", "x".repeat(200)));
    assert_eq!(ps[0].confidence.as_deref(), Some("0"));
}

#[test]
fn escalation_quotes_short_multibyte_reply_whole() {
    let raw = "héllo wörld";
    let ps = parse(raw);
    assert_eq!(ps[0].description, "LLM returned a non-JSON response: héllo wörld");
}

#[test]
fn parse_action_type_names() {
    assert_eq!(ResponseParser::parse_action_type("send_notification"), Some(ActionType::SendNotification));
    assert_eq!(ResponseParser::parse_action_type("create_memory"), Some(ActionType::CreateMemory));
    assert_eq!(ResponseParser::parse_action_type("nope"), None);
}

#[test]
fn escalation_cuts_quote_at_character_boundary() {
    // 1 + 150 * 2 bytes: byte 200 falls inside an "é".
    let raw = format!("a{}", "é".repeat(150));
    let ps = parse(&raw);
    assert_eq!(ps.len(), 1);
    assert!(ps[0].requires_approval);
    assert!(ps[0].description.contains("non-JSON response"));
    assert_eq!(ps[0].description, format!("LLM returned a non-JSON response: a{}", "é".repeat(99)));
}
