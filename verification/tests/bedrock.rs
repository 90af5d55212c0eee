use cairn_runtime::bedrock::{classify_failure, extract_text, messages_json, parse_number_u64, split_messages, system_json, usage_tokens, BedrockFailure, BedrockProvider};
use cairn_runtime::json::JsonValue;

fn s(t: &str) -> JsonValue {
    JsonValue::Str(t.to_owned())
}

fn obj(fields: Vec<(&str, JsonValue)>, encoded: &str) -> JsonValue {
    JsonValue::Object { fields: fields.into_iter().map(|(k, v)| (k.to_owned(), v)).collect(), encoded: encoded.to_owned() }
}

#[test]
fn model_id_and_region() {
    let p = BedrockProvider::new("minimax.minimax-m2.5".to_owned(), "us-west-2".to_owned());
    assert_eq!(p.model_id(), "minimax.minimax-m2.5");
    assert_eq!(p.region(), "us-west-2");
}

#[test]
fn effective_model_falls_back_to_default() {
    let p = BedrockProvider::new("default-model".to_owned(), "eu-west-1".to_owned());
    assert_eq!(p.effective_model(""), "default-model");
    assert_eq!(p.effective_model("other"), "other");
}

#[test]
fn converse_args_with_and_without_system() {
    let p = BedrockProvider::new("m".to_owned(), "us-east-1".to_owned());
    let a = p.converse_args("m1", "[]", None);
    assert_eq!(a, vec!["bedrock-runtime", "converse", "--model-id", "m1", "--messages", "[]", "--region", "us-east-1", "--output", "json"]);
    let b = p.converse_args("m1", "[]", Some("[{\"text\":\"s\"}]"));
    assert_eq!(b.len(), 12);
    assert_eq!(b[10], "--system");
    assert_eq!(b[11], "[{\"text\":\"s\"}]");
}

#[test]
fn throttling_is_rate_limited() {
    assert!(matches!(classify_failure("An error occurred (ThrottlingException)"), BedrockFailure::RateLimited));
    assert!(matches!(classify_failure("429 TooManyRequests"), BedrockFailure::RateLimited));
    match classify_failure("AccessDenied") {
        BedrockFailure::ProviderError(m) => assert_eq!(m, "Bedrock converse failed: AccessDenied"),
        _ => panic!("expected a provider error"),
    }
}

#[test]
fn messages_split_into_turns_and_system() {
    let msgs = vec![
        obj(vec![("role", s("system")), ("content", s("be brief"))], "{\"content\":\"be brief\",\"role\":\"system\"}"),
        obj(vec![("role", s("user")), ("content", s("hi"))], "{\"content\":\"hi\",\"role\":\"user\"}"),
        obj(vec![("content", s("no role"))], "{\"content\":\"no role\"}"),
    ];
    let (turns, system) = split_messages(&msgs);
    assert_eq!(system.as_deref(), Some("be brief"));
    assert_eq!(turns, vec![("user".to_owned(), "hi".to_owned()), ("user".to_owned(), "no role".to_owned())]);
    assert_eq!(messages_json(&turns), "[{\"content\":[{\"text\":\"hi\"}],\"role\":\"user\"},{\"content\":[{\"text\":\"no role\"}],\"role\":\"user\"}]");
    assert_eq!(system_json("be \"brief\""), "[{\"text\":\"be \\\"brief\\\"\"}]");
}

#[test]
fn reply_text_and_usage_are_read() {
    let content = JsonValue::Array {
        items: vec![obj(vec![("text", s("Hel"))], "{\"text\":\"Hel\"}"), obj(vec![("text", s("lo"))], "{\"text\":\"lo\"}")],
        encoded: "[{\"text\":\"Hel\"},{\"text\":\"lo\"}]".to_owned(),
    };
    let message = obj(vec![("content", content)], "{}");
    let output = obj(vec![("message", message)], "{}");
    let usage = obj(vec![("inputTokens", JsonValue::Number("12".to_owned())), ("outputTokens", JsonValue::Number("7".to_owned()))], "{}");
    let resp = obj(vec![("output", output), ("usage", usage)], "{}");
    assert_eq!(extract_text(&resp), "Hello");
    assert_eq!(usage_tokens(&resp, "inputTokens"), Some(12));
    assert_eq!(usage_tokens(&resp, "outputTokens"), Some(7));
    assert_eq!(usage_tokens(&resp, "cacheTokens"), None);
    assert_eq!(extract_text(&JsonValue::Null), "");
}

#[test]
fn number_text_parses_only_plain_integers() {
    assert_eq!(parse_number_u64("0"), Some(0));
    assert_eq!(parse_number_u64("18446744073709551615"), Some(u64::MAX));
    assert_eq!(parse_number_u64("18446744073709551616"), None);
    assert_eq!(parse_number_u64("01"), None);
    assert_eq!(parse_number_u64("-1"), None);
    assert_eq!(parse_number_u64("1.5"), None);
    assert_eq!(parse_number_u64(""), None);
}

#[test]
fn messages_json_escapes_quotes_controls_and_backslashes() {
    let turns = vec![("user".to_owned(), "a\"b\\c\nd\u{1}e\tf".to_owned())];
    assert_eq!(
        messages_json(&turns),
        "[{\"content\":[{\"text\":\"a\\\"b\\\\c\\nd\\u0001e\\tf\"}],\"role\":\"user\"}]"
    );
    assert_eq!(system_json("é\u{1f}"), "[{\"text\":\"é\\u001f\"}]");
}
