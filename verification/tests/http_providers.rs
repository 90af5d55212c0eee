use cairn_runtime::http_providers::{
    check_embedding_count, classify_status, is_thinking_model, ollama_reply_text, openai_reply_text, reply_model,
    thinking_prefixes, trim_end_slashes, ChatChoice, ProviderEndpoint, ProviderFailure,
};

#[test]
fn default_local_points_at_localhost() {
    let p = ProviderEndpoint::default_local();
    assert_eq!(p.host(), "http://localhost:11434");
}

#[test]
fn default_local_uses_expected_host() {
    let p = ProviderEndpoint::default_local();
    assert_eq!(p.host(), "http://localhost:11434");
    assert_eq!(p.url("/api/tags"), "http://localhost:11434/api/tags");
}

#[test]
fn trailing_slash_stripped_from_setting() {
    let p = ProviderEndpoint::from_setting("http://localhost:11434/");
    assert_eq!(p.host(), "http://localhost:11434");
    assert_eq!(trim_end_slashes("a///"), "a");
    assert_eq!(trim_end_slashes("///"), "");
    assert_eq!(trim_end_slashes("a/b"), "a/b");
}

#[test]
fn status_classification() {
    assert!(matches!(classify_status("chat", 429, "429 Too Many Requests", ""), Some(ProviderFailure::RateLimited)));
    assert!(classify_status("chat", 200, "200 OK", "").is_none());
    assert!(classify_status("chat", 299, "299", "").is_none());
    match classify_status("chat", 500, "500 Internal Server Error", "boom") {
        Some(ProviderFailure::ProviderError(msg)) => {
            assert!(msg.contains("500 Internal Server Error"));
            assert!(msg.contains("boom"));
        },
        other => panic!("unexpected {other:?}"),
    }
}

#[test]
fn reply_text_prefers_content_then_reasoning() {
    let c = ChatChoice { content: "".to_owned(), reasoning: Some("thinking".to_owned()) };
    assert_eq!(openai_reply_text(Some(c)), "thinking");
    let c = ChatChoice { content: "hi".to_owned(), reasoning: Some("thinking".to_owned()) };
    assert_eq!(openai_reply_text(Some(c)), "hi");
    assert_eq!(openai_reply_text(None), "");
    let c = ChatChoice { content: "".to_owned(), reasoning: Some("r".to_owned()) };
    assert_eq!(ollama_reply_text(Some(c)), "");
}

#[test]
fn reply_model_falls_back_to_requested() {
    assert_eq!(reply_model(None, "m1"), "m1");
    assert_eq!(reply_model(Some("m2".to_owned()), "m1"), "m2");
}

#[test]
fn embedding_count_mismatch_reported() {
    assert!(check_embedding_count("ollama", 2, 2).is_none());
    match check_embedding_count("ollama", 1, 2) {
        Some(ProviderFailure::ProviderError(msg)) => assert!(msg.contains("returned 1")),
        other => panic!("unexpected {other:?}"),
    }
}

#[test]
fn thinking_model_prefixes() {
    let prefixes = thinking_prefixes(None);
    assert_eq!(prefixes, vec!["qwen3".to_owned()]);
    assert!(is_thinking_model("qwen3:8b", &prefixes));
    assert!(!is_thinking_model("llama3", &prefixes));
    let prefixes = thinking_prefixes(Some("deepseek-r1, qwq"));
    assert!(is_thinking_model("deepseek-r1:7b", &prefixes));
    assert!(is_thinking_model("qwq:32b", &prefixes));
}
