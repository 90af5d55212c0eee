use cairn_runtime::research::{InMemoryDigestService, InMemoryResearchService, ResearchQuery};

fn query(id: &str, prompt: &str) -> ResearchQuery {
    ResearchQuery {
        query_id: id.to_owned(),
        prompt: prompt.to_owned(),
        sources: vec!["src_1".to_owned()],
        max_results: 5,
        created_at_ms: 1_000,
    }
}

#[test]
fn run_query_returns_result_with_echoed_summary() {
    let mut svc = InMemoryResearchService::new();
    let result = svc.run_query(query("q1", "latest Rust news"));
    assert_eq!(result.query_id, "q1");
    assert!(result.summary.contains("latest Rust news"), "stub must echo the prompt in the summary");
    assert_eq!(result.sources_used, vec!["src_1"]);
    assert!(result.confidence_pct > 0 && result.confidence_pct <= 100);
}

#[test]
fn list_results_returns_stored_results() {
    let mut svc = InMemoryResearchService::new();
    svc.run_query(query("q1", "topic A"));
    svc.run_query(query("q2", "topic B"));
    assert_eq!(svc.list_results(10).len(), 2);
    assert_eq!(svc.list_results(1).len(), 1);
}

#[test]
fn list_results_zero_limit_returns_empty() {
    let mut svc = InMemoryResearchService::new();
    svc.run_query(query("q1", "x"));
    assert!(svc.list_results(0).is_empty());
}

#[test]
fn generate_digest_returns_report_with_correct_metadata() {
    let mut svc = InMemoryDigestService::new();
    let period_7d_ms: u64 = 7 * 24 * 3_600_000;
    let report = svc.generate_digest("Weekly Tech Digest".to_owned(), period_7d_ms);
    assert_eq!(report.title, "Weekly Tech Digest");
    assert!(!report.report_id.is_empty());
    assert!(report.is_valid_period(), "period_end must be > period_start");
    assert_eq!(report.period_end_ms - report.period_start_ms, period_7d_ms, "period length must match requested duration");
}

#[test]
fn list_digests_returns_stored_reports() {
    let mut svc = InMemoryDigestService::new();
    svc.generate_digest("Digest A".to_owned(), 86_400_000);
    svc.generate_digest("Digest B".to_owned(), 86_400_000);
    assert_eq!(svc.list_digests(10).len(), 2);
    assert_eq!(svc.list_digests(1).len(), 1);
}

#[test]
fn list_digests_empty_returns_empty_vec() {
    let svc = InMemoryDigestService::new();
    assert!(svc.list_digests(5).is_empty());
}

#[test]
fn run_query_with_no_sources_returns_empty_sources_used() {
    let mut svc = InMemoryResearchService::new();
    let q = ResearchQuery {
        query_id: "q_empty".to_owned(),
        prompt: "anything".to_owned(),
        sources: vec![],
        max_results: 3,
        created_at_ms: 0,
    };
    let result = svc.run_query(q);
    assert!(result.sources_used.is_empty(), "empty sources in → empty sources_used out");
}

#[test]
fn digest_period_reflects_requested_duration() {
    let mut svc = InMemoryDigestService::new();
    let one_day_ms: u64 = 86_400_000;
    let report = svc.generate_digest("Daily".to_owned(), one_day_ms);
    assert_eq!(report.period_end_ms - report.period_start_ms, one_day_ms);
}

#[test]
fn results_list_most_recent_first_keeping_run_order_on_ties() {
    let mut svc = InMemoryResearchService::new();
    svc.run_query_at(query("a", "A"), 10);
    svc.run_query_at(query("b", "B"), 30);
    svc.run_query_at(query("c", "C"), 20);
    svc.run_query_at(query("d", "D"), 30);
    let ids: Vec<&str> = svc.list_results(10).iter().map(|r| r.query_id.as_str()).collect();
    // The two results made at 30 come newest run first, as the last runs are read first.
    assert_eq!(ids, vec!["d", "b", "c", "a"]);
    let two: Vec<&str> = svc.list_results(2).iter().map(|r| r.query_id.as_str()).collect();
    assert_eq!(two, vec!["d", "c"]);
    assert_eq!(svc.list_results(1)[0].summary, "[stub] D");
}

#[test]
fn digest_ids_and_short_clocks() {
    let mut svc = InMemoryDigestService::new();
    let early = svc.generate_digest_at("Early".to_owned(), 500, 200);
    assert_eq!((early.report_id.as_str(), early.period_start_ms, early.period_end_ms), ("digest_200", 0, 200));
    svc.generate_digest_at("Later".to_owned(), 50, 300);
    let titles: Vec<String> = svc.list_digests(5).into_iter().map(|d| d.title).collect();
    assert_eq!(titles, vec!["Later".to_owned(), "Early".to_owned()]);
}
