use cairn_runtime::diff::{diff_texts, diff_versions, DiffKind};
use cairn_runtime::release_pipeline::{PromptReleasePipeline, RolloutStatus, RoutingDecision};

fn is_candidate(d: &RoutingDecision, id: &str) -> bool {
    matches!(d, RoutingDecision::Candidate { release_id } if release_id == id)
}

fn is_stable(d: &RoutingDecision, id: &str) -> bool {
    matches!(d, RoutingDecision::Stable { release_id } if release_id == id)
}

#[test]
fn diff_identical_texts() {
    let lines = diff_texts("hello\nworld", "hello\nworld");
    assert!(lines.iter().all(|l| l.kind == DiffKind::Equal));
    assert_eq!(lines.len(), 2);
}

#[test]
fn diff_added_line() {
    let lines = diff_texts("line1\nline2", "line1\ninserted\nline2");
    let added: Vec<_> = lines.iter().filter(|l| l.kind == DiffKind::Added).collect();
    assert_eq!(added.len(), 1);
    assert_eq!(added[0].content, "inserted");
}

#[test]
fn diff_removed_line() {
    let lines = diff_texts("line1\nremoved\nline2", "line1\nline2");
    let removed: Vec<_> = lines.iter().filter(|l| l.kind == DiffKind::Removed).collect();
    assert_eq!(removed.len(), 1);
    assert_eq!(removed[0].content, "removed");
}

#[test]
fn diff_changed_line() {
    let lines = diff_texts("hello world", "hello rust");
    let removed: Vec<_> = lines.iter().filter(|l| l.kind == DiffKind::Removed).collect();
    let added: Vec<_> = lines.iter().filter(|l| l.kind == DiffKind::Added).collect();
    assert_eq!(removed.len(), 1);
    assert_eq!(added.len(), 1);
    assert_eq!(removed[0].content, "hello world");
    assert_eq!(added[0].content, "hello rust");
}

#[test]
fn diff_empty_to_content() {
    let lines = diff_texts("", "new line");
    assert_eq!(lines.len(), 1);
    assert_eq!(lines[0].kind, DiffKind::Added);
}

#[test]
fn diff_content_to_empty() {
    let lines = diff_texts("old line", "");
    assert_eq!(lines.len(), 1);
    assert_eq!(lines[0].kind, DiffKind::Removed);
}

#[test]
fn diff_versions_computes_stats() {
    let diff = diff_versions(
        "v1",
        "You are a helpful assistant.\nBe concise.",
        "v2",
        "You are a helpful coding assistant.\nBe concise.\nUse examples.",
    );
    assert_eq!(diff.old_version_id, "v1");
    assert_eq!(diff.new_version_id, "v2");
    assert_eq!(diff.additions, 2);
    assert_eq!(diff.deletions, 1);
}

#[test]
fn pipeline_diff_versions_by_id() {
    let mut pipeline = PromptReleasePipeline::new();
    pipeline.store_version_content("v1", "line one\nline two".into());
    pipeline.store_version_content("v2", "line one\nline three".into());
    let diff = pipeline.diff_versions("v1", "v2").unwrap();
    assert_eq!(diff.deletions, 1);
    assert_eq!(diff.additions, 1);
}

#[test]
fn pipeline_diff_missing_version_returns_none() {
    let mut pipeline = PromptReleasePipeline::new();
    pipeline.store_version_content("v1", "content".into());
    assert!(pipeline.diff_versions("v1", "v_missing").is_none());
}

#[test]
fn start_rollout_stores_state() {
    let mut pipeline = PromptReleasePipeline::new();
    let state = pipeline.start_rollout("rel_1", 25, Some("rel_stable".into()));
    assert_eq!(state.percent, 25);
    assert_eq!(state.status, RolloutStatus::Active);
    assert_eq!(state.stable_release_id.as_deref(), Some("rel_stable"));
}

#[test]
fn start_rollout_at_100_is_complete() {
    let mut pipeline = PromptReleasePipeline::new();
    let state = pipeline.start_rollout("rel_1", 100, None);
    assert_eq!(state.status, RolloutStatus::Complete);
    assert_eq!(state.percent, 100);
}

#[test]
fn update_rollout_percent() {
    let mut pipeline = PromptReleasePipeline::new();
    pipeline.start_rollout("rel_1", 10, None);
    let state = pipeline.update_rollout_percent("rel_1", 50).unwrap();
    assert_eq!(state.percent, 50);
    assert_eq!(state.status, RolloutStatus::Active);
}

#[test]
fn update_rollout_percent_clamps_to_100() {
    let mut pipeline = PromptReleasePipeline::new();
    pipeline.start_rollout("rel_1", 10, None);
    let state = pipeline.update_rollout_percent("rel_1", 200).unwrap();
    assert_eq!(state.percent, 100);
    assert_eq!(state.status, RolloutStatus::Complete);
}

#[test]
fn routing_no_rollout_returns_no_rollout() {
    let pipeline = PromptReleasePipeline::new();
    let decision = pipeline.resolve_with_rollout("nonexistent", 5_000);
    assert!(matches!(decision, RoutingDecision::NoRollout));
}

#[test]
fn routing_50_percent_candidate() {
    let mut pipeline = PromptReleasePipeline::new();
    pipeline.start_rollout("rel_new", 50, Some("rel_stable".into()));
    let decision = pipeline.resolve_with_rollout("rel_new", 3_000);
    assert!(is_candidate(&decision, "rel_new"));
}

#[test]
fn routing_50_percent_stable() {
    let mut pipeline = PromptReleasePipeline::new();
    pipeline.start_rollout("rel_new", 50, Some("rel_stable".into()));
    let decision = pipeline.resolve_with_rollout("rel_new", 7_000);
    assert!(is_stable(&decision, "rel_stable"));
}

#[test]
fn routing_100_percent_always_candidate() {
    let mut pipeline = PromptReleasePipeline::new();
    pipeline.start_rollout("rel_new", 100, Some("rel_stable".into()));
    let decision = pipeline.resolve_with_rollout("rel_new", 9_900);
    assert!(is_candidate(&decision, "rel_new"));
}

#[test]
fn routing_0_percent_always_stable() {
    let mut pipeline = PromptReleasePipeline::new();
    pipeline.start_rollout("rel_new", 0, Some("rel_stable".into()));
    let decision = pipeline.resolve_with_rollout("rel_new", 100);
    assert!(is_stable(&decision, "rel_stable"));
}

#[test]
fn request_full_release_sets_pending_approval() {
    let mut pipeline = PromptReleasePipeline::new();
    pipeline.start_rollout("rel_1", 50, None);
    let state = pipeline.request_full_release("rel_1", "apr_123".into()).unwrap();
    assert_eq!(state.status, RolloutStatus::PendingApproval);
    assert_eq!(state.approval_id.as_deref(), Some("apr_123"));
    assert_eq!(state.percent, 50);
}

#[test]
fn approve_full_release_promotes_to_100() {
    let mut pipeline = PromptReleasePipeline::new();
    pipeline.start_rollout("rel_1", 50, None);
    pipeline.request_full_release("rel_1", "apr_123".into());
    let state = pipeline.approve_full_release("rel_1").unwrap();
    assert_eq!(state.percent, 100);
    assert_eq!(state.status, RolloutStatus::Complete);
}

#[test]
fn approve_without_pending_returns_none() {
    let mut pipeline = PromptReleasePipeline::new();
    pipeline.start_rollout("rel_1", 50, None);
    assert!(pipeline.approve_full_release("rel_1").is_none());
}

#[test]
fn routing_during_pending_approval_still_uses_percent() {
    let mut pipeline = PromptReleasePipeline::new();
    pipeline.start_rollout("rel_1", 50, Some("rel_stable".into()));
    pipeline.request_full_release("rel_1", "apr_1".into());
    assert!(is_candidate(&pipeline.resolve_with_rollout("rel_1", 3_000), "rel_1"));
    assert!(is_stable(&pipeline.resolve_with_rollout("rel_1", 7_000), "rel_stable"));
}

#[test]
fn rollback_sets_zero_and_rolled_back() {
    let mut pipeline = PromptReleasePipeline::new();
    pipeline.start_rollout("rel_1", 50, Some("rel_stable".into()));
    let state = pipeline.rollback("rel_1").unwrap();
    assert_eq!(state.percent, 0);
    assert_eq!(state.status, RolloutStatus::RolledBack);
}

#[test]
fn rollback_routes_all_traffic_to_stable() {
    let mut pipeline = PromptReleasePipeline::new();
    pipeline.start_rollout("rel_1", 50, Some("rel_stable".into()));
    pipeline.rollback("rel_1");
    assert!(is_stable(&pipeline.resolve_with_rollout("rel_1", 100), "rel_stable"));
}

#[test]
fn rollback_nonexistent_returns_none() {
    let mut pipeline = PromptReleasePipeline::new();
    assert!(pipeline.rollback("nonexistent").is_none());
}

#[test]
fn cannot_update_rolled_back_rollout() {
    let mut pipeline = PromptReleasePipeline::new();
    pipeline.start_rollout("rel_1", 50, None);
    pipeline.rollback("rel_1");
    assert!(pipeline.update_rollout_percent("rel_1", 75).is_none());
}

#[test]
fn full_pipeline_flow() {
    let mut pipeline = PromptReleasePipeline::new();
    pipeline.store_version_content("pv_1", "You are helpful.".into());
    pipeline.store_version_content("pv_2", "You are a helpful coding assistant.".into());
    let diff = pipeline.diff_versions("pv_1", "pv_2").unwrap();
    assert_eq!(diff.additions, 1);
    assert_eq!(diff.deletions, 1);
    pipeline.start_rollout("rel_new", 10, Some("rel_old".into()));
    assert_eq!(pipeline.active_rollouts().len(), 1);
    pipeline.update_rollout_percent("rel_new", 50);
    assert!(is_candidate(&pipeline.resolve_with_rollout("rel_new", 2_000), "rel_new"));
    pipeline.request_full_release("rel_new", "apr_1".into());
    let state = pipeline.get_rollout_state("rel_new").unwrap();
    assert_eq!(state.status, RolloutStatus::PendingApproval);
    let state = pipeline.approve_full_release("rel_new").unwrap();
    assert_eq!(state.percent, 100);
    assert_eq!(state.status, RolloutStatus::Complete);
    assert!(pipeline.active_rollouts().is_empty());
}

#[test]
fn full_pipeline_flow_with_rollback() {
    let mut pipeline = PromptReleasePipeline::new();
    pipeline.start_rollout("rel_new", 50, Some("rel_old".into()));
    let state = pipeline.rollback("rel_new").unwrap();
    assert_eq!(state.percent, 0);
    assert_eq!(state.status, RolloutStatus::RolledBack);
    assert!(is_stable(&pipeline.resolve_with_rollout("rel_new", 0), "rel_old"));
    assert!(pipeline.active_rollouts().is_empty());
}

#[test]
fn routing_boundary_draw_equal_to_percent_goes_stable() {
    let mut pipeline = PromptReleasePipeline::new();
    pipeline.start_rollout("rel_new", 50, Some("rel_stable".into()));
    assert!(is_candidate(&pipeline.resolve_with_rollout("rel_new", 4_999), "rel_new"));
    assert!(is_stable(&pipeline.resolve_with_rollout("rel_new", 5_000), "rel_stable"));
}
