use cairn_runtime::checkpoint::{CheckpointDisposition, CheckpointServiceImpl};
use cairn_runtime::domain::ProjectKey;

fn test_project() -> ProjectKey {
    ProjectKey::new("tenant", "ws", "proj")
}

#[test]
fn save_creates_latest_checkpoint() {
    let mut svc = CheckpointServiceImpl::new();
    let project = test_project();
    let cp = svc.save(&project, "run_1", "cp_1");
    assert_eq!(cp.checkpoint_id, "cp_1");
    assert_eq!(cp.disposition, CheckpointDisposition::Latest);
    assert_eq!(cp.run_id, "run_1");
}

#[test]
fn second_save_supersedes_first() {
    let mut svc = CheckpointServiceImpl::new();
    let project = test_project();
    svc.save(&project, "run_1", "cp_1");
    svc.save(&project, "run_1", "cp_2");

    let cp1 = svc.get("cp_1").unwrap();
    assert_eq!(
        cp1.disposition,
        CheckpointDisposition::Superseded,
        "first checkpoint must be superseded when second is saved"
    );
    let cp2 = svc.get("cp_2").unwrap();
    assert_eq!(cp2.disposition, CheckpointDisposition::Latest);

    let latest = svc.latest_for_run("run_1").unwrap();
    assert_eq!(latest.checkpoint_id, "cp_2");
}

#[test]
fn list_by_run_returns_all_checkpoints() {
    let mut svc = CheckpointServiceImpl::new();
    let project = test_project();
    svc.save(&project, "run_1", "cp_1");
    svc.save(&project, "run_1", "cp_2");
    svc.save(&project, "run_1", "cp_3");

    let all = svc.list_by_run("run_1", 10);
    assert_eq!(all.len(), 3);
    let latest_count = all.iter().filter(|cp| cp.disposition == CheckpointDisposition::Latest).count();
    assert_eq!(latest_count, 1, "exactly one checkpoint should be Latest");
}

#[test]
fn checkpoint_impl_get_nonexistent_returns_none() {
    let svc = CheckpointServiceImpl::new();
    assert!(svc.get("missing").is_none());
}

#[test]
fn latest_for_run_without_checkpoints_returns_none() {
    let svc = CheckpointServiceImpl::new();
    assert!(svc.latest_for_run("no_run").is_none());
}

#[test]
fn different_runs_have_independent_checkpoints() {
    let mut svc = CheckpointServiceImpl::new();
    let project = test_project();
    svc.save(&project, "run_a", "cp_a");
    svc.save(&project, "run_b", "cp_b");
    assert_eq!(svc.get("cp_a").unwrap().disposition, CheckpointDisposition::Latest);
    assert_eq!(svc.get("cp_b").unwrap().disposition, CheckpointDisposition::Latest);
}

#[test]
fn set_strategy_records_and_retrieves() {
    let mut svc = CheckpointServiceImpl::new();
    let strat = svc.set_strategy("run_strat", "s1", "periodic", 30_000, 5, true);
    assert_eq!(strat.strategy_id, "s1");
    assert_eq!(strat.interval_ms, 30_000);
    assert_eq!(strat.max_checkpoints, 5);
    assert!(strat.trigger_on_task_complete);

    let got = svc.get_strategy("run_strat").unwrap();
    assert_eq!(got.strategy_id, "s1");
}

#[test]
fn get_strategy_returns_none_without_set() {
    let svc = CheckpointServiceImpl::new();
    assert!(svc.get_strategy("no_such").is_none());
}

#[test]
fn list_by_run_keeps_save_order_and_limit() {
    let mut svc = CheckpointServiceImpl::new();
    let project = test_project();
    svc.save(&project, "run_1", "cp_1");
    svc.save(&project, "run_2", "cp_x");
    svc.save(&project, "run_1", "cp_2");
    let two = svc.list_by_run("run_1", 1);
    assert_eq!(two.len(), 1);
    assert_eq!(two[0].checkpoint_id, "cp_1");
    assert!(svc.list_by_run("run_3", 5).is_empty());
    // Saving an id again keeps its place and makes it the latest again.
    svc.save(&project, "run_1", "cp_1");
    let all = svc.list_by_run("run_1", 10);
    assert_eq!(all.iter().map(|c| c.checkpoint_id.as_str()).collect::<Vec<_>>(), vec!["cp_1", "cp_2"]);
    assert_eq!(svc.latest_for_run("run_1").unwrap().checkpoint_id, "cp_1");
    assert_eq!(svc.get("cp_2").unwrap().disposition, CheckpointDisposition::Superseded);
    assert_eq!(svc.latest_for_run("run_2").unwrap().checkpoint_id, "cp_x");
}

#[test]
fn strategy_set_again_replaces_and_is_stamped() {
    let mut svc = CheckpointServiceImpl::new();
    svc.set_strategy_at("run_1", "s1", "first", 10, 1, false, 100);
    let second = svc.set_strategy_at("run_1", "s2", "second", 20, 2, true, 200);
    assert_eq!(second.set_at_ms, 200);
    assert_eq!(second.run_id.as_deref(), Some("run_1"));
    let got = svc.get_strategy("run_1").unwrap();
    assert_eq!((got.strategy_id.as_str(), got.interval_ms, got.set_at_ms), ("s2", 20, 200));
}
