//! Run recovery at startup: the recovery matrix applied to one run, and
//! the summary of a sweep.
//!
//! The caller reads each non-terminal run, its latest checkpoint and its
//! approvals from the store, asks the run state machine whether the
//! transition a plan may make is allowed, and appends the events of the
//! plan: a recovery attempt, the state change if any, a recovery completion.
use vstd::prelude::*;
use crate::text::{push_str, string_from_chars};

verus! {

/// Runs running without a checkpoint and without progress for longer than
/// this are taken as wedged.
pub const RUN_WEDGE_THRESHOLD_MS: u64 = 300_000;

/// The state of a swept run.
#[derive(Debug)]
pub enum SweptState {
    Running,
    WaitingApproval,
    Paused,
    WaitingDependency,
    /// Any other state, by its name.
    Other(String),
}

/// The decision recorded on an approval.
#[derive(Debug, Clone, Copy, PartialEq, Eq, Structural)]
pub enum Decision {
    Approved,
    Rejected,
}

/// An approval of the project, as recovery reads it.
#[derive(Debug)]
pub struct ApprovalInfo {
    pub run_id: Option<String>,
    pub decision: Option<Decision>,
    pub updated_at: u64,
}

/// Why a run is failed out.
#[derive(Debug, Clone, Copy, PartialEq, Eq, Structural)]
pub enum FailureKind {
    ExecutionError,
    ApprovalRejected,
}

/// A state change a plan makes.
#[derive(Debug, Clone, Copy, PartialEq, Eq, Structural)]
pub enum RecoveryTransition {
    /// Back to running, resumed by the operator's approval.
    ResumeRunning,
    /// To failed, for the given reason.
    Fail(FailureKind),
}

/// How recovery ended for a run.
#[derive(Debug)]
pub enum RecoveryOutcome {
    Recovered,
    Advanced,
    Failed { reason: String },
}

/// The events and outcome of recovering one run.
#[derive(Debug)]
pub struct RecoveryPlan {
    /// The reason of the recovery-attempt event, when one is emitted.
    pub attempted_reason: Option<String>,
    pub transition: Option<RecoveryTransition>,
    /// The flag of the recovery-completion event, when one is emitted.
    pub completed: Option<bool>,
    pub outcome: RecoveryOutcome,
}

/// A plan as plain values.
pub type PlanView = (Option<Seq<char>>, Option<RecoveryTransition>, Option<bool>, int, Seq<char>);

pub open spec fn plan_view(p: RecoveryPlan) -> PlanView {
    (
        match p.attempted_reason {
            Some(r) => Some(r@),
            None => None,
        },
        p.transition,
        p.completed,
        match p.outcome {
            RecoveryOutcome::Recovered => 0,
            RecoveryOutcome::Advanced => 1,
            RecoveryOutcome::Failed { .. } => 2,
        },
        match p.outcome {
            RecoveryOutcome::Failed { reason } => reason@,
            _ => Seq::empty(),
        },
    )
}

/// Advisory recovery: the attempt and completion markers, no state change.
pub open spec fn unchanged_view(reason: Seq<char>) -> PlanView {
    (Some(reason), None, Some(true), 0, Seq::empty())
}

/// The plan for a running run that was last updated at `updated_at`.
pub open spec fn running_view(has_checkpoint: bool, updated_at: u64, now: u64, may_fail: bool) -> PlanView {
    let idle = if now >= updated_at { now - updated_at } else { 0 };
    if !has_checkpoint && idle > RUN_WEDGE_THRESHOLD_MS {
        (
            Some("wedged running run: crashed_before_first_progress"@),
            if may_fail { Some(RecoveryTransition::Fail(FailureKind::ExecutionError)) } else { None },
            Some(false),
            2,
            "crashed_before_first_progress"@,
        )
    } else {
        unchanged_view("running run re-asserted; orchestrator to resume from latest checkpoint"@)
    }
}

/// The transition a resolved approval calls for.
pub open spec fn transition_for(d: Decision) -> RecoveryTransition {
    match d {
        Decision::Approved => RecoveryTransition::ResumeRunning,
        Decision::Rejected => RecoveryTransition::Fail(FailureKind::ApprovalRejected),
    }
}

/// The plan for a run waiting for approval: advisory while an approval is
/// pending; otherwise the transition its latest resolved approval calls
/// for, when the state machine allows it.
pub open spec fn waiting_view(pending: bool, latest: Option<Decision>, may_run: bool, may_fail: bool) -> PlanView {
    if pending {
        unchanged_view("approval still pending; waiting for operator"@)
    } else {
        let t = match latest {
            Some(d) => if (d == Decision::Approved && may_run) || (d == Decision::Rejected && may_fail) {
                Some(transition_for(d))
            } else {
                None
            },
            None => None,
        };
        (
            Some("approval resolved during crash window; advancing run state"@),
            t,
            Some(true),
            if t is Some { 1 } else { 0 },
            Seq::empty(),
        )
    }
}

fn own(s: &str) -> (r: String)
    ensures
        r@ == s@,
{
    s.to_owned()
}

/// Advisory recovery with the given reason.
pub fn plan_unchanged(reason: &str) -> (r: RecoveryPlan)
    ensures
        plan_view(r) == unchanged_view(reason@),
{
    RecoveryPlan {
        attempted_reason: Some(own(reason)),
        transition: None,
        completed: Some(true),
        outcome: RecoveryOutcome::Recovered,
    }
}

/// Recovery of a running run: a run with no checkpoint and no progress for
/// longer than the wedge threshold is failed out (`may_fail`: whether the
/// state machine allows it); any other is re-asserted.
pub fn plan_running(has_checkpoint: bool, updated_at: u64, now: u64, may_fail: bool) -> (r: RecoveryPlan)
    ensures
        plan_view(r) == running_view(has_checkpoint, updated_at, now, may_fail),
{
    let wedged = !has_checkpoint && now.saturating_sub(updated_at) > RUN_WEDGE_THRESHOLD_MS;
    if wedged {
        RecoveryPlan {
            attempted_reason: Some(own("wedged running run: crashed_before_first_progress")),
            transition: if may_fail { Some(RecoveryTransition::Fail(FailureKind::ExecutionError)) } else { None },
            completed: Some(false),
            outcome: RecoveryOutcome::Failed { reason: own("crashed_before_first_progress") },
        }
    } else {
        plan_unchanged("running run re-asserted; orchestrator to resume from latest checkpoint")
    }
}

/// Recovery of a run waiting for approval; `latest` is the decision of its
/// most recently resolved approval, `may_run` and `may_fail` whether the
/// state machine allows the run back to running or to failed.
pub fn plan_waiting_approval(pending: bool, latest: Option<Decision>, may_run: bool, may_fail: bool) -> (r: RecoveryPlan)
    ensures
        plan_view(r) == waiting_view(pending, latest, may_run, may_fail),
{
    if pending {
        return plan_unchanged("approval still pending; waiting for operator");
    }
    let transition = match latest {
        Some(Decision::Approved) => if may_run { Some(RecoveryTransition::ResumeRunning) } else { None },
        Some(Decision::Rejected) => if may_fail { Some(RecoveryTransition::Fail(FailureKind::ApprovalRejected)) } else { None },
        None => None,
    };
    let outcome = if transition.is_some() { RecoveryOutcome::Advanced } else { RecoveryOutcome::Recovered };
    RecoveryPlan {
        attempted_reason: Some(own("approval resolved during crash window; advancing run state")),
        transition,
        completed: Some(true),
        outcome,
    }
}

/// Whether approval `a` is a resolved approval of run `run_id`.
pub open spec fn resolved_for(a: ApprovalInfo, run_id: Seq<char>) -> bool {
    (a.run_id matches Some(r) && r@ == run_id) && a.decision is Some
}

/// The most recently updated resolved approval of a run: the position of the
/// last one with the greatest update time.
pub fn latest_resolved(approvals: &Vec<ApprovalInfo>, run_id: &String) -> (r: Option<usize>)
    ensures
        match r {
            Some(i) => {
                &&& i < approvals@.len()
                &&& resolved_for(approvals@[i as int], run_id@)
                &&& forall|j: int| 0 <= j < approvals@.len() && resolved_for(#[trigger] approvals@[j], run_id@)
                    ==> approvals@[j].updated_at <= approvals@[i as int].updated_at
                &&& forall|j: int| i < j < approvals@.len() && resolved_for(#[trigger] approvals@[j], run_id@)
                    ==> approvals@[j].updated_at < approvals@[i as int].updated_at
            },
            None => forall|j: int| 0 <= j < approvals@.len() ==> !resolved_for(#[trigger] approvals@[j], run_id@),
        },
{
    let mut best: Option<usize> = None;
    let mut i: usize = 0;
    while i < approvals.len()
        invariant
            i <= approvals@.len(),
            match best {
                Some(b) => {
                    &&& b < i
                    &&& resolved_for(approvals@[b as int], run_id@)
                    &&& forall|j: int| 0 <= j < i && resolved_for(#[trigger] approvals@[j], run_id@)
                        ==> approvals@[j].updated_at <= approvals@[b as int].updated_at
                    &&& forall|j: int| b < j < i && resolved_for(#[trigger] approvals@[j], run_id@)
                        ==> approvals@[j].updated_at < approvals@[b as int].updated_at
                },
                None => forall|j: int| 0 <= j < i ==> !resolved_for(#[trigger] approvals@[j], run_id@),
            },
        decreases approvals@.len() - i,
    {
        let a = &approvals[i];
        let matches = match &a.run_id {
            Some(r) => *r == *run_id,
            None => false,
        } && a.decision.is_some();
        if matches {
            match best {
                Some(b) => {
                    if a.updated_at >= approvals[b].updated_at {
                        best = Some(i);
                    }
                },
                None => {
                    best = Some(i);
                },
            }
        }
        i = i + 1;
    }
    best
}

/// The plan for one swept run, by its state: `latest` and `pending` are
/// read only for a run waiting for approval, the checkpoint only for a
/// running one.
pub fn plan_for_run(
    state: &SweptState,
    has_checkpoint: bool,
    updated_at: u64,
    now: u64,
    pending: bool,
    latest: Option<Decision>,
    may_run: bool,
    may_fail: bool,
) -> (r: RecoveryPlan)
    ensures
        plan_view(r) == match state {
            SweptState::Running => running_view(has_checkpoint, updated_at, now, may_fail),
            SweptState::WaitingApproval => waiting_view(pending, latest, may_run, may_fail),
            SweptState::Paused | SweptState::WaitingDependency => unchanged_view("state unchanged; recovery advisory only"@),
            SweptState::Other(name) => (None, None, None, 2, "unexpected terminal-looking state in sweep: "@ + name@),
        },
{
    match state {
        SweptState::Running => plan_running(has_checkpoint, updated_at, now, may_fail),
        SweptState::WaitingApproval => plan_waiting_approval(pending, latest, may_run, may_fail),
        SweptState::Paused | SweptState::WaitingDependency => plan_unchanged("state unchanged; recovery advisory only"),
        SweptState::Other(name) => {
            let mut v: Vec<char> = Vec::new();
            push_str(&mut v, "unexpected terminal-looking state in sweep: ");
            push_str(&mut v, name.as_str());
            RecoveryPlan {
                attempted_reason: None,
                transition: None,
                completed: None,
                outcome: RecoveryOutcome::Failed { reason: string_from_chars(v.as_slice()) },
            }
        },
    }
}

/// The number of outcomes of kind `k` (0 recovered, 1 advanced, 2 failed).
pub open spec fn count_outcomes(plans: Seq<PlanView>, k: int) -> nat
    decreases plans.len(),
{
    if plans.len() == 0 {
        0
    } else {
        count_outcomes(plans.drop_last(), k) + if plans.last().3 == k { 1nat } else { 0nat }
    }
}

proof fn lemma_count_le(plans: Seq<PlanView>, k: int)
    ensures
        count_outcomes(plans, k) <= plans.len(),
    decreases plans.len(),
{
    if plans.len() > 0 {
        lemma_count_le(plans.drop_last(), k);
    }
}

/// The sweep's counts of recovered, advanced and failed runs.
pub fn summarize(plans: &Vec<RecoveryPlan>) -> (r: (u32, u32, u32))
    requires
        plans@.len() <= u32::MAX,
    ensures
        r.0 == count_outcomes(plans@.map_values(|p: RecoveryPlan| plan_view(p)), 0),
        r.1 == count_outcomes(plans@.map_values(|p: RecoveryPlan| plan_view(p)), 1),
        r.2 == count_outcomes(plans@.map_values(|p: RecoveryPlan| plan_view(p)), 2),
{
    let ghost views = plans@.map_values(|p: RecoveryPlan| plan_view(p));
    let mut rec: u32 = 0;
    let mut adv: u32 = 0;
    let mut fail: u32 = 0;
    let mut i: usize = 0;
    while i < plans.len()
        invariant
            i <= plans@.len(),
            plans@.len() <= u32::MAX,
            views == plans@.map_values(|p: RecoveryPlan| plan_view(p)),
            rec == count_outcomes(views.take(i as int), 0),
            adv == count_outcomes(views.take(i as int), 1),
            fail == count_outcomes(views.take(i as int), 2),
        decreases plans@.len() - i,
    {
        proof {
            assert(views.take(i + 1).drop_last() =~= views.take(i as int));
            lemma_count_le(views.take(i as int), 0);
            lemma_count_le(views.take(i as int), 1);
            lemma_count_le(views.take(i as int), 2);
        }
        match &plans[i].outcome {
            RecoveryOutcome::Recovered => rec = rec + 1,
            RecoveryOutcome::Advanced => adv = adv + 1,
            RecoveryOutcome::Failed { .. } => fail = fail + 1,
        }
        i = i + 1;
    }
    assert(views.take(plans@.len() as int) =~= views);
    (rec, adv, fail)
}

/// Every swept run is counted exactly once: the three counts add up to the
/// number of plans.
pub proof fn law_summary_counts_every_run(plans: Seq<PlanView>)
    requires
        forall|i: int| 0 <= i < plans.len() ==> 0 <= #[trigger] plans[i].3 <= 2,
    ensures
        count_outcomes(plans, 0) + count_outcomes(plans, 1) + count_outcomes(plans, 2) == plans.len(),
    decreases plans.len(),
{
    if plans.len() > 0 {
        assert forall|i: int| 0 <= i < plans.drop_last().len() implies 0 <= #[trigger] plans.drop_last()[i].3 <= 2 by {
            assert(plans.drop_last()[i] == plans[i]);
        }
        law_summary_counts_every_run(plans.drop_last());
        assert(0 <= plans[plans.len() - 1].3 <= 2);
    }
}

/// Recovery only changes a run's state when it advances a resolved
/// approval or fails out a wedged run; a run whose approval is still
/// pending, and a paused or blocked run, are left as they are.
pub proof fn law_recovery_advances_only_with_cause(has_checkpoint: bool, updated_at: u64, now: u64, latest: Option<Decision>, may_run: bool, may_fail: bool)
    ensures
        waiting_view(true, latest, may_run, may_fail).1 is None,
        waiting_view(false, latest, may_run, may_fail).1 matches Some(t) ==> latest matches Some(d) && t == transition_for(d),
        running_view(has_checkpoint, updated_at, now, may_fail).1 is Some ==> !has_checkpoint && now - updated_at > RUN_WEDGE_THRESHOLD_MS,
        waiting_view(false, latest, may_run, may_fail).3 == 1 <==> waiting_view(false, latest, may_run, may_fail).1 is Some,
{
}

/// Whether position `i` holds the latest resolved approval of a run: the
/// last of those updated most recently.
pub open spec fn is_latest_resolved(approvals: Seq<ApprovalInfo>, run_id: Seq<char>, i: int) -> bool {
    &&& 0 <= i < approvals.len()
    &&& resolved_for(approvals[i], run_id)
    &&& forall|j: int| 0 <= j < approvals.len() && resolved_for(#[trigger] approvals[j], run_id)
        ==> approvals[j].updated_at <= approvals[i].updated_at
    &&& forall|j: int| i < j < approvals.len() && resolved_for(#[trigger] approvals[j], run_id)
        ==> approvals[j].updated_at < approvals[i].updated_at
}

/// The decision of a run's latest resolved approval, if it has one.
pub open spec fn latest_decision(approvals: Seq<ApprovalInfo>, run_id: Seq<char>) -> Option<Decision> {
    if exists|i: int| is_latest_resolved(approvals, run_id, i) {
        approvals[choose|i: int| is_latest_resolved(approvals, run_id, i)].decision
    } else {
        None
    }
}

proof fn lemma_latest_unique(approvals: Seq<ApprovalInfo>, run_id: Seq<char>, i: int, k: int)
    requires
        is_latest_resolved(approvals, run_id, i),
        is_latest_resolved(approvals, run_id, k),
    ensures
        i == k,
{
    if i < k {
        assert(approvals[k].updated_at < approvals[i].updated_at);
        assert(approvals[i].updated_at <= approvals[k].updated_at);
    } else if k < i {
        assert(approvals[i].updated_at < approvals[k].updated_at);
        assert(approvals[k].updated_at <= approvals[i].updated_at);
    }
}

/// A non-terminal run found by the startup sweep, with what recovery reads
/// about it: its latest checkpoint, whether an approval of it is pending,
/// and whether the run state machine lets it move back to running or to
/// failed.
#[derive(Debug)]
pub struct SweptRun {
    pub run_id: String,
    pub state: SweptState,
    pub has_checkpoint: bool,
    pub updated_at: u64,
    pub approval_pending: bool,
    pub may_resume: bool,
    pub may_fail: bool,
}

/// The plan the matrix gives a swept run.
pub open spec fn swept_view(run: SweptRun, approvals: Seq<ApprovalInfo>, now: u64) -> PlanView {
    match run.state {
        SweptState::Running => running_view(run.has_checkpoint, run.updated_at, now, run.may_fail),
        SweptState::WaitingApproval => waiting_view(
            run.approval_pending,
            latest_decision(approvals, run.run_id@),
            run.may_resume,
            run.may_fail,
        ),
        SweptState::Paused | SweptState::WaitingDependency => unchanged_view("state unchanged; recovery advisory only"@),
        SweptState::Other(name) => (None, None, None, 2, "unexpected terminal-looking state in sweep: "@ + name@),
    }
}

/// What a startup sweep reports.
#[derive(Debug, Clone, Copy, PartialEq, Eq, Structural)]
pub struct RunRecoverySummary {
    pub scanned_runs: u32,
    pub recovered_runs: u32,
    pub advanced_runs: u32,
    pub failed_runs: u32,
}

/// Startup recovery of runs. It keeps no state: everything it decides on is
/// handed to it.
pub struct RecoveryServiceImpl {}

impl RecoveryServiceImpl {
    pub fn new() -> (r: Self) {
        RecoveryServiceImpl {  }
    }

    /// Sweeps the runs, in order: the plan for each run and the counts of
    /// runs scanned, recovered, advanced and failed.
    pub fn recover_all(&self, runs: &Vec<SweptRun>, approvals: &Vec<ApprovalInfo>, now: u64) -> (r: (Vec<RecoveryPlan>, RunRecoverySummary))
        requires
            runs@.len() <= u32::MAX,
        ensures
            r.0@.len() == runs@.len(),
            forall|k: int| 0 <= k < runs@.len() ==> plan_view(#[trigger] r.0@[k]) == swept_view(runs@[k], approvals@, now),
            r.1.scanned_runs == runs@.len(),
            r.1.recovered_runs == count_outcomes(r.0@.map_values(|p: RecoveryPlan| plan_view(p)), 0),
            r.1.advanced_runs == count_outcomes(r.0@.map_values(|p: RecoveryPlan| plan_view(p)), 1),
            r.1.failed_runs == count_outcomes(r.0@.map_values(|p: RecoveryPlan| plan_view(p)), 2),
    {
        let mut plans: Vec<RecoveryPlan> = Vec::new();
        let mut k: usize = 0;
        while k < runs.len()
            invariant
                k <= runs@.len(),
                plans@.len() == k,
                forall|j: int| 0 <= j < k ==> plan_view(#[trigger] plans@[j]) == swept_view(runs@[j], approvals@, now),
            decreases runs@.len() - k,
        {
            let run = &runs[k];
            let latest = match &run.state {
                SweptState::WaitingApproval => {
                    match latest_resolved(approvals, &run.run_id) {
                        Some(i) => {
                            proof {
                                assert(is_latest_resolved(approvals@, run.run_id@, i as int));
                                let c = choose|c: int| is_latest_resolved(approvals@, run.run_id@, c);
                                lemma_latest_unique(approvals@, run.run_id@, i as int, c);
                            }
                            approvals[i].decision
                        },
                        None => {
                            proof {
                                if exists|c: int| is_latest_resolved(approvals@, run.run_id@, c) {
                                    let c = choose|c: int| is_latest_resolved(approvals@, run.run_id@, c);
                                    assert(!resolved_for(approvals@[c], run.run_id@));
                                }
                            }
                            None
                        },
                    }
                },
                _ => None,
            };
            let plan = plan_for_run(&run.state, run.has_checkpoint, run.updated_at, now, run.approval_pending, latest, run.may_resume, run.may_fail);
            proof {
                assert(plan_view(plan) == swept_view(runs@[k as int], approvals@, now));
            }
            plans.push(plan);
            k = k + 1;
        }
        let (rec, adv, fail) = summarize(&plans);
        let summary = RunRecoverySummary { scanned_runs: runs.len() as u32, recovered_runs: rec, advanced_runs: adv, failed_runs: fail };
        (plans, summary)
    }
}

} // verus!
