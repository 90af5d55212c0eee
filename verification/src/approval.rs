//! Approvals: requests for an operator's decision, and the change a
//! decision makes to the run it holds.
use vstd::prelude::*;
use crate::alist::TextMap;
use crate::domain::ProjectKey;
use crate::recovery::{transition_for, Decision, RecoveryTransition};
use crate::runtime_error::{fails_not_found, not_found, RuntimeError};

verus! {

/// Whether an approval must be granted before work goes on.
#[derive(Debug, Clone, Copy, PartialEq, Eq, Structural)]
pub enum ApprovalRequirement {
    Required,
    Advisory,
}

/// An approval and the decision on it, once there is one.
#[derive(Debug)]
pub struct ApprovalRecord {
    pub approval_id: String,
    pub project: ProjectKey,
    pub run_id: Option<String>,
    pub task_id: Option<String>,
    pub requirement: ApprovalRequirement,
    pub title: Option<String>,
    pub description: Option<String>,
    pub decision: Option<Decision>,
}

fn copy_opt(o: &Option<String>) -> (r: Option<String>)
    ensures
        r == *o,
{
    match o {
        Some(s) => Some(s.clone()),
        None => None,
    }
}

impl ApprovalRecord {
    pub fn duplicate(&self) -> (r: Self)
        ensures
            r == *self,
    {
        ApprovalRecord {
            approval_id: self.approval_id.clone(),
            project: self.project.duplicate(),
            run_id: copy_opt(&self.run_id),
            task_id: copy_opt(&self.task_id),
            requirement: self.requirement,
            title: copy_opt(&self.title),
            description: copy_opt(&self.description),
            decision: self.decision,
        }
    }
}

/// The change of run state a resolved approval asks for: the run it holds
/// and where that run goes. The caller applies it when the run exists and
/// the run state machine allows the change.
#[derive(Debug)]
pub struct RunCascade {
    pub run_id: String,
    pub transition: RecoveryTransition,
}

/// The name `resolve` reports for a decision it refuses to apply.
pub open spec fn decision_name(d: Decision) -> Seq<char> {
    match d {
        Decision::Approved => "Approved"@,
        Decision::Rejected => "Rejected"@,
    }
}

/// Which approvals a listing keeps: those of the project, and with
/// `pending_only` only the undecided ones.
pub open spec fn approval_filter(project: (Seq<char>, Seq<char>, Seq<char>), pending_only: bool) -> spec_fn(ApprovalRecord) -> bool {
    |a: ApprovalRecord| a.project@ == project && (!pending_only || a.decision is None)
}

/// Approvals by id, in the order they were first requested.
pub struct ApprovalServiceImpl {
    approvals: TextMap<ApprovalRecord>,
}

impl ApprovalServiceImpl {
    pub closed spec fn approvals(&self) -> Map<Seq<char>, ApprovalRecord> {
        self.approvals@
    }

    /// The approvals in the order they were first requested.
    pub closed spec fn order(&self) -> Seq<ApprovalRecord> {
        self.approvals.entry_seq().map_values(|e: (Seq<char>, ApprovalRecord)| e.1)
    }

    pub closed spec fn wf(&self) -> bool {
        &&& self.approvals.wf()
        &&& forall|k: Seq<char>| #[trigger] self.approvals@.contains_key(k) ==> self.approvals@[k].approval_id@ == k
    }

    pub fn new() -> (r: Self)
        ensures
            r.wf(),
            r.approvals() == Map::<Seq<char>, ApprovalRecord>::empty(),
    {
        ApprovalServiceImpl { approvals: TextMap::new() }
    }

    /// Records a request for approval, undecided, replacing any earlier
    /// approval with the same id. Returns the approval and, when it holds a
    /// run, that run's id: the caller moves the run to waiting for approval
    /// when the run exists and its state allows it.
    pub fn request_with_context(
        &mut self,
        project: &ProjectKey,
        approval_id: &str,
        run_id: Option<String>,
        task_id: Option<String>,
        requirement: ApprovalRequirement,
        title: Option<String>,
        description: Option<String>,
    ) -> (r: (ApprovalRecord, Option<String>))
        requires
            old(self).wf(),
        ensures
            final(self).wf(),
            r.0.approval_id@ == approval_id@,
            r.0.project == *project,
            r.0.run_id == run_id,
            r.0.task_id == task_id,
            r.0.requirement == requirement,
            r.0.title == title,
            r.0.description == description,
            r.0.decision is None,
            r.1 == run_id,
            final(self).approvals() == old(self).approvals().insert(approval_id@, r.0),
    {
        let waiting = copy_opt(&run_id);
        let rec = ApprovalRecord {
            approval_id: approval_id.to_owned(),
            project: project.duplicate(),
            run_id,
            task_id,
            requirement,
            title,
            description,
            decision: None,
        };
        let out = rec.duplicate();
        self.approvals.insert(approval_id.to_owned(), rec);
        (out, waiting)
    }

    /// `request_with_context` with no title or description.
    pub fn request(
        &mut self,
        project: &ProjectKey,
        approval_id: &str,
        run_id: Option<String>,
        task_id: Option<String>,
        requirement: ApprovalRequirement,
    ) -> (r: (ApprovalRecord, Option<String>))
        requires
            old(self).wf(),
        ensures
            final(self).wf(),
            r.0.approval_id@ == approval_id@,
            r.0.project == *project,
            r.0.run_id == run_id,
            r.0.task_id == task_id,
            r.0.requirement == requirement,
            r.0.title is None,
            r.0.description is None,
            r.0.decision is None,
            r.1 == run_id,
            final(self).approvals() == old(self).approvals().insert(approval_id@, r.0),
    {
        self.request_with_context(project, approval_id, run_id, task_id, requirement, None, None)
    }

    /// An approval, if it exists.
    pub fn get(&self, approval_id: &str) -> (r: Option<ApprovalRecord>)
        requires
            self.wf(),
        ensures
            match r {
                Some(a) => self.approvals().contains_key(approval_id@) && a == self.approvals()[approval_id@],
                None => !self.approvals().contains_key(approval_id@),
            },
    {
        match self.approvals.get(&approval_id.to_owned()) {
            Some(a) => Some(a.duplicate()),
            None => None,
        }
    }

    /// Records the decision on an undecided approval. Refused with
    /// `NotFound` for an unknown approval and with `InvalidTransition`
    /// (from `resolved`) for one decided already. When the approval holds a
    /// run, also returns the change the decision asks of that run: back to
    /// running when approved, failed when rejected.
    pub fn resolve(&mut self, approval_id: &str, decision: Decision) -> (r: Result<(ApprovalRecord, Option<RunCascade>), RuntimeError>)
        requires
            old(self).wf(),
        ensures
            final(self).wf(),
            !old(self).approvals().contains_key(approval_id@) ==> fails_not_found(r, "approval"@, approval_id@)
                && final(self).approvals() == old(self).approvals(),
            old(self).approvals().contains_key(approval_id@) && old(self).approvals()[approval_id@].decision is Some ==> (match r {
                Err(RuntimeError::InvalidTransition { entity, from, to }) => entity@ == "approval"@ && from@ == "resolved"@
                    && to@ == decision_name(decision),
                _ => false,
            }) && final(self).approvals() == old(self).approvals(),
            old(self).approvals().contains_key(approval_id@) && old(self).approvals()[approval_id@].decision is None ==> (match r {
                Ok((a, cascade)) => {
                    let before = old(self).approvals()[approval_id@];
                    &&& a == ApprovalRecord { decision: Some(decision), ..before }
                    &&& final(self).approvals() == old(self).approvals().insert(approval_id@, a)
                    &&& match before.run_id {
                        Some(run) => cascade matches Some(c) && c.run_id == run && c.transition == transition_for(decision),
                        None => cascade is None,
                    }
                },
                Err(_) => false,
            }),
    {
        let key = approval_id.to_owned();
        let i = match self.approvals.index_of(&key) {
            Some(i) => i,
            None => return Err(not_found("approval", approval_id)),
        };
        let (k, mut rec) = self.approvals.take_at(i);
        if rec.decision.is_some() {
            self.approvals.put_at(i, k, rec);
            proof {
                assert(self.approvals@ =~= old(self).approvals@);
            }
            let to = match decision {
                Decision::Approved => "Approved".to_owned(),
                Decision::Rejected => "Rejected".to_owned(),
            };
            return Err(RuntimeError::InvalidTransition { entity: "approval".to_owned(), from: "resolved".to_owned(), to });
        }
        rec.decision = Some(decision);
        let cascade = match &rec.run_id {
            Some(run) => {
                let transition = match decision {
                    Decision::Approved => RecoveryTransition::ResumeRunning,
                    Decision::Rejected => RecoveryTransition::Fail(crate::recovery::FailureKind::ApprovalRejected),
                };
                Some(RunCascade { run_id: run.clone(), transition })
            },
            None => None,
        };
        let out = rec.duplicate();
        self.approvals.put_at(i, k, rec);
        proof {
            assert forall|q: Seq<char>| #[trigger] self.approvals@.contains_key(q) implies self.approvals@[q].approval_id@ == q by {
                if q != approval_id@ {
                    assert(old(self).approvals@.contains_key(q));
                }
            }
        }
        Ok((out, cascade))
    }

    /// A project's approvals that satisfy `pending_only` (undecided ones
    /// when it is set, all otherwise), in request order, skipping the
    /// first `offset` and keeping at most `limit`.
    fn list(&self, project: &ProjectKey, pending_only: bool, limit: usize, offset: usize) -> (r: Vec<ApprovalRecord>)
        requires
            self.wf(),
        ensures
            ({
                let all = self.order().filter(approval_filter(project@, pending_only));
                let start = if offset < all.len() { offset as int } else { all.len() as int };
                let end = if start + limit < all.len() { start + limit } else { all.len() as int };
                r@ == all.subrange(start, end)
            }),
    {
        let ghost f = approval_filter(project@, pending_only);
        let ghost o = self.order();
        let n = self.approvals.len();
        let mut all: Vec<ApprovalRecord> = Vec::new();
        let mut i: usize = 0;
        while i < n
            invariant
                i <= n,
                self.wf(),
                n == o.len(),
                o == self.order(),
                f == approval_filter(project@, pending_only),
                all@ == o.take(i as int).filter(f),
            decreases n - i,
        {
            let (_k, a) = self.approvals.entry_at(i);
            proof {
                assert(o[i as int] == *a);
                assert(o.take(i + 1) =~= o.take(i as int).push(o[i as int]));
                o.take(i as int).lemma_filter_push(o[i as int], f);
            }
            if a.project.same(project) && (!pending_only || a.decision.is_none()) {
                all.push(a.duplicate());
            }
            i = i + 1;
        }
        assert(o.take(n as int) =~= o);
        let start = if offset < all.len() { offset } else { all.len() };
        let end = if limit < all.len() - start { start + limit } else { all.len() };
        let mut out: Vec<ApprovalRecord> = Vec::new();
        let mut j: usize = start;
        while j < end
            invariant
                start <= j <= end <= all@.len(),
                out@ == all@.subrange(start as int, j as int),
            decreases end - j,
        {
            out.push(all[j].duplicate());
            assert(out@ =~= all@.subrange(start as int, j + 1));
            j = j + 1;
        }
        out
    }

    /// A project's undecided approvals, in request order, paged.
    pub fn list_pending(&self, project: &ProjectKey, limit: usize, offset: usize) -> (r: Vec<ApprovalRecord>)
        requires
            self.wf(),
        ensures
            ({
                let all = self.order().filter(approval_filter(project@, true));
                let start = if offset < all.len() { offset as int } else { all.len() as int };
                let end = if start + limit < all.len() { start + limit } else { all.len() as int };
                r@ == all.subrange(start, end)
            }),
    {
        self.list(project, true, limit, offset)
    }

    /// All of a project's approvals, in request order, paged.
    pub fn list_all(&self, project: &ProjectKey, limit: usize, offset: usize) -> (r: Vec<ApprovalRecord>)
        requires
            self.wf(),
        ensures
            ({
                let all = self.order().filter(approval_filter(project@, false));
                let start = if offset < all.len() { offset as int } else { all.len() as int };
                let end = if start + limit < all.len() { start + limit } else { all.len() as int };
                r@ == all.subrange(start, end)
            }),
    {
        self.list(project, false, limit, offset)
    }
}

} // verus!
