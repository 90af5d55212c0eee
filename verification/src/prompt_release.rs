//! Prompt releases: created as drafts, moved between states, and activated
//! only through the approval gate; activating a release moves the other
//! active releases of its asset in its project back to approved.
use vstd::prelude::*;
use crate::approval::{ApprovalRecord, ApprovalRequirement, ApprovalServiceImpl};
use crate::clock::{at_time, now_ms};
use crate::domain::ProjectKey;
use crate::recovery::Decision;
use crate::release_gate::{activation_outcome, ActivationError, ApprovalStatus, ReleaseGate};
use crate::runtime_error::{conflict, fails_conflict, fails_not_found, not_found, RuntimeError};
use crate::tenancy::page;
use crate::text::str_eq;

verus! {

/// A prompt release.
#[derive(Debug)]
pub struct PromptReleaseRecord {
    pub prompt_release_id: String,
    pub project: ProjectKey,
    pub prompt_asset_id: String,
    pub prompt_version_id: String,
    pub state: String,
    /// The share of traffic of a rollout started on it, in percent.
    pub rollout_percent: Option<u8>,
    pub created_at_ms: u64,
}

impl PromptReleaseRecord {
    /// A field-by-field copy.
    pub fn duplicate(&self) -> (r: Self)
        ensures
            r == *self,
    {
        PromptReleaseRecord {
            prompt_release_id: self.prompt_release_id.clone(),
            project: self.project.duplicate(),
            prompt_asset_id: self.prompt_asset_id.clone(),
            prompt_version_id: self.prompt_version_id.clone(),
            state: self.state.clone(),
            rollout_percent: self.rollout_percent,
            created_at_ms: self.created_at_ms,
        }
    }
}

/// Two records agree on everything but the state.
pub open spec fn same_but_state(a: PromptReleaseRecord, b: PromptReleaseRecord) -> bool {
    &&& a.prompt_release_id == b.prompt_release_id
    &&& a.project == b.project
    &&& a.prompt_asset_id == b.prompt_asset_id
    &&& a.prompt_version_id == b.prompt_version_id
    &&& a.rollout_percent == b.rollout_percent
    &&& a.created_at_ms == b.created_at_ms
}

/// Some release has the id.
pub open spec fn has_release(s: Seq<PromptReleaseRecord>, id: Seq<char>) -> bool {
    exists|i: int| 0 <= i < s.len() && #[trigger] s[i].prompt_release_id@ == id
}

/// The position of the release with an id (ids being unique).
pub open spec fn release_index(s: Seq<PromptReleaseRecord>, id: Seq<char>) -> int {
    choose|i: int| 0 <= i < s.len() && #[trigger] s[i].prompt_release_id@ == id
}

/// The state of release `r` after `target` (of `asset` in `project`) is
/// activated.
pub open spec fn state_after_activate(
    r: PromptReleaseRecord,
    project: (Seq<char>, Seq<char>, Seq<char>),
    asset: Seq<char>,
    target: Seq<char>,
) -> Seq<char> {
    if r.prompt_release_id@ == target {
        "active"@
    } else if r.project@ == project && r.prompt_asset_id@ == asset && r.state@ == "active"@ {
        "approved"@
    } else {
        r.state@
    }
}

/// The approval gate's reading of an approval's decision.
pub open spec fn status_of(d: Option<Decision>) -> ApprovalStatus {
    match d {
        Some(Decision::Approved) => ApprovalStatus::Approved,
        Some(Decision::Rejected) => ApprovalStatus::Rejected,
        None => ApprovalStatus::Pending,
    }
}

/// The decision on the approval linked to a release, as the approvals hold
/// it: nothing without a link or without that approval.
pub open spec fn linked_status(links: Map<Seq<char>, Seq<char>>, approvals: Map<Seq<char>, ApprovalRecord>, id: Seq<char>) -> Option<
    ApprovalStatus,
> {
    if links.contains_key(id) && approvals.contains_key(links[id]) {
        Some(status_of(approvals[links[id]].decision))
    } else {
        None
    }
}

/// A refused activation as plain values: 0 with the from-state for a state
/// that does not allow it, 1 with the reason for a policy denial, 2 for a
/// missing approval record.
pub open spec fn refusal_view(e: RuntimeError) -> (int, Seq<char>) {
    match e {
        RuntimeError::InvalidTransition { from, .. } => (0, from@),
        RuntimeError::PolicyDenied { reason } => (1, reason@),
        _ => (2, Seq::empty()),
    }
}

/// Prompt releases in the order they were created, and their approval gate.
pub struct PromptReleaseServiceImpl {
    releases: Vec<PromptReleaseRecord>,
    gate: ReleaseGate,
}

impl PromptReleaseServiceImpl {
    pub closed spec fn releases(&self) -> Seq<PromptReleaseRecord> {
        self.releases@
    }

    /// Release id to attached policy id.
    pub closed spec fn policies(&self) -> Map<Seq<char>, Seq<char>> {
        self.gate.policies()
    }

    /// Release id to requested approval id.
    pub closed spec fn links(&self) -> Map<Seq<char>, Seq<char>> {
        self.gate.links()
    }

    /// No two releases share an id, and the approval records are well formed.
    pub closed spec fn wf(&self) -> bool {
        &&& self.gate.wf()
        &&& forall|a: int, b: int|
            0 <= a < self.releases@.len() && 0 <= b < self.releases@.len() && a != b
                ==> #[trigger] self.releases@[a].prompt_release_id@ != #[trigger] self.releases@[b].prompt_release_id@
    }

    pub fn new() -> (r: Self)
        ensures
            r.wf(),
            r.releases() == Seq::<PromptReleaseRecord>::empty(),
            r.policies() == Map::<Seq<char>, Seq<char>>::empty(),
            r.links() == Map::<Seq<char>, Seq<char>>::empty(),
    {
        PromptReleaseServiceImpl { releases: Vec::new(), gate: ReleaseGate::new() }
    }

    fn position(&self, id: &str) -> (r: Option<usize>)
        requires
            self.wf(),
        ensures
            match r {
                Some(i) => i < self.releases@.len() && self.releases@[i as int].prompt_release_id@ == id@
                    && release_index(self.releases@, id@) == i,
                None => !has_release(self.releases@, id@),
            },
    {
        let mut i: usize = 0;
        while i < self.releases.len()
            invariant
                self.wf(),
                i <= self.releases@.len(),
                forall|j: int| 0 <= j < i ==> #[trigger] self.releases@[j].prompt_release_id@ != id@,
            decreases self.releases@.len() - i,
        {
            if str_eq(self.releases[i].prompt_release_id.as_str(), id) {
                proof {
                    let k = release_index(self.releases@, id@);
                    if k != i as int {
                        assert(self.releases@[k].prompt_release_id@ != self.releases@[i as int].prompt_release_id@);
                    }
                }
                return Some(i);
            }
            i = i + 1;
        }
        None
    }

    /// Creates a release of an asset's version at `now`, as a draft.
    /// Refused with `Conflict` if the id is taken.
    pub fn create_at(
        &mut self,
        project: &ProjectKey,
        release_id: &str,
        asset_id: &str,
        version_id: &str,
        now: u64,
    ) -> (r: Result<PromptReleaseRecord, RuntimeError>)
        requires
            old(self).wf(),
        ensures
            final(self).wf(),
            final(self).policies() == old(self).policies(),
            final(self).links() == old(self).links(),
            has_release(old(self).releases(), release_id@) ==> fails_conflict(r, "prompt_release"@, release_id@)
                && final(self).releases() == old(self).releases(),
            !has_release(old(self).releases(), release_id@) ==> (r matches Ok(x) && x.prompt_release_id@ == release_id@
                && x.project == *project && x.prompt_asset_id@ == asset_id@ && x.prompt_version_id@ == version_id@
                && x.state@ == "draft"@ && x.rollout_percent is None && x.created_at_ms == now
                && final(self).releases() == old(self).releases().push(x)),
    {
        if self.position(release_id).is_some() {
            return Err(conflict("prompt_release", release_id));
        }
        let rec = PromptReleaseRecord {
            prompt_release_id: release_id.to_owned(),
            project: project.duplicate(),
            prompt_asset_id: asset_id.to_owned(),
            prompt_version_id: version_id.to_owned(),
            state: "draft".to_owned(),
            rollout_percent: None,
            created_at_ms: now,
        };
        let out = rec.duplicate();
        self.releases.push(rec);
        proof {
            let s = self.releases@;
            assert forall|a: int, b: int| 0 <= a < s.len() && 0 <= b < s.len() && a != b implies #[trigger] s[a].prompt_release_id@
                != #[trigger] s[b].prompt_release_id@ by {
                if a < s.len() - 1 && b < s.len() - 1 {
                    assert(old(self).releases@[a].prompt_release_id@ != old(self).releases@[b].prompt_release_id@);
                } else if a < s.len() - 1 {
                    assert(s[a] == old(self).releases@[a]);
                } else {
                    assert(s[b] == old(self).releases@[b]);
                }
            }
        }
        Ok(out)
    }

    /// Creates a draft release, stamped with the current time.
    pub fn create(&mut self, project: &ProjectKey, release_id: &str, asset_id: &str, version_id: &str) -> (r: Result<
        PromptReleaseRecord,
        RuntimeError,
    >)
        requires
            old(self).wf(),
        ensures
            final(self).wf(),
            has_release(old(self).releases(), release_id@) ==> fails_conflict(r, "prompt_release"@, release_id@)
                && final(self).releases() == old(self).releases(),
            !has_release(old(self).releases(), release_id@) ==> (r matches Ok(x) && x.prompt_release_id@ == release_id@
                && x.project == *project && x.state@ == "draft"@ && final(self).releases() == old(self).releases().push(x)),
            final(self).policies() == old(self).policies(),
            final(self).links() == old(self).links(),
            exists|tm: u64| #[trigger] at_time(tm)
                && (!has_release(old(self).releases(), release_id@) ==> (r matches Ok(x) && x.prompt_release_id@ == release_id@
                    && x.project == *project && x.prompt_asset_id@ == asset_id@ && x.prompt_version_id@ == version_id@
                    && x.state@ == "draft"@ && x.rollout_percent is None && x.created_at_ms == tm
                    && final(self).releases() == old(self).releases().push(x))),
    {
        let now = now_ms();
        let r = self.create_at(project, release_id, asset_id, version_id, now);
        assert(at_time(now));
        r
    }

    /// Gives the release at `i` a new state.
    fn set_state(&mut self, i: usize, state: &str)
        requires
            old(self).wf(),
            i < old(self).releases().len(),
        ensures
            final(self).wf(),
            final(self).gate == old(self).gate,
            final(self).releases().len() == old(self).releases().len(),
            final(self).releases()[i as int].state@ == state@,
            same_but_state(final(self).releases()[i as int], old(self).releases()[i as int]),
            forall|j: int| 0 <= j < old(self).releases().len() && j != i ==> final(self).releases()[j] == old(self).releases()[j],
    {
        let c = self.releases[i].duplicate();
        self.releases.set(
            i,
            PromptReleaseRecord {
                prompt_release_id: c.prompt_release_id,
                project: c.project,
                prompt_asset_id: c.prompt_asset_id,
                prompt_version_id: c.prompt_version_id,
                state: state.to_owned(),
                rollout_percent: c.rollout_percent,
                created_at_ms: c.created_at_ms,
            },
        );
        proof {
            let s = self.releases@;
            assert forall|a: int, b: int| 0 <= a < s.len() && 0 <= b < s.len() && a != b implies #[trigger] s[a].prompt_release_id@
                != #[trigger] s[b].prompt_release_id@ by {
                assert(old(self).releases@[a].prompt_release_id@ != old(self).releases@[b].prompt_release_id@);
            }
        }
    }

    /// Moves a release to a state. Refused with `NotFound` for an unknown
    /// release.
    pub fn transition(&mut self, release_id: &str, to_state: &str) -> (r: Result<PromptReleaseRecord, RuntimeError>)
        requires
            old(self).wf(),
        ensures
            final(self).wf(),
            final(self).policies() == old(self).policies(),
            final(self).links() == old(self).links(),
            !has_release(old(self).releases(), release_id@) ==> fails_not_found(r, "prompt_release"@, release_id@)
                && final(self).releases() == old(self).releases(),
            has_release(old(self).releases(), release_id@) ==> {
                let i = release_index(old(self).releases(), release_id@);
                &&& final(self).releases().len() == old(self).releases().len()
                &&& final(self).releases()[i].state@ == to_state@
                &&& same_but_state(final(self).releases()[i], old(self).releases()[i])
                &&& forall|j: int| 0 <= j < old(self).releases().len() && j != i ==> final(self).releases()[j] == old(self).releases()[j]
                &&& r matches Ok(x) && x == final(self).releases()[i]
            },
    {
        let i = match self.position(release_id) {
            Some(i) => i,
            None => return Err(not_found("prompt_release", release_id)),
        };
        self.set_state(i, to_state);
        Ok(self.releases[i].duplicate())
    }

    /// Attaches an approval policy to a release; activating it then needs
    /// its approval. Refused with `NotFound` for an unknown release.
    pub fn attach_approval_policy(&mut self, release_id: &str, policy_id: &str) -> (r: Result<(), RuntimeError>)
        requires
            old(self).wf(),
        ensures
            final(self).wf(),
            final(self).releases() == old(self).releases(),
            final(self).links() == old(self).links(),
            !has_release(old(self).releases(), release_id@) ==> fails_not_found(r, "prompt_release"@, release_id@)
                && final(self).policies() == old(self).policies(),
            has_release(old(self).releases(), release_id@) ==> r is Ok && final(self).policies() == old(self).policies().insert(
                release_id@,
                policy_id@,
            ),
    {
        if self.position(release_id).is_none() {
            return Err(not_found("prompt_release", release_id));
        }
        self.gate.attach_policy(&release_id.to_owned(), policy_id);
        Ok(())
    }

    /// Requests the operator approval of a release, `apr_rel_<release>`,
    /// and links it to the release. Refused with `NotFound` for an unknown
    /// release.
    pub fn request_approval(&mut self, release_id: &str, approvals: &mut ApprovalServiceImpl) -> (r: Result<
        ApprovalRecord,
        RuntimeError,
    >)
        requires
            old(self).wf(),
            old(approvals).wf(),
        ensures
            final(self).wf(),
            final(approvals).wf(),
            final(self).releases() == old(self).releases(),
            final(self).policies() == old(self).policies(),
            !has_release(old(self).releases(), release_id@) ==> fails_not_found(r, "prompt_release"@, release_id@)
                && final(self).links() == old(self).links() && final(approvals).approvals() == old(approvals).approvals(),
            has_release(old(self).releases(), release_id@) ==> (r matches Ok(a) && {
                let rel = old(self).releases()[release_index(old(self).releases(), release_id@)];
                &&& a.approval_id@ == crate::release_gate::approval_id_for(release_id@)
                &&& a.project == rel.project
                &&& a.run_id is None && a.task_id is None
                &&& a.requirement == ApprovalRequirement::Required
                &&& a.title matches Some(t) && t@ == crate::release_gate::approval_title(release_id@)
                &&& a.description matches Some(d) && d@ == crate::release_gate::approval_description(release_id@)
                &&& a.decision is None
                &&& final(approvals).approvals() == old(approvals).approvals().insert(a.approval_id@, a)
                &&& final(self).links() == old(self).links().insert(release_id@, a.approval_id@)
            }),
    {
        let i = match self.position(release_id) {
            Some(i) => i,
            None => return Err(not_found("prompt_release", release_id)),
        };
        let (id, title, description) = self.gate.request_approval(&release_id.to_owned());
        let (rec, _) = approvals.request_with_context(
            &self.releases[i].project,
            id.as_str(),
            None,
            None,
            ApprovalRequirement::Required,
            Some(title),
            Some(description),
        );
        Ok(rec)
    }

    /// Activates an approved release, as the approval gate allows: a release
    /// with an attached policy needs its linked approval approved. The other
    /// active releases of its asset in its project go back to approved.
    /// Refused with `NotFound` for an unknown release, and otherwise as
    /// [`ReleaseGate::check_activation`] refuses (`InvalidTransition` from
    /// the release's state, `PolicyDenied` with its reason, `Internal` when
    /// the linked approval is missing).
    pub fn activate(&mut self, release_id: &str, approvals: &ApprovalServiceImpl) -> (r: Result<PromptReleaseRecord, RuntimeError>)
        requires
            old(self).wf(),
            approvals.wf(),
        ensures
            final(self).wf(),
            final(self).policies() == old(self).policies(),
            final(self).links() == old(self).links(),
            !has_release(old(self).releases(), release_id@) ==> fails_not_found(r, "prompt_release"@, release_id@)
                && final(self).releases() == old(self).releases(),
            has_release(old(self).releases(), release_id@) ==> {
                let i = release_index(old(self).releases(), release_id@);
                let target = old(self).releases()[i];
                let outcome = activation_outcome(
                    target.state@,
                    old(self).policies().contains_key(release_id@),
                    old(self).links().contains_key(release_id@),
                    linked_status(old(self).links(), approvals.approvals(), release_id@),
                    release_id@,
                );
                &&& (r is Ok) == (outcome is Ok)
                &&& r matches Err(RuntimeError::InvalidTransition { entity, from, to }) ==> entity@ == "prompt_release"@
                    && from@ == target.state@ && to@ == "active"@
                &&& r matches Err(e) ==> outcome == Err::<(), (int, Seq<char>)>(refusal_view(e)) && final(self).releases()
                    == old(self).releases()
                &&& r matches Ok(x) ==> {
                    &&& final(self).releases().len() == old(self).releases().len()
                    &&& forall|j: int| 0 <= j < old(self).releases().len() ==> same_but_state(
                        #[trigger] final(self).releases()[j],
                        old(self).releases()[j],
                    ) && final(self).releases()[j].state@ == state_after_activate(
                        old(self).releases()[j],
                        target.project@,
                        target.prompt_asset_id@,
                        release_id@,
                    )
                    &&& x == final(self).releases()[i]
                }
            },
    {
        let i = match self.position(release_id) {
            Some(i) => i,
            None => return Err(not_found("prompt_release", release_id)),
        };
        let rid = release_id.to_owned();
        let status = match self.gate.linked_approval(&rid) {
            Some(aid) => match approvals.get(aid.as_str()) {
                Some(a) => Some(
                    match a.decision {
                        Some(Decision::Approved) => ApprovalStatus::Approved,
                        Some(Decision::Rejected) => ApprovalStatus::Rejected,
                        None => ApprovalStatus::Pending,
                    },
                ),
                None => None,
            },
            None => None,
        };
        match self.gate.check_activation(&rid, self.releases[i].state.as_str(), status) {
            Err(ActivationError::InvalidTransition { from, to }) => {
                return Err(RuntimeError::InvalidTransition { entity: "prompt_release".to_owned(), from, to });
            },
            Err(ActivationError::PolicyDenied { reason }) => {
                return Err(RuntimeError::PolicyDenied { reason });
            },
            Err(ActivationError::ApprovalMissing) => {
                return Err(RuntimeError::Internal { message: "approval record missing".to_owned() });
            },
            Ok(()) => {},
        }
        let target = self.releases[i].duplicate();
        let ghost s0 = self.releases@;
        let mut j: usize = 0;
        while j < self.releases.len()
            invariant
                self.wf(),
                self.gate == old(self).gate,
                self.releases@.len() == s0.len(),
                j <= s0.len(),
                i < s0.len(),
                target == s0[i as int],
                target.prompt_release_id@ == release_id@,
                forall|k: int| 0 <= k < j ==> same_but_state(#[trigger] self.releases@[k], s0[k]) && (k == i
                    || self.releases@[k].state@ == state_after_activate(s0[k], target.project@, target.prompt_asset_id@, release_id@)),
                forall|k: int| j <= k < s0.len() ==> #[trigger] self.releases@[k] == s0[k],
                self.releases@[i as int] == s0[i as int],
                forall|a: int, b: int| 0 <= a < s0.len() && 0 <= b < s0.len() && a != b ==> #[trigger] s0[a].prompt_release_id@
                    != #[trigger] s0[b].prompt_release_id@,
            decreases s0.len() - j,
        {
            if j != i {
                let r = &self.releases[j];
                if r.project.same(&target.project) && str_eq(r.prompt_asset_id.as_str(), target.prompt_asset_id.as_str())
                    && str_eq(r.state.as_str(), "active") {
                    self.set_state(j, "approved");
                }
                proof {
                    assert(s0[j as int].prompt_release_id@ != s0[i as int].prompt_release_id@);
                }
            }
            j = j + 1;
        }
        self.set_state(i, "active");
        Ok(self.releases[i].duplicate())
    }

    /// Starts a rollout of a release to a share of traffic. Refused with
    /// `NotFound` for an unknown release.
    pub fn start_rollout(&mut self, release_id: &str, percent: u8) -> (r: Result<PromptReleaseRecord, RuntimeError>)
        requires
            old(self).wf(),
        ensures
            final(self).wf(),
            final(self).policies() == old(self).policies(),
            final(self).links() == old(self).links(),
            !has_release(old(self).releases(), release_id@) ==> fails_not_found(r, "prompt_release"@, release_id@)
                && final(self).releases() == old(self).releases(),
            has_release(old(self).releases(), release_id@) ==> {
                let i = release_index(old(self).releases(), release_id@);
                let b = old(self).releases()[i];
                let a = PromptReleaseRecord {
                    prompt_release_id: b.prompt_release_id,
                    project: b.project,
                    prompt_asset_id: b.prompt_asset_id,
                    prompt_version_id: b.prompt_version_id,
                    state: b.state,
                    rollout_percent: Some(percent),
                    created_at_ms: b.created_at_ms,
                };
                &&& final(self).releases() == old(self).releases().update(i, a)
                &&& r matches Ok(x) && x == a
            },
    {
        let i = match self.position(release_id) {
            Some(i) => i,
            None => return Err(not_found("prompt_release", release_id)),
        };
        let c = self.releases[i].duplicate();
        let rec = PromptReleaseRecord {
            prompt_release_id: c.prompt_release_id,
            project: c.project,
            prompt_asset_id: c.prompt_asset_id,
            prompt_version_id: c.prompt_version_id,
            state: c.state,
            rollout_percent: Some(percent),
            created_at_ms: c.created_at_ms,
        };
        let out = rec.duplicate();
        self.releases.set(i, rec);
        proof {
            let s = self.releases@;
            assert forall|a: int, b: int| 0 <= a < s.len() && 0 <= b < s.len() && a != b implies #[trigger] s[a].prompt_release_id@
                != #[trigger] s[b].prompt_release_id@ by {
                assert(old(self).releases@[a].prompt_release_id@ != old(self).releases@[b].prompt_release_id@);
            }
        }
        Ok(out)
    }

    /// Rolls back: the current release is archived, then the target release
    /// becomes active. Refused with `NotFound` for an unknown release (the
    /// current one first).
    pub fn rollback(&mut self, current_id: &str, target_id: &str) -> (r: Result<PromptReleaseRecord, RuntimeError>)
        requires
            old(self).wf(),
        ensures
            final(self).wf(),
            final(self).policies() == old(self).policies(),
            final(self).links() == old(self).links(),
            !has_release(old(self).releases(), current_id@) ==> fails_not_found(r, "prompt_release"@, current_id@)
                && final(self).releases() == old(self).releases(),
            has_release(old(self).releases(), current_id@) && !has_release(old(self).releases(), target_id@) ==> fails_not_found(
                r,
                "prompt_release"@,
                target_id@,
            ),
            r matches Ok(x) ==> x.prompt_release_id@ == target_id@ && x.state@ == "active"@ && final(self).releases().contains(x),
            has_release(old(self).releases(), current_id@) && has_release(old(self).releases(), target_id@) ==> {
                let c = release_index(old(self).releases(), current_id@);
                let t = release_index(old(self).releases(), target_id@);
                &&& final(self).releases().len() == old(self).releases().len()
                &&& final(self).releases()[t].state@ == "active"@
                &&& same_but_state(final(self).releases()[t], old(self).releases()[t])
                &&& c != t ==> final(self).releases()[c].state@ == "archived"@ && same_but_state(
                    final(self).releases()[c],
                    old(self).releases()[c],
                )
                &&& forall|j: int| 0 <= j < old(self).releases().len() && j != c && j != t ==> final(self).releases()[j]
                    == old(self).releases()[j]
                &&& r matches Ok(x) && x == final(self).releases()[t]
            },
    {
        match self.transition(current_id, "archived") {
            Err(e) => return Err(e),
            Ok(_) => {},
        }
        proof {
            if !has_release(old(self).releases(), target_id@) {
                if has_release(self.releases(), target_id@) {
                    let k = choose|k: int| 0 <= k < self.releases().len() && #[trigger] self.releases()[k].prompt_release_id@ == target_id@;
                    let i = release_index(old(self).releases(), current_id@);
                    if k != i {
                        assert(old(self).releases()[k].prompt_release_id@ == target_id@);
                    } else {
                        assert(old(self).releases()[k].prompt_release_id@ == target_id@);
                    }
                }
            }
        }
        let ghost mid = self.releases();
        proof {
            if has_release(old(self).releases(), target_id@) {
                let a = release_index(old(self).releases(), target_id@);
                let c = release_index(old(self).releases(), current_id@);
                assert(mid[a].prompt_release_id@ == old(self).releases()[a].prompt_release_id@);
                assert(has_release(mid, target_id@));
                let b = release_index(mid, target_id@);
                assert(mid[b].prompt_release_id@ == old(self).releases()[b].prompt_release_id@);
                if a != b {
                    assert(old(self).releases@[a].prompt_release_id@ != old(self).releases@[b].prompt_release_id@);
                }
            }
        }
        let r = self.transition(target_id, "active");
        proof {
            if r is Ok {
                let i = release_index(mid, target_id@);
                assert(self.releases()[i] == r->Ok_0);
            }
        }
        r
    }

    /// The release with an id.
    pub fn get(&self, release_id: &str) -> (r: Option<&PromptReleaseRecord>)
        requires
            self.wf(),
        ensures
            match r {
                Some(x) => self.releases().contains(*x) && x.prompt_release_id@ == release_id@,
                None => !has_release(self.releases(), release_id@),
            },
    {
        match self.position(release_id) {
            Some(i) => Some(&self.releases[i]),
            None => None,
        }
    }

    /// A project's releases in creation order, skipping the first `offset`
    /// and keeping at most `limit`.
    pub fn list_by_project(&self, project: &ProjectKey, limit: usize, offset: usize) -> (r: Vec<PromptReleaseRecord>)
        ensures
            r@ == page(self.releases().filter(|x: PromptReleaseRecord| x.project@ == project@), limit, offset),
    {
        let ghost f = |x: PromptReleaseRecord| x.project@ == project@;
        let mut all: Vec<PromptReleaseRecord> = Vec::new();
        let mut i: usize = 0;
        while i < self.releases.len()
            invariant
                i <= self.releases@.len(),
                f == (|x: PromptReleaseRecord| x.project@ == project@),
                all@ == self.releases@.take(i as int).filter(f),
            decreases self.releases@.len() - i,
        {
            proof {
                assert(self.releases@.take(i + 1) =~= self.releases@.take(i as int).push(self.releases@[i as int]));
                self.releases@.take(i as int).lemma_filter_push(self.releases@[i as int], f);
            }
            if self.releases[i].project.same(project) {
                all.push(self.releases[i].duplicate());
            }
            i = i + 1;
        }
        assert(self.releases@.take(self.releases@.len() as int) =~= self.releases@);
        let start = if offset < all.len() { offset } else { all.len() };
        let end = if limit < all.len() - start { start + limit } else { all.len() };
        let mut out: Vec<PromptReleaseRecord> = Vec::new();
        let mut j: usize = start;
        while j < end
            invariant
                start <= j <= end <= all@.len(),
                out@ == all@.subrange(start as int, j as int),
            decreases end - j,
        {
            out.push(all[j].duplicate());
            assert(out@ =~= all@.subrange(start as int, j + 1));
            j = j + 1;
        }
        out
    }
}

} // verus!
