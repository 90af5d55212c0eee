//! Activation of prompt releases: the approval gate in front of it, and the
//! supersession of the asset's other active releases.
//!
//! A release becomes active only from the approved state. When an approval
//! policy is attached to it, its linked approval must also have been
//! granted. Activating it moves every other active release of the same
//! asset back to approved, so that an asset has one active release.
use vstd::prelude::*;
use crate::alist::TextMap;
use crate::text::{chars_eq, chars_of, concat3};

verus! {

/// Why an activation is refused.
#[derive(Debug)]
pub enum ActivationError {
    /// The release is not in the approved state.
    InvalidTransition { from: String, to: String },
    /// The attached approval policy does not allow it (yet).
    PolicyDenied { reason: String },
    /// The linked approval record could not be read.
    ApprovalMissing,
}

/// The decision recorded on an approval.
#[derive(Debug, Clone, Copy, PartialEq, Eq, Structural)]
pub enum ApprovalStatus {
    Approved,
    Rejected,
    Pending,
}

/// Policy attachments and approval links of prompt releases.
pub struct ReleaseGate {
    policy_attachments: TextMap<String>,
    approval_links: TextMap<String>,
}

/// The id of the approval requested for a release.
pub open spec fn approval_id_for(release_id: Seq<char>) -> Seq<char> {
    "apr_rel_"@ + release_id
}

/// The title of the approval requested for a release.
pub open spec fn approval_title(release_id: Seq<char>) -> Seq<char> {
    "Approve prompt release: "@ + release_id
}

/// The description of the approval requested for a release.
pub open spec fn approval_description(release_id: Seq<char>) -> Seq<char> {
    "Prompt release `"@ + release_id + "` requires operator approval before activation."@
}

/// The reason given when a gated release has no approval yet.
pub open spec fn approval_needed_reason(release_id: Seq<char>) -> Seq<char> {
    "release "@ + release_id + " requires approval before activation — call request_approval first"@
}

/// Outcome of an activation request: `Ok` when it may go ahead.
pub open spec fn activation_outcome(
    state: Seq<char>,
    policy_attached: bool,
    linked: bool,
    approval: Option<ApprovalStatus>,
    release_id: Seq<char>,
) -> Result<(), (int, Seq<char>)> {
    if state != "approved"@ {
        Err((0, state))
    } else if !policy_attached {
        Ok(())
    } else if !linked {
        Err((1, approval_needed_reason(release_id)))
    } else {
        match approval {
            None => Err((2, Seq::empty())),
            Some(ApprovalStatus::Approved) => Ok(()),
            Some(ApprovalStatus::Rejected) => Err((1, "approval was rejected; create a new release to retry"@)),
            Some(ApprovalStatus::Pending) => Err((1, "approval is pending; wait for resolution before activating"@)),
        }
    }
}

/// An activation error as plain values: the kind (0 invalid transition with
/// its from-state, 1 policy denial with its reason, 2 missing approval) and
/// its text.
pub open spec fn error_view(e: ActivationError) -> (int, Seq<char>) {
    match e {
        ActivationError::InvalidTransition { from, .. } => (0, from@),
        ActivationError::PolicyDenied { reason } => (1, reason@),
        ActivationError::ApprovalMissing => (2, Seq::empty()),
    }
}
impl ReleaseGate {
    /// Release id to attached policy id.
    pub closed spec fn policies(&self) -> Map<Seq<char>, Seq<char>> {
        self.policy_attachments@.map_values(|s: String| s@)
    }

    /// Release id to requested approval id.
    pub closed spec fn links(&self) -> Map<Seq<char>, Seq<char>> {
        self.approval_links@.map_values(|s: String| s@)
    }

    pub closed spec fn wf(&self) -> bool {
        self.policy_attachments.wf() && self.approval_links.wf()
    }

    pub fn new() -> (r: Self)
        ensures
            r.wf(),
            r.policies() == Map::<Seq<char>, Seq<char>>::empty(),
            r.links() == Map::<Seq<char>, Seq<char>>::empty(),
    {
        let r = ReleaseGate { policy_attachments: TextMap::new(), approval_links: TextMap::new() };
        assert(r.policies() =~= Map::<Seq<char>, Seq<char>>::empty());
        assert(r.links() =~= Map::<Seq<char>, Seq<char>>::empty());
        r
    }

    /// Attaches an approval policy to an existing release.
    pub fn attach_policy(&mut self, release_id: &String, policy_id: &str)
        requires
            old(self).wf(),
        ensures
            final(self).wf(),
            final(self).policies() == old(self).policies().insert(release_id@, policy_id@),
            final(self).links() == old(self).links(),
    {
        let p = policy_id.to_owned();
        let ghost pv = p@;
        self.policy_attachments.insert(release_id.clone(), p);
        assert(self.policies() =~= old(self).policies().insert(release_id@, pv));
    }

    /// Links a release to the approval requested for it, and returns that
    /// approval's id, title and description.
    pub fn request_approval(&mut self, release_id: &String) -> (r: (String, String, String))
        requires
            old(self).wf(),
        ensures
            final(self).wf(),
            final(self).links() == old(self).links().insert(release_id@, approval_id_for(release_id@)),
            final(self).policies() == old(self).policies(),
            r.0@ == approval_id_for(release_id@),
            r.1@ == approval_title(release_id@),
            r.2@ == approval_description(release_id@),
    {
        let id = concat3("apr_rel_", release_id.as_str(), "");
        let title = concat3("Approve prompt release: ", release_id.as_str(), "");
        let desc = concat3("Prompt release `", release_id.as_str(), "` requires operator approval before activation.");
        proof {
            reveal_strlit("");
            assert(id@ =~= approval_id_for(release_id@));
            assert(title@ =~= approval_title(release_id@));
        }
        let link = id.clone();
        self.approval_links.insert(release_id.clone(), link);
        assert(self.links() =~= old(self).links().insert(release_id@, approval_id_for(release_id@)));
        (id, title, desc)
    }

    /// The approval linked to a release, whose decision an activation reads.
    pub fn linked_approval(&self, release_id: &String) -> (r: Option<&String>)
        requires
            self.wf(),
        ensures
            match r {
                Some(a) => self.links().contains_key(release_id@) && a@ == self.links()[release_id@],
                None => !self.links().contains_key(release_id@),
            },
    {
        self.approval_links.get(release_id)
    }

    /// Whether a release in `state` may be activated, given the decision of
    /// its linked approval as read from the store (`None` when that record
    /// is missing; only read when the release is gated and linked).
    pub fn check_activation(&self, release_id: &String, state: &str, approval: Option<ApprovalStatus>) -> (r: Result<(), ActivationError>)
        requires
            self.wf(),
        ensures
            match r {
                Ok(()) => activation_outcome(state@, self.policies().contains_key(release_id@),
                    self.links().contains_key(release_id@), approval, release_id@) is Ok,
                Err(e) => activation_outcome(state@, self.policies().contains_key(release_id@),
                    self.links().contains_key(release_id@), approval, release_id@) == Err::<(), (int, Seq<char>)>(error_view(e)),
            },
            r matches Err(ActivationError::InvalidTransition { to, .. }) ==> to@ == "active"@,
    {
        let sc = chars_of(state);
        let approved = chars_of("approved");
        if !chars_eq(sc.as_slice(), approved.as_slice()) {
            return Err(ActivationError::InvalidTransition { from: state.to_owned(), to: "active".to_owned() });
        }
        if !self.policy_attachments.contains_key(release_id) {
            return Ok(());
        }
        if !self.approval_links.contains_key(release_id) {
            let reason = concat3("release ", release_id.as_str(), " requires approval before activation — call request_approval first");
            return Err(ActivationError::PolicyDenied { reason });
        }
        match approval {
            None => Err(ActivationError::ApprovalMissing),
            Some(ApprovalStatus::Approved) => Ok(()),
            Some(ApprovalStatus::Rejected) => Err(ActivationError::PolicyDenied {
                reason: "approval was rejected; create a new release to retry".to_owned(),
            }),
            Some(ApprovalStatus::Pending) => Err(ActivationError::PolicyDenied {
                reason: "approval is pending; wait for resolution before activating".to_owned(),
            }),
        }
    }
}

/// A release of the project, as activation reads it.
#[derive(Debug)]
pub struct ReleaseInfo {
    pub prompt_release_id: String,
    pub prompt_asset_id: String,
    pub state: String,
}

/// Whether activating `target` (of asset `asset`) supersedes release `r`.
pub open spec fn superseded_by(r: ReleaseInfo, asset: Seq<char>, target: Seq<char>) -> bool {
    r.prompt_asset_id@ == asset && r.state@ == "active"@ && r.prompt_release_id@ != target
}

/// The ids of the releases that activating `target` moves back to approved, in order.
pub open spec fn superseded(all: Seq<ReleaseInfo>, asset: Seq<char>, target: Seq<char>) -> Seq<Seq<char>>
    decreases all.len(),
{
    if all.len() == 0 {
        Seq::empty()
    } else {
        let rest = superseded(all.drop_last(), asset, target);
        if superseded_by(all.last(), asset, target) {
            rest.push(all.last().prompt_release_id@)
        } else {
            rest
        }
    }
}

/// The releases that activating `target` moves back to approved.
pub fn supersede(all: &Vec<ReleaseInfo>, asset: &String, target: &String) -> (r: Vec<String>)
    ensures
        r@.map_values(|s: String| s@) == superseded(all@, asset@, target@),
{
    let active = chars_of("active");
    let mut out: Vec<String> = Vec::new();
    let mut i: usize = 0;
    while i < all.len()
        invariant
            i <= all@.len(),
            active@ == "active"@,
            out@.map_values(|s: String| s@) == superseded(all@.take(i as int), asset@, target@),
        decreases all@.len() - i,
    {
        proof {
            assert(all@.take(i + 1).drop_last() =~= all@.take(i as int));
            assert(all@.take(i + 1).last() == all@[i as int]);
        }
        let r = &all[i];
        let st = chars_of(r.state.as_str());
        if r.prompt_asset_id == *asset && chars_eq(st.as_slice(), active.as_slice()) && r.prompt_release_id != *target {
            let ghost before = out@;
            out.push(r.prompt_release_id.clone());
            assert(out@.map_values(|s: String| s@) =~= before.map_values(|s: String| s@).push(r.prompt_release_id@));
        }
        i = i + 1;
    }
    assert(all@.take(all@.len() as int) =~= all@);
    out
}

/// The state of release `r` after `target` of `asset` is activated.
pub open spec fn state_after_activation(r: ReleaseInfo, asset: Seq<char>, target: Seq<char>) -> Seq<char> {
    if r.prompt_release_id@ == target {
        "active"@
    } else if superseded_by(r, asset, target) {
        "approved"@
    } else {
        r.state@
    }
}

proof fn lemma_superseded_contains(all: Seq<ReleaseInfo>, asset: Seq<char>, target: Seq<char>, i: int)
    requires
        0 <= i < all.len(),
        superseded_by(all[i], asset, target),
    ensures
        superseded(all, asset, target).contains(all[i].prompt_release_id@),
    decreases all.len(),
{
    let rest = superseded(all.drop_last(), asset, target);
    if i == all.len() - 1 {
        assert(superseded(all, asset, target).last() == all[i].prompt_release_id@);
    } else {
        lemma_superseded_contains(all.drop_last(), asset, target, i);
        let k = choose|k: int| 0 <= k < rest.len() && rest[k] == all[i].prompt_release_id@;
        assert(superseded(all, asset, target)[k] == rest[k]);
    }
}

/// After an activation, the target is the only active release of its asset:
/// every other release of the asset that was active is among those moved
/// back to approved.
pub proof fn law_one_active_release_per_asset(all: Seq<ReleaseInfo>, asset: Seq<char>, target: Seq<char>, i: int)
    requires
        0 <= i < all.len(),
        all[i].prompt_asset_id@ == asset,
        state_after_activation(all[i], asset, target) == "active"@,
    ensures
        all[i].prompt_release_id@ == target,
{
    if all[i].prompt_release_id@ != target {
        assert(!superseded_by(all[i], asset, target)) by {
            if superseded_by(all[i], asset, target) {
                assert("approved"@ != "active"@) by {
                    reveal_strlit("approved");
                    reveal_strlit("active");
                    assert("approved"@[1] != "active"@[1]);
                }
            }
        }
        assert(all[i].state@ != "active"@);
    }
}

/// Every release the activation supersedes was an active release of the
/// same asset other than the target.
pub proof fn law_superseded_are_active_siblings(all: Seq<ReleaseInfo>, asset: Seq<char>, target: Seq<char>, i: int)
    requires
        0 <= i < all.len(),
        superseded_by(all[i], asset, target),
    ensures
        superseded(all, asset, target).contains(all[i].prompt_release_id@),
{
    lemma_superseded_contains(all, asset, target, i);
}

} // verus!
