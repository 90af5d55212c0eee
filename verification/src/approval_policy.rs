//! Approval policies: how many approvers a gated change needs, and the
//! prompt releases each policy is attached to.
use vstd::prelude::*;
use crate::alist::TextMap;
use crate::domain::clone_strings;
use crate::runtime_error::{fails_not_found, not_found, RuntimeError};
use crate::text::{concat3, contains_string, decimal, decimal_string, string_views};

verus! {

/// A workspace role allowed to approve.
#[derive(Debug, Clone, Copy, PartialEq, Eq, Structural)]
pub enum WorkspaceRole {
    Owner,
    Admin,
    Member,
    Viewer,
}

/// An approval policy.
#[derive(Debug)]
pub struct ApprovalPolicyRecord {
    pub policy_id: String,
    pub tenant_id: String,
    pub name: String,
    pub required_approvers: u32,
    pub allowed_approver_roles: Vec<WorkspaceRole>,
    pub auto_approve_after_ms: Option<u64>,
    pub auto_reject_after_ms: Option<u64>,
    /// The releases the policy is attached to, each once, in attach order.
    pub attached_release_ids: Vec<String>,
}

fn copy_roles(v: &Vec<WorkspaceRole>) -> (r: Vec<WorkspaceRole>)
    ensures
        r@ == v@,
{
    let mut out: Vec<WorkspaceRole> = Vec::new();
    let mut i: usize = 0;
    while i < v.len()
        invariant
            i <= v@.len(),
            out@ == v@.take(i as int),
        decreases v@.len() - i,
    {
        out.push(v[i]);
        assert(out@ =~= v@.take(i + 1));
        i = i + 1;
    }
    assert(v@.take(v@.len() as int) =~= v@);
    out
}

impl ApprovalPolicyRecord {
    pub fn duplicate(&self) -> (r: Self)
        ensures
            r.policy_id == self.policy_id,
            r.tenant_id == self.tenant_id,
            r.name == self.name,
            r.required_approvers == self.required_approvers,
            r.allowed_approver_roles@ == self.allowed_approver_roles@,
            r.auto_approve_after_ms == self.auto_approve_after_ms,
            r.auto_reject_after_ms == self.auto_reject_after_ms,
            r.attached_release_ids@ == self.attached_release_ids@,
    {
        let ids = clone_strings(&self.attached_release_ids);
        assert(ids@ =~= self.attached_release_ids@);
        ApprovalPolicyRecord {
            policy_id: self.policy_id.clone(),
            tenant_id: self.tenant_id.clone(),
            name: self.name.clone(),
            required_approvers: self.required_approvers,
            allowed_approver_roles: copy_roles(&self.allowed_approver_roles),
            auto_approve_after_ms: self.auto_approve_after_ms,
            auto_reject_after_ms: self.auto_reject_after_ms,
            attached_release_ids: ids,
        }
    }
}

/// A policy as plain values.
pub type PolicyView = (Seq<char>, Seq<char>, Seq<char>, u32, Seq<WorkspaceRole>, Option<u64>, Option<u64>, Seq<Seq<char>>);

pub open spec fn policy_view(p: ApprovalPolicyRecord) -> PolicyView {
    (
        p.policy_id@,
        p.tenant_id@,
        p.name@,
        p.required_approvers,
        p.allowed_approver_roles@,
        p.auto_approve_after_ms,
        p.auto_reject_after_ms,
        string_views(p.attached_release_ids@),
    )
}

/// The id of the `n`-th policy a service creates.
pub open spec fn policy_id_spec(n: nat) -> Seq<char> {
    "approval_policy_"@ + decimal(n)
}

/// Approval policies by id, in creation order.
pub struct ApprovalPolicyServiceImpl {
    policies: TextMap<ApprovalPolicyRecord>,
    next_policy: u64,
}

impl ApprovalPolicyServiceImpl {
    pub closed spec fn policies(&self) -> Map<Seq<char>, PolicyView> {
        self.policies@.map_values(|p: ApprovalPolicyRecord| policy_view(p))
    }

    /// The number the next policy id will carry.
    pub closed spec fn counter(&self) -> u64 {
        self.next_policy
    }

    pub closed spec fn wf(&self) -> bool {
        &&& self.policies.wf()
        &&& forall|k: Seq<char>| #[trigger] self.policies@.contains_key(k) ==> self.policies@[k].policy_id@ == k
            && string_views(self.policies@[k].attached_release_ids@).no_duplicates()
    }

    pub fn new() -> (r: Self)
        ensures
            r.wf(),
            r.policies() == Map::<Seq<char>, PolicyView>::empty(),
            r.counter() == 1,
    {
        let r = ApprovalPolicyServiceImpl { policies: TextMap::new(), next_policy: 1 };
        assert(r.policies() =~= Map::<Seq<char>, PolicyView>::empty());
        r
    }

    /// Creates a policy, attached to nothing; its id is
    /// `approval_policy_<n>` for the counter's value. A policy with that id
    /// is replaced.
    pub fn create(
        &mut self,
        tenant_id: &str,
        name: String,
        required_approvers: u32,
        allowed_approver_roles: Vec<WorkspaceRole>,
        auto_approve_after_ms: Option<u64>,
        auto_reject_after_ms: Option<u64>,
    ) -> (r: ApprovalPolicyRecord)
        requires
            old(self).wf(),
            old(self).counter() < u64::MAX,
        ensures
            final(self).wf(),
            final(self).counter() == old(self).counter() + 1,
            policy_view(r) == (
                policy_id_spec(old(self).counter() as nat),
                tenant_id@,
                name@,
                required_approvers,
                allowed_approver_roles@,
                auto_approve_after_ms,
                auto_reject_after_ms,
                Seq::<Seq<char>>::empty(),
            ),
            final(self).policies() == old(self).policies().insert(r.policy_id@, policy_view(r)),
    {
        let digits = decimal_string(self.next_policy);
        let id = concat3("approval_policy_", digits.as_str(), "");
        proof {
            reveal_strlit("");
            assert(id@ =~= policy_id_spec(old(self).counter() as nat));
        }
        self.next_policy = self.next_policy + 1;
        let rec = ApprovalPolicyRecord {
            policy_id: id.clone(),
            tenant_id: tenant_id.to_owned(),
            name,
            required_approvers,
            allowed_approver_roles,
            auto_approve_after_ms,
            auto_reject_after_ms,
            attached_release_ids: Vec::new(),
        };
        let out = rec.duplicate();
        proof {
            assert(string_views(rec.attached_release_ids@) =~= Seq::<Seq<char>>::empty());
        }
        self.policies.insert(id, rec);
        proof {
            assert(self.policies() =~= old(self).policies().insert(out.policy_id@, policy_view(out)));
        }
        out
    }

    /// A policy, if it exists.
    pub fn get(&self, policy_id: &str) -> (r: Option<ApprovalPolicyRecord>)
        requires
            self.wf(),
        ensures
            match r {
                Some(p) => self.policies().contains_key(policy_id@) && policy_view(p) == self.policies()[policy_id@],
                None => !self.policies().contains_key(policy_id@),
            },
    {
        match self.policies.get(&policy_id.to_owned()) {
            Some(p) => Some(p.duplicate()),
            None => None,
        }
    }

    /// Attaches a policy to a release; attaching it twice changes nothing.
    /// Refused with `NotFound` for an unknown policy.
    pub fn attach_to_release(&mut self, policy_id: &str, release_id: &str) -> (r: Result<ApprovalPolicyRecord, RuntimeError>)
        requires
            old(self).wf(),
        ensures
            final(self).wf(),
            final(self).counter() == old(self).counter(),
            !old(self).policies().contains_key(policy_id@) ==> fails_not_found(r, "approval_policy"@, policy_id@)
                && final(self).policies() == old(self).policies(),
            old(self).policies().contains_key(policy_id@) ==> (r matches Ok(p) && ({
                let before = old(self).policies()[policy_id@];
                let attached = if before.7.contains(release_id@) { before.7 } else { before.7.push(release_id@) };
                &&& policy_view(p) == (before.0, before.1, before.2, before.3, before.4, before.5, before.6, attached)
                &&& final(self).policies() == old(self).policies().insert(policy_id@, policy_view(p))
            })),
    {
        let key = policy_id.to_owned();
        let i = match self.policies.index_of(&key) {
            Some(i) => i,
            None => return Err(not_found("approval_policy", policy_id)),
        };
        proof {
            assert(self.policies()[policy_id@] == policy_view(self.policies@[policy_id@]));
        }
        let (k, mut rec) = self.policies.take_at(i);
        proof {
            assert(rec == old(self).policies@[policy_id@]);
            assert(old(self).policies@.contains_key(policy_id@));
        }
        let rid = release_id.to_owned();
        if !contains_string(&rec.attached_release_ids, &rid) {
            let ghost before = string_views(rec.attached_release_ids@);
            rec.attached_release_ids.push(rid);
            proof {
                assert(string_views(rec.attached_release_ids@) =~= before.push(release_id@));
                assert forall|a: int, b: int| 0 <= a < string_views(rec.attached_release_ids@).len() && 0 <= b < string_views(rec.attached_release_ids@).len() && a != b
                    implies string_views(rec.attached_release_ids@)[a] != string_views(rec.attached_release_ids@)[b] by {
                    if a < before.len() && b < before.len() {
                        assert(before[a] == string_views(rec.attached_release_ids@)[a]);
                        assert(before[b] == string_views(rec.attached_release_ids@)[b]);
                    } else if a < before.len() {
                        assert(before[a] == string_views(rec.attached_release_ids@)[a]);
                    } else {
                        assert(before[b] == string_views(rec.attached_release_ids@)[b]);
                    }
                }
            }
        }
        let out = rec.duplicate();
        self.policies.put_at(i, k, rec);
        proof {
            assert forall|q: Seq<char>| #[trigger] self.policies@.contains_key(q) implies self.policies@[q].policy_id@ == q
                && string_views(self.policies@[q].attached_release_ids@).no_duplicates() by {
                if q != policy_id@ {
                    assert(old(self).policies@.contains_key(q));
                }
            }
            assert(self.policies() =~= old(self).policies().insert(policy_id@, policy_view(out)));
        }
        Ok(out)
    }
}

/// Attaching a policy to a release a second time leaves the policy as the
/// first attachment left it.
pub proof fn law_attach_is_idempotent(v: PolicyView, release_id: Seq<char>)
    ensures
        ({
            let once = if v.7.contains(release_id) { v.7 } else { v.7.push(release_id) };
            let twice = if once.contains(release_id) { once } else { once.push(release_id) };
            twice == once
        }),
{
    let once = if v.7.contains(release_id) { v.7 } else { v.7.push(release_id) };
    if !v.7.contains(release_id) {
        assert(once[once.len() - 1] == release_id);
    }
}

} // verus!
