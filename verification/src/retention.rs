//! Retention policies per tenant: how long event history is kept.
use vstd::prelude::*;
use crate::clock::{at_time, now_ms};
use crate::runtime_error::{fails_not_found, not_found, RuntimeError};
use crate::text::{concat3, decimal, decimal_string};

verus! {

/// How long a tenant's event history is kept.
#[derive(Debug)]
pub struct RetentionPolicy {
    pub tenant_id: String,
    pub policy_id: String,
    pub full_history_days: u32,
    pub current_state_days: u32,
    pub max_events_per_entity: Option<u64>,
}

impl RetentionPolicy {
    pub fn duplicate(&self) -> (r: Self)
        ensures
            r == *self,
    {
        RetentionPolicy {
            tenant_id: self.tenant_id.clone(),
            policy_id: self.policy_id.clone(),
            full_history_days: self.full_history_days,
            current_state_days: self.current_state_days,
            max_events_per_entity: self.max_events_per_entity,
        }
    }
}

/// What applying retention removed.
#[derive(Debug, Clone, Copy, PartialEq, Eq, Structural)]
pub struct RetentionResult {
    pub events_pruned: u64,
    pub entities_affected: u64,
}

/// What applying retention to a tenant comes to: nothing for a tenant
/// without a policy, otherwise pruning under its policy.
#[derive(Debug)]
pub enum RetentionAction {
    Nothing(RetentionResult),
    Prune(RetentionPolicy),
}

/// The id of a policy set at time `now`.
pub open spec fn policy_id_spec(now: u64) -> Seq<char> {
    "retention_policy_"@ + decimal(now as nat)
}

/// Retention policies, at most one per tenant.
pub struct RetentionServiceImpl {
    policies: Vec<RetentionPolicy>,
}

impl RetentionServiceImpl {
    pub closed spec fn policies(&self) -> Seq<RetentionPolicy> {
        self.policies@
    }

    /// The position of a tenant's policy.
    pub open spec fn policy_at(ps: Seq<RetentionPolicy>, tenant_id: Seq<char>) -> Option<int> {
        if exists|i: int| 0 <= i < ps.len() && ps[i].tenant_id@ == tenant_id {
            Some(choose|i: int| 0 <= i < ps.len() && ps[i].tenant_id@ == tenant_id)
        } else {
            None
        }
    }

    pub closed spec fn wf(&self) -> bool {
        forall|a: int, b: int|
            0 <= a < self.policies@.len() && 0 <= b < self.policies@.len() && a != b
                ==> (#[trigger] self.policies@[a]).tenant_id@ != (#[trigger] self.policies@[b]).tenant_id@
    }

    pub fn new() -> (r: Self)
        ensures
            r.wf(),
            r.policies() == Seq::<RetentionPolicy>::empty(),
    {
        RetentionServiceImpl { policies: Vec::new() }
    }

    fn position(&self, tenant_id: &str) -> (r: Option<usize>)
        requires
            self.wf(),
        ensures
            r matches Some(i) ==> i < self.policies().len() && Self::policy_at(self.policies(), tenant_id@) == Some(i as int),
            r is None ==> Self::policy_at(self.policies(), tenant_id@) is None,
    {
        let t = tenant_id.to_owned();
        let mut i: usize = 0;
        while i < self.policies.len()
            invariant
                i <= self.policies@.len(),
                self.wf(),
                t@ == tenant_id@,
                forall|j: int| 0 <= j < i ==> (#[trigger] self.policies@[j]).tenant_id@ != tenant_id@,
            decreases self.policies@.len() - i,
        {
            if self.policies[i].tenant_id == t {
                proof {
                    let c = choose|c: int| 0 <= c < self.policies@.len() && self.policies@[c].tenant_id@ == tenant_id@;
                    if c != i {
                        assert(self.policies@[c].tenant_id@ != self.policies@[i as int].tenant_id@);
                    }
                }
                return Some(i);
            }
            i = i + 1;
        }
        None
    }

    /// Sets a tenant's policy, replacing any earlier one; its id is
    /// `retention_policy_<now>`. Refused with `NotFound` when the tenant
    /// does not exist.
    pub fn set_policy_at(
        &mut self,
        tenant_exists: bool,
        tenant_id: &str,
        full_history_days: u32,
        current_state_days: u32,
        max_events_per_entity: u32,
        now: u64,
    ) -> (r: Result<RetentionPolicy, RuntimeError>)
        requires
            old(self).wf(),
        ensures
            final(self).wf(),
            !tenant_exists ==> fails_not_found(r, "tenant"@, tenant_id@) && final(self).policies() == old(self).policies(),
            tenant_exists ==> (r matches Ok(p) && ({
                &&& p.tenant_id@ == tenant_id@
                &&& p.policy_id@ == policy_id_spec(now)
                &&& p.full_history_days == full_history_days
                &&& p.current_state_days == current_state_days
                &&& p.max_events_per_entity == Some(max_events_per_entity as u64)
                &&& match Self::policy_at(old(self).policies(), tenant_id@) {
                    Some(i) => final(self).policies() == old(self).policies().update(i, p),
                    None => final(self).policies() == old(self).policies().push(p),
                }
            })),
    {
        if !tenant_exists {
            return Err(not_found("tenant", tenant_id));
        }
        let digits = decimal_string(now);
        let id = concat3("retention_policy_", digits.as_str(), "");
        proof {
            reveal_strlit("");
            assert(id@ =~= policy_id_spec(now));
        }
        let p = RetentionPolicy {
            tenant_id: tenant_id.to_owned(),
            policy_id: id,
            full_history_days,
            current_state_days,
            max_events_per_entity: Some(max_events_per_entity as u64),
        };
        let out = p.duplicate();
        let ghost p0 = self.policies@;
        match self.position(tenant_id) {
            Some(i) => {
                self.policies.set(i, p);
                proof {
                    assert forall|a: int, b: int| 0 <= a < self.policies@.len() && 0 <= b < self.policies@.len() && a != b
                        implies (#[trigger] self.policies@[a]).tenant_id@ != (#[trigger] self.policies@[b]).tenant_id@ by {
                        assert(p0[a].tenant_id@ != p0[b].tenant_id@);
                    }
                }
            },
            None => {
                self.policies.push(p);
                proof {
                    assert forall|a: int, b: int| 0 <= a < self.policies@.len() && 0 <= b < self.policies@.len() && a != b
                        implies (#[trigger] self.policies@[a]).tenant_id@ != (#[trigger] self.policies@[b]).tenant_id@ by {
                        let n = p0.len() as int;
                        if a < n && b < n {
                            assert(p0[a].tenant_id@ != p0[b].tenant_id@);
                        } else if a < n {
                            assert(!(0 <= a < p0.len() && p0[a].tenant_id@ == tenant_id@));
                        } else {
                            assert(!(0 <= b < p0.len() && p0[b].tenant_id@ == tenant_id@));
                        }
                    }
                }
            },
        }
        Ok(out)
    }

    /// `set_policy_at` with the policy id taken from the clock.
    pub fn set_policy(
        &mut self,
        tenant_exists: bool,
        tenant_id: &str,
        full_history_days: u32,
        current_state_days: u32,
        max_events_per_entity: u32,
    ) -> (r: Result<RetentionPolicy, RuntimeError>)
        requires
            old(self).wf(),
        ensures
            final(self).wf(),
            !tenant_exists ==> fails_not_found(r, "tenant"@, tenant_id@) && final(self).policies() == old(self).policies(),
            tenant_exists ==> (r matches Ok(p) && ({
                &&& p.tenant_id@ == tenant_id@
                &&& p.full_history_days == full_history_days
                &&& p.current_state_days == current_state_days
                &&& p.max_events_per_entity == Some(max_events_per_entity as u64)
                &&& match Self::policy_at(old(self).policies(), tenant_id@) {
                    Some(i) => final(self).policies() == old(self).policies().update(i, p),
                    None => final(self).policies() == old(self).policies().push(p),
                }
            })),
            exists|tm: u64| #[trigger] at_time(tm)
                && (tenant_exists ==> (r matches Ok(p) && ({
                    &&& p.tenant_id@ == tenant_id@
                    &&& p.policy_id@ == policy_id_spec(tm)
                    &&& p.full_history_days == full_history_days
                    &&& p.current_state_days == current_state_days
                    &&& p.max_events_per_entity == Some(max_events_per_entity as u64)
                    &&& match Self::policy_at(old(self).policies(), tenant_id@) {
                        Some(i) => final(self).policies() == old(self).policies().update(i, p),
                        None => final(self).policies() == old(self).policies().push(p),
                    }
                }))),
    {
        let now = now_ms();
        let r = self.set_policy_at(tenant_exists, tenant_id, full_history_days, current_state_days, max_events_per_entity, now);
        assert(at_time(now));
        r
    }

    /// A tenant's policy, if it has one.
    pub fn get_policy(&self, tenant_id: &str) -> (r: Option<RetentionPolicy>)
        requires
            self.wf(),
        ensures
            match Self::policy_at(self.policies(), tenant_id@) {
                Some(i) => r == Some(self.policies()[i]),
                None => r is None,
            },
    {
        match self.position(tenant_id) {
            Some(i) => Some(self.policies[i].duplicate()),
            None => None,
        }
    }

    /// What applying retention to a tenant comes to.
    pub fn apply_retention(&self, tenant_id: &str) -> (r: RetentionAction)
        requires
            self.wf(),
        ensures
            match Self::policy_at(self.policies(), tenant_id@) {
                Some(i) => r == RetentionAction::Prune(self.policies()[i]),
                None => r == RetentionAction::Nothing(RetentionResult { events_pruned: 0, entities_affected: 0 }),
            },
    {
        match self.position(tenant_id) {
            Some(i) => RetentionAction::Prune(self.policies[i].duplicate()),
            None => RetentionAction::Nothing(RetentionResult { events_pruned: 0, entities_affected: 0 }),
        }
    }
}

} // verus!
