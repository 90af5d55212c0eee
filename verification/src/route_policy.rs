//! Route policies: created enabled under an existing tenant, stored by id,
//! and read back by id. A policy's rules are held in their serialized form.
use vstd::prelude::*;
use crate::clock::now_ms;
use crate::runtime_error::{fails_not_found, not_found, RuntimeError};
use crate::text::{concat3, decimal, decimal_string, str_eq};

verus! {

/// A routing policy of a tenant.
#[derive(Debug)]
pub struct RoutePolicy {
    pub policy_id: String,
    pub tenant_id: String,
    pub name: String,
    pub rules_json: String,
    pub enabled: bool,
}

impl RoutePolicy {
    /// A field-by-field copy.
    pub fn duplicate(&self) -> (r: Self)
        ensures
            r == *self,
    {
        RoutePolicy {
            policy_id: self.policy_id.clone(),
            tenant_id: self.tenant_id.clone(),
            name: self.name.clone(),
            rules_json: self.rules_json.clone(),
            enabled: self.enabled,
        }
    }
}

/// The id a policy created at `now` gets.
pub open spec fn policy_id_at(now: u64) -> Seq<char> {
    "route_policy_"@ + decimal(now as nat)
}

/// The index of the policy with an id, if any.
pub open spec fn policy_index(s: Seq<RoutePolicy>, policy_id: Seq<char>) -> Option<int> {
    if exists|i: int| 0 <= i < s.len() && #[trigger] s[i].policy_id@ == policy_id {
        Some(choose|i: int| 0 <= i < s.len() && #[trigger] s[i].policy_id@ == policy_id)
    } else {
        None
    }
}

/// The store after a policy is put: it replaces the one with its id, or is
/// appended.
pub open spec fn put_policy(s: Seq<RoutePolicy>, p: RoutePolicy) -> Seq<RoutePolicy> {
    match policy_index(s, p.policy_id@) {
        Some(i) => s.update(i, p),
        None => s.push(p),
    }
}

/// Route policies, keyed by id.
pub struct RoutePolicyServiceImpl {
    policies: Vec<RoutePolicy>,
}

impl RoutePolicyServiceImpl {
    pub closed spec fn policies(&self) -> Seq<RoutePolicy> {
        self.policies@
    }

    /// No two policies share an id.
    pub closed spec fn wf(&self) -> bool {
        forall|a: int, b: int|
            0 <= a < self.policies@.len() && 0 <= b < self.policies@.len() && a != b
                ==> #[trigger] self.policies@[a].policy_id@ != #[trigger] self.policies@[b].policy_id@
    }

    pub fn new() -> (r: Self)
        ensures
            r.wf(),
            r.policies() == Seq::<RoutePolicy>::empty(),
    {
        RoutePolicyServiceImpl { policies: Vec::new() }
    }

    fn position(&self, policy_id: &str) -> (r: Option<usize>)
        requires
            self.wf(),
        ensures
            match r {
                Some(i) => policy_index(self.policies@, policy_id@) == Some(i as int),
                None => policy_index(self.policies@, policy_id@) is None,
            },
    {
        let mut i: usize = 0;
        while i < self.policies.len()
            invariant
                self.wf(),
                i <= self.policies@.len(),
                forall|j: int| 0 <= j < i ==> #[trigger] self.policies@[j].policy_id@ != policy_id@,
            decreases self.policies@.len() - i,
        {
            if str_eq(self.policies[i].policy_id.as_str(), policy_id) {
                proof {
                    let s = self.policies@;
                    assert(exists|k: int| 0 <= k < s.len() && #[trigger] s[k].policy_id@ == policy_id@);
                    let c = choose|k: int| 0 <= k < s.len() && #[trigger] s[k].policy_id@ == policy_id@;
                    if c != i {
                        assert(s[c].policy_id@ != s[i as int].policy_id@);
                    }
                }
                return Some(i);
            }
            i = i + 1;
        }
        None
    }

    /// Creates an enabled policy at `now` under a tenant; refused with
    /// `NotFound` when the tenant does not exist. Its id is
    /// `route_policy_<now>`, and it replaces a policy stored under that id.
    pub fn create_at(&mut self, tenant_exists: bool, tenant_id: &str, name: String, rules_json: String, now: u64) -> (r: Result<RoutePolicy, RuntimeError>)
        requires
            old(self).wf(),
        ensures
            final(self).wf(),
            !tenant_exists ==> fails_not_found(r, "tenant"@, tenant_id@) && final(self).policies() == old(self).policies(),
            tenant_exists ==> (r matches Ok(p) && p.policy_id@ == policy_id_at(now) && p.tenant_id@ == tenant_id@
                && p.name == name && p.rules_json == rules_json && p.enabled
                && final(self).policies() == put_policy(old(self).policies(), p)),
    {
        if !tenant_exists {
            return Err(not_found("tenant", tenant_id));
        }
        let id = concat3("route_policy_", decimal_string(now).as_str(), "");
        proof {
            reveal_strlit("");
            assert(id@ =~= policy_id_at(now));
        }
        let policy = RoutePolicy { policy_id: id, tenant_id: tenant_id.to_owned(), name, rules_json, enabled: true };
        let out = policy.duplicate();
        let ghost s0 = self.policies@;
        match self.position(policy.policy_id.as_str()) {
            Some(i) => {
                self.policies.set(i, policy);
                proof {
                    let s = self.policies@;
                    assert forall|a: int, b: int| 0 <= a < s.len() && 0 <= b < s.len() && a != b implies #[trigger] s[a].policy_id@
                        != #[trigger] s[b].policy_id@ by {
                        if a != i && b != i {
                            assert(s0[a].policy_id@ != s0[b].policy_id@);
                        } else if a == i {
                            assert(s0[i as int].policy_id@ != s0[b].policy_id@);
                        } else {
                            assert(s0[a].policy_id@ != s0[i as int].policy_id@);
                        }
                    }
                    assert(s =~= put_policy(s0, out));
                }
            },
            None => {
                self.policies.push(policy);
                proof {
                    let s = self.policies@;
                    assert forall|a: int, b: int| 0 <= a < s.len() && 0 <= b < s.len() && a != b implies #[trigger] s[a].policy_id@
                        != #[trigger] s[b].policy_id@ by {
                        if a < s0.len() && b < s0.len() {
                            assert(s0[a].policy_id@ != s0[b].policy_id@);
                        } else if a < s0.len() {
                            assert(s[a] == s0[a]);
                            assert(!(s0[a].policy_id@ == out.policy_id@));
                        } else {
                            assert(s[b] == s0[b]);
                            assert(!(s0[b].policy_id@ == out.policy_id@));
                        }
                    }
                    assert(s =~= put_policy(s0, out));
                }
            },
        }
        Ok(out)
    }

    /// Creates an enabled policy under a tenant, stamped with the current
    /// time; what [`RoutePolicyServiceImpl::create_at`] states holds for the
    /// time the clock gave.
    pub fn create(&mut self, tenant_exists: bool, tenant_id: &str, name: String, rules_json: String) -> (r: Result<RoutePolicy, RuntimeError>)
        requires
            old(self).wf(),
        ensures
            final(self).wf(),
            !tenant_exists ==> fails_not_found(r, "tenant"@, tenant_id@) && final(self).policies() == old(self).policies(),
            tenant_exists ==> (r matches Ok(p) && (exists|t: u64| #[trigger] policy_id_at(t) == p.policy_id@)
                && p.tenant_id@ == tenant_id@ && p.name == name && p.rules_json == rules_json && p.enabled
                && final(self).policies() == put_policy(old(self).policies(), p)),
    {
        let now = now_ms();
        let r = self.create_at(tenant_exists, tenant_id, name, rules_json, now);
        proof {
            if tenant_exists {
                assert(policy_id_at(now) == r->Ok_0.policy_id@);
            }
        }
        r
    }

    /// The policy with an id.
    pub fn get(&self, policy_id: &str) -> (r: Option<RoutePolicy>)
        requires
            self.wf(),
        ensures
            match policy_index(self.policies(), policy_id@) {
                Some(i) => r == Some(self.policies()[i]),
                None => r is None,
            },
    {
        match self.position(policy_id) {
            Some(i) => Some(self.policies[i].duplicate()),
            None => None,
        }
    }
}

} // verus!
