//! Guardrail policies: which rule decides whether a subject may perform an
//! action.
//!
//! The first policy (in the tenant's order) that has a rule matching the
//! subject and action decides, by its first matching rule: an allow rule
//! allows, every other effect denies. When no rule matches, the action is
//! allowed implicitly.
use vstd::prelude::*;
use crate::alist::TextMap;
use crate::clock::{at_time, now_ms};
use crate::runtime_error::{fails_not_found, not_found, RuntimeError};
use crate::tenancy::{has_tenant, TenantServiceImpl};
use crate::text::{opt_str_view, push_str, string_from_chars};

verus! {

/// What a rule does when it matches.
#[derive(Debug, Clone, Copy, PartialEq, Eq, Structural)]
pub enum RuleEffect {
    Allow,
    Deny,
    Block,
    Redact,
    Log,
    Alert,
}

/// A guardrail rule: the subject type (by name), optionally one subject,
/// the action, and its effect.
#[derive(Debug)]
pub struct GuardrailRule {
    pub subject_type: String,
    pub subject_id: Option<String>,
    pub action: String,
    pub effect: RuleEffect,
}

/// A guardrail policy of a tenant: its id, its name and its rules, in
/// order.
#[derive(Debug)]
pub struct GuardrailPolicy {
    pub policy_id: String,
    pub tenant_id: String,
    pub name: String,
    pub rules: Vec<GuardrailRule>,
}

/// The verdict of an evaluation.
#[derive(Debug, Clone, Copy, PartialEq, Eq, Structural)]
pub enum DecisionKind {
    Allowed,
    Denied,
}

/// The outcome of an evaluation: the verdict, and the deciding policy and
/// its reason when a rule matched.
#[derive(Debug)]
pub struct GuardrailDecision {
    pub decision: DecisionKind,
    pub policy_id: Option<String>,
    pub reason: Option<String>,
}

/// Whether a rule applies to the subject and action: same subject type and
/// action, and either no subject named or the same subject.
pub open spec fn rule_matches(rule: GuardrailRule, subject_type: Seq<char>, subject_id: Option<Seq<char>>, action: Seq<char>) -> bool {
    &&& rule.subject_type@ == subject_type
    &&& rule.action@ == action
    &&& match rule.subject_id {
        None => true,
        Some(r) => subject_id == Some(r@),
    }
}

/// Whether some rule of a policy applies.
pub open spec fn policy_applies(p: GuardrailPolicy, subject_type: Seq<char>, subject_id: Option<Seq<char>>, action: Seq<char>) -> bool {
    exists|k: int| 0 <= k < p.rules@.len() && rule_matches(#[trigger] p.rules@[k], subject_type, subject_id, action)
}

/// Whether `k` is the first rule of `rules` that applies.
pub open spec fn first_rule(rules: Seq<GuardrailRule>, k: int, subject_type: Seq<char>, subject_id: Option<Seq<char>>, action: Seq<char>) -> bool {
    &&& 0 <= k < rules.len()
    &&& rule_matches(rules[k], subject_type, subject_id, action)
    &&& forall|j: int| 0 <= j < k ==> !rule_matches(#[trigger] rules[j], subject_type, subject_id, action)
}

/// The verdict of an effect.
pub open spec fn verdict(e: RuleEffect) -> DecisionKind {
    if e == RuleEffect::Allow { DecisionKind::Allowed } else { DecisionKind::Denied }
}

/// The reason given for a decision by a rule with effect `e`.
pub open spec fn reason_for(e: RuleEffect, action: Seq<char>) -> Seq<char> {
    "matched "@ + (if e == RuleEffect::Allow { "allow"@ } else { "deny"@ }) + " rule for "@ + action
}

fn matches_rule(rule: &GuardrailRule, subject_type: &String, subject_id: &Option<String>, action: &String) -> (r: bool)
    ensures
        r == rule_matches(*rule, subject_type@, opt_str_view(*subject_id), action@),
{
    rule.subject_type == *subject_type && rule.action == *action && match &rule.subject_id {
        None => true,
        Some(rs) => match subject_id {
            Some(s) => *rs == *s,
            None => false,
        },
    }
}

/// Whether `d` is the decision for a subject and an action under a
/// tenant's policies: the first policy with a matching rule decides, by its
/// first matching rule; without one the action is allowed implicitly.
pub open spec fn decided_by(
    policies: Seq<GuardrailPolicy>,
    subject_type: Seq<char>,
    subject_id: Option<Seq<char>>,
    action: Seq<char>,
    d: GuardrailDecision,
) -> bool {
    match d.policy_id {
        Some(pid) => exists|i: int, k: int| {
            &&& 0 <= i < policies.len()
            &&& pid@ == policies[i].policy_id@
            &&& policy_applies(policies[i], subject_type, subject_id, action)
            &&& (forall|j: int| 0 <= j < i ==> !policy_applies(#[trigger] policies[j], subject_type, subject_id, action))
            &&& first_rule(policies[i].rules@, k, subject_type, subject_id, action)
            &&& d.decision == verdict(policies[i].rules@[k].effect)
            &&& opt_str_view(d.reason) == Some(reason_for(policies[i].rules@[k].effect, action))
        },
        None => {
            &&& d.decision == DecisionKind::Allowed
            &&& d.reason is None
            &&& forall|j: int| 0 <= j < policies.len() ==> !policy_applies(#[trigger] policies[j], subject_type, subject_id, action)
        },
    }
}

/// Evaluates the tenant's policies for a subject and an action.
pub fn evaluate(policies: &Vec<GuardrailPolicy>, subject_type: &String, subject_id: &Option<String>, action: &String) -> (r: GuardrailDecision)
    ensures
        decided_by(policies@, subject_type@, opt_str_view(*subject_id), action@, r),
{
    let ghost sid = opt_str_view(*subject_id);
    let mut i: usize = 0;
    while i < policies.len()
        invariant
            i <= policies@.len(),
            sid == opt_str_view(*subject_id),
            forall|j: int| 0 <= j < i ==> !policy_applies(#[trigger] policies@[j], subject_type@, sid, action@),
        decreases policies@.len() - i,
    {
        let p = &policies[i];
        let mut k: usize = 0;
        while k < p.rules.len()
            invariant
                k <= p.rules@.len(),
                i < policies@.len(),
                sid == opt_str_view(*subject_id),
                *p == policies@[i as int],
                forall|j: int| 0 <= j < i ==> !policy_applies(#[trigger] policies@[j], subject_type@, sid, action@),
                forall|j: int| 0 <= j < k ==> !rule_matches(#[trigger] p.rules@[j], subject_type@, sid, action@),
            decreases p.rules@.len() - k,
        {
            let rule = &p.rules[k];
            if matches_rule(rule, subject_type, subject_id, action) {
                let allow = rule.effect == RuleEffect::Allow;
                let mut v: Vec<char> = Vec::new();
                push_str(&mut v, "matched ");
                push_str(&mut v, if allow { "allow" } else { "deny" });
                push_str(&mut v, " rule for ");
                push_str(&mut v, action.as_str());
                let reason = string_from_chars(v.as_slice());
                proof {
                    assert(first_rule(policies@[i as int].rules@, k as int, subject_type@, sid, action@));
                    assert(policy_applies(policies@[i as int], subject_type@, sid, action@));
                    assert(reason@ =~= reason_for(rule.effect, action@));
                }
                let d = GuardrailDecision {
                    decision: if allow { DecisionKind::Allowed } else { DecisionKind::Denied },
                    policy_id: Some(p.policy_id.clone()),
                    reason: Some(reason),
                };
                proof {
                    let ii = i as int;
                    let kk = k as int;
                    assert({
                        &&& 0 <= ii < policies@.len()
                        &&& d.policy_id->0@ == policies@[ii].policy_id@
                        &&& policy_applies(policies@[ii], subject_type@, sid, action@)
                        &&& (forall|j: int| 0 <= j < ii ==> !policy_applies(#[trigger] policies@[j], subject_type@, sid, action@))
                        &&& first_rule(policies@[ii].rules@, kk, subject_type@, sid, action@)
                        &&& d.decision == verdict(policies@[ii].rules@[kk].effect)
                        &&& opt_str_view(d.reason) == Some(reason_for(policies@[ii].rules@[kk].effect, action@))
                    });
                }
                return d;
            }
            k = k + 1;
        }
        i = i + 1;
    }
    GuardrailDecision { decision: DecisionKind::Allowed, policy_id: None, reason: None }
}

/// The policy id an evaluation event records: the deciding policy, or
/// `implicit_allow` when none decided.
pub fn evaluated_policy_id(d: &GuardrailDecision) -> (r: String)
    ensures
        r@ == match d.policy_id {
            Some(p) => p@,
            None => "implicit_allow"@,
        },
{
    match &d.policy_id {
        Some(p) => p.clone(),
        None => "implicit_allow".to_owned(),
    }
}

/// The id of a policy created at `now`.
pub open spec fn policy_id_at(now: u64) -> Seq<char> {
    "guardrail_policy_"@ + crate::text::decimal(now as nat)
}

/// The id given to a policy created at `now`.
pub fn new_policy_id(now: u64) -> (r: String)
    ensures
        r@ == policy_id_at(now),
{
    let mut v: Vec<char> = Vec::new();
    push_str(&mut v, "guardrail_policy_");
    let d = crate::text::decimal_chars(now);
    crate::text::push_all(&mut v, d.as_slice());
    string_from_chars(v.as_slice())
}

impl GuardrailRule {
    /// A field-by-field copy.
    pub fn duplicate(&self) -> (r: Self)
        ensures
            r == *self,
    {
        GuardrailRule {
            subject_type: self.subject_type.clone(),
            subject_id: match &self.subject_id {
                Some(x) => Some(x.clone()),
                None => None,
            },
            action: self.action.clone(),
            effect: self.effect,
        }
    }
}

fn copy_rules(rules: &Vec<GuardrailRule>) -> (r: Vec<GuardrailRule>)
    ensures
        r@ == rules@,
{
    let mut out: Vec<GuardrailRule> = Vec::new();
    let mut i: usize = 0;
    while i < rules.len()
        invariant
            i <= rules@.len(),
            out@ == rules@.take(i as int),
        decreases rules@.len() - i,
    {
        out.push(rules[i].duplicate());
        assert(out@ =~= rules@.take(i + 1));
        i = i + 1;
    }
    assert(rules@.take(rules@.len() as int) =~= rules@);
    out
}

/// Each tenant's guardrail policies, in the order they were created.
pub struct GuardrailServiceImpl {
    policies: TextMap<Vec<GuardrailPolicy>>,
}

impl GuardrailServiceImpl {
    /// A tenant's policies, in creation order.
    pub closed spec fn policies_of(&self, tenant_id: Seq<char>) -> Seq<GuardrailPolicy> {
        if self.policies@.contains_key(tenant_id) {
            self.policies@[tenant_id]@
        } else {
            Seq::empty()
        }
    }

    pub closed spec fn wf(&self) -> bool {
        self.policies.wf()
    }

    pub fn new() -> (r: Self)
        ensures
            r.wf(),
            forall|t: Seq<char>| r.policies_of(t).len() == 0,
    {
        GuardrailServiceImpl { policies: TextMap::new() }
    }

    /// Creates a policy for a tenant at `now`, last among the tenant's; its
    /// id is `guardrail_policy_<now>`. Refused with `NotFound` for an
    /// unknown tenant.
    pub fn create_policy_at(
        &mut self,
        tenants: &TenantServiceImpl,
        tenant_id: &str,
        name: String,
        rules: Vec<GuardrailRule>,
        now: u64,
    ) -> (r: Result<GuardrailPolicy, RuntimeError>)
        requires
            old(self).wf(),
        ensures
            final(self).wf(),
            !has_tenant(tenants.tenants(), tenant_id@) ==> fails_not_found(r, "tenant"@, tenant_id@)
                && forall|t: Seq<char>| final(self).policies_of(t) == old(self).policies_of(t),
            has_tenant(tenants.tenants(), tenant_id@) ==> (r matches Ok(p) && {
                let s = final(self).policies_of(tenant_id@);
                &&& p.policy_id@ == policy_id_at(now)
                &&& p.tenant_id@ == tenant_id@
                &&& p.name == name
                &&& p.rules@ == rules@
                &&& s.len() == old(self).policies_of(tenant_id@).len() + 1
                &&& s.drop_last() == old(self).policies_of(tenant_id@)
                &&& s.last().policy_id == p.policy_id && s.last().tenant_id == p.tenant_id && s.last().name == name
                &&& s.last().rules == rules
                &&& forall|t: Seq<char>| t != tenant_id@ ==> final(self).policies_of(t) == old(self).policies_of(t)
            }),
    {
        if tenants.get(tenant_id).is_none() {
            return Err(not_found("tenant", tenant_id));
        }
        let out = GuardrailPolicy {
            policy_id: new_policy_id(now),
            tenant_id: tenant_id.to_owned(),
            name,
            rules: copy_rules(&rules),
        };
        let stored = GuardrailPolicy {
            policy_id: out.policy_id.clone(),
            tenant_id: out.tenant_id.clone(),
            name: out.name.clone(),
            rules,
        };
        let key = tenant_id.to_owned();
        let ghost m0 = self.policies@;
        let mut list: Vec<GuardrailPolicy> = match self.policies.remove(&key) {
            Some(v) => v,
            None => Vec::new(),
        };
        let ghost before = list@;
        list.push(stored);
        self.policies.insert(key, list);
        proof {
            assert(self.policies@ == m0.remove(tenant_id@).insert(tenant_id@, self.policies@[tenant_id@]));
            assert(self.policies@[tenant_id@]@.drop_last() =~= before);
            assert forall|t: Seq<char>| t != tenant_id@ implies self.policies_of(t) == old(self).policies_of(t) by {
                assert(self.policies@.contains_key(t) == m0.contains_key(t));
            }
        }
        Ok(out)
    }

    /// Creates a policy for a tenant, stamped with the current time.
    pub fn create_policy(&mut self, tenants: &TenantServiceImpl, tenant_id: &str, name: String, rules: Vec<GuardrailRule>) -> (r:
        Result<GuardrailPolicy, RuntimeError>)
        requires
            old(self).wf(),
        ensures
            final(self).wf(),
            !has_tenant(tenants.tenants(), tenant_id@) ==> fails_not_found(r, "tenant"@, tenant_id@)
                && forall|t: Seq<char>| final(self).policies_of(t) == old(self).policies_of(t),
            has_tenant(tenants.tenants(), tenant_id@) ==> (r matches Ok(p) && {
                let s = final(self).policies_of(tenant_id@);
                &&& p.tenant_id@ == tenant_id@
                &&& p.name == name
                &&& p.rules@ == rules@
                &&& s.drop_last() == old(self).policies_of(tenant_id@)
                &&& s.len() == old(self).policies_of(tenant_id@).len() + 1
                &&& s.last().policy_id == p.policy_id && s.last().rules == rules
                &&& forall|t: Seq<char>| t != tenant_id@ ==> final(self).policies_of(t) == old(self).policies_of(t)
            }),
            exists|tm: u64| #[trigger] at_time(tm)
                && (has_tenant(tenants.tenants(), tenant_id@) ==> (r matches Ok(p) && {
                    let s = final(self).policies_of(tenant_id@);
                    &&& p.policy_id@ == policy_id_at(tm)
                    &&& p.tenant_id@ == tenant_id@
                    &&& p.name == name
                    &&& p.rules@ == rules@
                    &&& s.len() == old(self).policies_of(tenant_id@).len() + 1
                    &&& s.drop_last() == old(self).policies_of(tenant_id@)
                    &&& s.last().policy_id == p.policy_id && s.last().tenant_id == p.tenant_id && s.last().name == name
                    &&& s.last().rules == rules
                    &&& forall|t: Seq<char>| t != tenant_id@ ==> final(self).policies_of(t) == old(self).policies_of(t)
                })),
    {
        let now = now_ms();
        let r = self.create_policy_at(tenants, tenant_id, name, rules, now);
        assert(at_time(now));
        r
    }

    /// Evaluates a tenant's policies for a subject and an action, as
    /// [`evaluate`] does. Refused with `NotFound` for an unknown tenant.
    pub fn evaluate_for(
        &self,
        tenants: &TenantServiceImpl,
        tenant_id: &str,
        subject_type: &String,
        subject_id: &Option<String>,
        action: &String,
    ) -> (r: Result<GuardrailDecision, RuntimeError>)
        requires
            self.wf(),
        ensures
            !has_tenant(tenants.tenants(), tenant_id@) ==> fails_not_found(r, "tenant"@, tenant_id@),
            has_tenant(tenants.tenants(), tenant_id@) ==> (r matches Ok(d) && decided_by(
                self.policies_of(tenant_id@),
                subject_type@,
                opt_str_view(*subject_id),
                action@,
                d,
            )),
    {
        if tenants.get(tenant_id).is_none() {
            return Err(not_found("tenant", tenant_id));
        }
        match self.policies.get(&tenant_id.to_owned()) {
            Some(list) => Ok(evaluate(list, subject_type, subject_id, action)),
            None => {
                let empty: Vec<GuardrailPolicy> = Vec::new();
                Ok(evaluate(&empty, subject_type, subject_id, action))
            },
        }
    }
}

/// With no policy that applies, an action is allowed; an allow rule never
/// denies and any other effect never allows.
pub proof fn law_only_allow_rules_allow(e: RuleEffect)
    ensures
        verdict(e) == DecisionKind::Allowed <==> e == RuleEffect::Allow,
{
}

/// The rule behind a guardrail decision. A named policy holds a rule for
/// the evaluated subject type and action, one that names no subject or the
/// evaluated one; that rule sets the verdict (allow allows, any other
/// effect denies), and it is the first such rule in policy order. If any
/// such rule exists, some policy is named; if no rule of any policy is for
/// the subject type and action, the action is allowed with no policy named.
pub proof fn law_guardrail_decision_rests_on_a_rule_for_the_subject(
    policies: Seq<GuardrailPolicy>,
    subject_type: Seq<char>,
    subject_id: Option<Seq<char>>,
    action: Seq<char>,
    d: GuardrailDecision,
)
    requires
        decided_by(policies, subject_type, subject_id, action, d),
    ensures
        d.policy_id matches Some(pid) ==> exists|i: int, k: int|
            #![trigger policies[i].rules@[k]]
            {
                &&& 0 <= i < policies.len()
                &&& 0 <= k < policies[i].rules@.len()
                &&& policies[i].policy_id@ == pid@
                &&& policies[i].rules@[k].subject_type@ == subject_type
                &&& policies[i].rules@[k].action@ == action
                &&& (policies[i].rules@[k].subject_id matches Some(x) ==> subject_id == Some(x@))
                &&& d.decision == if policies[i].rules@[k].effect == RuleEffect::Allow {
                    DecisionKind::Allowed
                } else {
                    DecisionKind::Denied
                }
                &&& forall|j: int, q: int|
                    #![trigger policies[j].rules@[q]]
                    (0 <= j < i && 0 <= q < policies[j].rules@.len()) || (j == i && 0 <= q < k) ==> !(
                    policies[j].rules@[q].subject_type@ == subject_type && policies[j].rules@[q].action@ == action && (
                    policies[j].rules@[q].subject_id matches Some(x) ==> subject_id == Some(x@)))
            },
        (exists|i: int, k: int|
            #![trigger policies[i].rules@[k]]
            0 <= i < policies.len() && 0 <= k < policies[i].rules@.len() && policies[i].rules@[k].subject_type@ == subject_type
                && policies[i].rules@[k].action@ == action && (policies[i].rules@[k].subject_id matches Some(x) ==> subject_id
                == Some(x@))) ==> d.policy_id is Some,
        (forall|i: int, k: int|
            #![trigger policies[i].rules@[k]]
            0 <= i < policies.len() && 0 <= k < policies[i].rules@.len() ==> !(policies[i].rules@[k].subject_type@ == subject_type
                && policies[i].rules@[k].action@ == action)) ==> d.policy_id is None && d.decision == DecisionKind::Allowed,
{
    match d.policy_id {
        Some(pid) => {
            let (i, k) = choose|i: int, k: int| {
                &&& 0 <= i < policies.len()
                &&& pid@ == policies[i].policy_id@
                &&& policy_applies(policies[i], subject_type, subject_id, action)
                &&& (forall|j: int| 0 <= j < i ==> !policy_applies(#[trigger] policies[j], subject_type, subject_id, action))
                &&& first_rule(policies[i].rules@, k, subject_type, subject_id, action)
                &&& d.decision == verdict(policies[i].rules@[k].effect)
                &&& opt_str_view(d.reason) == Some(reason_for(policies[i].rules@[k].effect, action))
            };
            let rule = policies[i].rules@[k];
            assert(rule_matches(rule, subject_type, subject_id, action));
            assert(rule.subject_type@ == subject_type && rule.action@ == action);
            assert(policies[i].rules@[k] == rule);
            assert forall|j: int, q: int|
                #![trigger policies[j].rules@[q]]
                (0 <= j < i && 0 <= q < policies[j].rules@.len()) || (j == i && 0 <= q < k) implies !(
                policies[j].rules@[q].subject_type@ == subject_type && policies[j].rules@[q].action@ == action && (
                policies[j].rules@[q].subject_id matches Some(x) ==> subject_id == Some(x@))) by {
                if j < i {
                    assert(!policy_applies(policies[j], subject_type, subject_id, action));
                    assert(!rule_matches(policies[j].rules@[q], subject_type, subject_id, action));
                } else {
                    assert(!rule_matches(policies[i].rules@[q], subject_type, subject_id, action));
                }
            }
        },
        None => {
            if exists|i: int, k: int|
                #![trigger policies[i].rules@[k]]
                0 <= i < policies.len() && 0 <= k < policies[i].rules@.len() && policies[i].rules@[k].subject_type@ == subject_type
                    && policies[i].rules@[k].action@ == action && (policies[i].rules@[k].subject_id matches Some(x) ==> subject_id
                    == Some(x@)) {
                let (i, k) = choose|i: int, k: int|
                    #![trigger policies[i].rules@[k]]
                    0 <= i < policies.len() && 0 <= k < policies[i].rules@.len() && policies[i].rules@[k].subject_type@ == subject_type
                        && policies[i].rules@[k].action@ == action && (policies[i].rules@[k].subject_id matches Some(x)
                        ==> subject_id == Some(x@));
                assert(rule_matches(policies[i].rules@[k], subject_type, subject_id, action));
                assert(policy_applies(policies[i], subject_type, subject_id, action));
                assert(false);
            }
        },
    }
}

} // verus!
