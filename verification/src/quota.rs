//! Tenant quotas: the limits a tenant may not exceed, and the check that
//! refuses a run or session once a limit is reached.
use vstd::prelude::*;
use crate::clock::now_ms;
use crate::runtime_error::RuntimeError;
use crate::text::str_eq;

verus! {

/// A tenant's limits and how much of them is in use.
#[derive(Debug, Clone)]
pub struct TenantQuota {
    pub tenant_id: String,
    pub max_concurrent_runs: u32,
    pub max_sessions_per_hour: u32,
    pub max_tasks_per_run: u32,
    pub current_active_runs: u32,
    pub sessions_this_hour: u32,
}

impl TenantQuota {
    /// A copy of the quota.
    pub fn duplicate(&self) -> (r: Self)
        ensures
            r == *self,
    {
        TenantQuota {
            tenant_id: self.tenant_id.clone(),
            max_concurrent_runs: self.max_concurrent_runs,
            max_sessions_per_hour: self.max_sessions_per_hour,
            max_tasks_per_run: self.max_tasks_per_run,
            current_active_runs: self.current_active_runs,
            sessions_this_hour: self.sessions_this_hour,
        }
    }
}

/// A recorded refusal for a used-up quota.
#[derive(Debug, Clone)]
pub struct TenantQuotaViolated {
    pub tenant_id: String,
    pub quota_type: String,
    pub current: u32,
    pub limit: u32,
    pub occurred_at_ms: u64,
}

/// The usage and limit that a quota type names, `None` for a type that
/// has no limit.
pub open spec fn quota_usage(q: TenantQuota, quota_type: Seq<char>) -> Option<(u32, u32)> {
    if quota_type == "max_concurrent_runs"@ {
        Some((q.current_active_runs, q.max_concurrent_runs))
    } else if quota_type == "max_sessions_per_hour"@ {
        Some((q.sessions_this_hour, q.max_sessions_per_hour))
    } else {
        None
    }
}

/// Whether a quota of the type is used up: a limit of zero means no limit.
pub open spec fn quota_breached(q: TenantQuota, quota_type: Seq<char>) -> bool {
    match quota_usage(q, quota_type) {
        Some((current, limit)) => limit > 0 && current >= limit,
        None => false,
    }
}

/// Whether an error reports a used-up quota of a tenant with the given
/// usage and limit.
pub open spec fn is_quota_exceeded(e: RuntimeError, tenant_id: Seq<char>, quota_type: Seq<char>, usage: Option<(u32, u32)>) -> bool {
    match e {
        RuntimeError::QuotaExceeded { tenant_id: t, quota_type: k, current, limit } => t@ == tenant_id && k@ == quota_type
            && usage == Some((current, limit)),
        _ => false,
    }
}

/// The check of one quota type against a tenant's quota: `Ok` when the
/// tenant has no quota, the type has no limit, or the limit is not reached;
/// otherwise `QuotaExceeded` with the usage and the limit.
pub fn enforce_quota(quota: Option<&TenantQuota>, tenant_id: &str, quota_type: &str) -> (r: Result<(), RuntimeError>)
    ensures
        match quota {
            None => r is Ok,
            Some(q) => match r {
                Ok(()) => !quota_breached(*q, quota_type@),
                Err(e) => quota_breached(*q, quota_type@) && is_quota_exceeded(e, tenant_id@, quota_type@, quota_usage(*q, quota_type@)),
            },
        },
{
    let q = match quota {
        None => return Ok(()),
        Some(q) => q,
    };
    let (current, limit) = if str_eq(quota_type, "max_concurrent_runs") {
        (q.current_active_runs, q.max_concurrent_runs)
    } else if str_eq(quota_type, "max_sessions_per_hour") {
        (q.sessions_this_hour, q.max_sessions_per_hour)
    } else {
        return Ok(());
    };
    if limit > 0 && current >= limit {
        Err(RuntimeError::QuotaExceeded { tenant_id: tenant_id.to_owned(), quota_type: quota_type.to_owned(), current, limit })
    } else {
        Ok(())
    }
}

/// The tenants' quotas, at most one per tenant, and the refusals recorded.
pub struct QuotaServiceImpl {
    quotas: Vec<TenantQuota>,
    violations: Vec<TenantQuotaViolated>,
}

impl QuotaServiceImpl {
    pub closed spec fn entries(&self) -> Seq<TenantQuota> {
        self.quotas@
    }

    /// The refusals recorded, oldest first.
    pub closed spec fn violations(&self) -> Seq<TenantQuotaViolated> {
        self.violations@
    }

    pub closed spec fn wf(&self) -> bool {
        forall|a: int, b: int|
            0 <= a < self.quotas@.len() && 0 <= b < self.quotas@.len() && a != b
                ==> (#[trigger] self.quotas@[a]).tenant_id@ != (#[trigger] self.quotas@[b]).tenant_id@
    }

    /// The quota of a tenant in a list of quotas.
    pub open spec fn quota_of(qs: Seq<TenantQuota>, tenant_id: Seq<char>) -> Option<TenantQuota> {
        if exists|i: int| 0 <= i < qs.len() && qs[i].tenant_id@ == tenant_id {
            Some(qs[choose|i: int| 0 <= i < qs.len() && qs[i].tenant_id@ == tenant_id])
        } else {
            None
        }
    }

    pub fn new() -> (r: Self)
        ensures
            r.wf(),
            r.entries() == Seq::<TenantQuota>::empty(),
            r.violations() == Seq::<TenantQuotaViolated>::empty(),
    {
        QuotaServiceImpl { quotas: Vec::new(), violations: Vec::new() }
    }

    fn position(&self, tenant_id: &str) -> (r: Option<usize>)
        requires
            self.wf(),
        ensures
            match r {
                Some(i) => i < self.entries().len() && self.entries()[i as int].tenant_id@ == tenant_id@
                    && Self::quota_of(self.entries(), tenant_id@) == Some(self.entries()[i as int]),
                None => Self::quota_of(self.entries(), tenant_id@) is None
                    && forall|j: int| 0 <= j < self.entries().len() ==> (#[trigger] self.entries()[j]).tenant_id@ != tenant_id@,
            },
    {
        let t = tenant_id.to_owned();
        let mut i: usize = 0;
        while i < self.quotas.len()
            invariant
                i <= self.quotas@.len(),
                self.wf(),
                t@ == tenant_id@,
                forall|j: int| 0 <= j < i ==> (#[trigger] self.quotas@[j]).tenant_id@ != tenant_id@,
            decreases self.quotas@.len() - i,
        {
            if self.quotas[i].tenant_id == t {
                proof {
                    let c = choose|c: int| 0 <= c < self.quotas@.len() && self.quotas@[c].tenant_id@ == tenant_id@;
                    if c != i {
                        assert(self.quotas@[c].tenant_id@ != self.quotas@[i as int].tenant_id@);
                    }
                }
                return Some(i);
            }
            i = i + 1;
        }
        None
    }

    /// Sets a tenant's limits. Usage already counted against a quota set
    /// before is kept; a new quota starts with nothing in use. Returns the
    /// quota as it now stands.
    pub fn set_quota(
        &mut self,
        tenant_id: &str,
        max_concurrent_runs: u32,
        max_sessions_per_hour: u32,
        max_tasks_per_run: u32,
    ) -> (r: TenantQuota)
        requires
            old(self).wf(),
        ensures
            final(self).wf(),
            final(self).violations() == old(self).violations(),
            r.tenant_id@ == tenant_id@,
            r.max_concurrent_runs == max_concurrent_runs,
            r.max_sessions_per_hour == max_sessions_per_hour,
            r.max_tasks_per_run == max_tasks_per_run,
            Self::quota_of(final(self).entries(), tenant_id@) == Some(r),
            match Self::quota_of(old(self).entries(), tenant_id@) {
                Some(q) => r.current_active_runs == q.current_active_runs && r.sessions_this_hour == q.sessions_this_hour,
                None => r.current_active_runs == 0 && r.sessions_this_hour == 0,
            },
            forall|t: Seq<char>| t != tenant_id@ ==> #[trigger] Self::quota_of(final(self).entries(), t) == Self::quota_of(old(self).entries(), t),
    {
        let ghost q0 = self.quotas@;
        match self.position(tenant_id) {
            Some(i) => {
                let q = TenantQuota {
                    tenant_id: tenant_id.to_owned(),
                    max_concurrent_runs,
                    max_sessions_per_hour,
                    max_tasks_per_run,
                    current_active_runs: self.quotas[i].current_active_runs,
                    sessions_this_hour: self.quotas[i].sessions_this_hour,
                };
                let out = q.duplicate();
                self.quotas.set(i, q);
                proof {
                    assert forall|a: int, b: int| 0 <= a < self.quotas@.len() && 0 <= b < self.quotas@.len() && a != b
                        implies (#[trigger] self.quotas@[a]).tenant_id@ != (#[trigger] self.quotas@[b]).tenant_id@ by {
                        assert(q0[a].tenant_id@ != q0[b].tenant_id@);
                    }
                    self.lemma_quota_at(i as int);
                    assert forall|t: Seq<char>| t != tenant_id@ implies #[trigger] Self::quota_of(self.quotas@, t) == Self::quota_of(q0, t) by {
                        assert forall|j: int| 0 <= j < q0.len() implies (q0[j].tenant_id@ == t <==> #[trigger] self.quotas@[j].tenant_id@ == t) by {}
                        if exists|j: int| 0 <= j < q0.len() && q0[j].tenant_id@ == t {
                            let c1 = choose|j: int| 0 <= j < q0.len() && q0[j].tenant_id@ == t;
                            assert(self.quotas@[c1].tenant_id@ == t);
                            let c2 = choose|j: int| 0 <= j < self.quotas@.len() && self.quotas@[j].tenant_id@ == t;
                            if c1 != c2 {
                                assert(q0[c1].tenant_id@ != q0[c2].tenant_id@);
                            }
                        } else {
                            assert forall|j: int| 0 <= j < self.quotas@.len() implies #[trigger] self.quotas@[j].tenant_id@ != t by {
                                assert(q0[j].tenant_id@ != t);
                            }
                        }
                    }
                }
                out
            },
            None => {
                let q = TenantQuota {
                    tenant_id: tenant_id.to_owned(),
                    max_concurrent_runs,
                    max_sessions_per_hour,
                    max_tasks_per_run,
                    current_active_runs: 0,
                    sessions_this_hour: 0,
                };
                let out = q.duplicate();
                self.quotas.push(q);
                proof {
                    let n = q0.len() as int;
                    assert forall|a: int, b: int| 0 <= a < self.quotas@.len() && 0 <= b < self.quotas@.len() && a != b
                        implies (#[trigger] self.quotas@[a]).tenant_id@ != (#[trigger] self.quotas@[b]).tenant_id@ by {
                        if a != n && b != n {
                            assert(q0[a].tenant_id@ != q0[b].tenant_id@);
                        } else if a == n {
                            assert(q0[b].tenant_id@ != tenant_id@);
                        } else {
                            assert(q0[a].tenant_id@ != tenant_id@);
                        }
                    }
                    self.lemma_quota_at(n);
                    assert forall|t: Seq<char>| t != tenant_id@ implies #[trigger] Self::quota_of(self.quotas@, t) == Self::quota_of(q0, t) by {
                        if exists|j: int| 0 <= j < q0.len() && q0[j].tenant_id@ == t {
                            let c1 = choose|j: int| 0 <= j < q0.len() && q0[j].tenant_id@ == t;
                            assert(self.quotas@[c1].tenant_id@ == t);
                            let c2 = choose|j: int| 0 <= j < self.quotas@.len() && self.quotas@[j].tenant_id@ == t;
                            if c1 != c2 {
                                assert(self.quotas@[c1].tenant_id@ != self.quotas@[c2].tenant_id@);
                            }
                        } else {
                            assert forall|j: int| 0 <= j < self.quotas@.len() implies #[trigger] self.quotas@[j].tenant_id@ != t by {
                                if j < n {
                                    assert(q0[j].tenant_id@ != t);
                                }
                            }
                        }
                    }
                }
                out
            },
        }
    }

    proof fn lemma_quota_at(&self, i: int)
        requires
            self.wf(),
            0 <= i < self.entries().len(),
        ensures
            Self::quota_of(self.entries(), self.entries()[i].tenant_id@) == Some(self.entries()[i]),
    {
        let t = self.entries()[i].tenant_id@;
        let c = choose|c: int| 0 <= c < self.quotas@.len() && self.quotas@[c].tenant_id@ == t;
        if c != i {
            assert(self.quotas@[c].tenant_id@ != self.quotas@[i].tenant_id@);
        }
    }

    /// A tenant's quota, if one was set.
    pub fn get_quota(&self, tenant_id: &str) -> (r: Option<TenantQuota>)
        requires
            self.wf(),
        ensures
            r == Self::quota_of(self.entries(), tenant_id@),
    {
        match self.position(tenant_id) {
            Some(i) => Some(self.quotas[i].duplicate()),
            None => None,
        }
    }

    fn enforce(&mut self, tenant_id: &str, quota_type: &str) -> (r: Result<(), RuntimeError>)
        requires
            old(self).wf(),
        ensures
            final(self).wf(),
            final(self).entries() == old(self).entries(),
            match Self::quota_of(old(self).entries(), tenant_id@) {
                None => r is Ok && final(self).violations() == old(self).violations(),
                Some(q) => match r {
                    Ok(()) => !quota_breached(q, quota_type@) && final(self).violations() == old(self).violations(),
                    Err(e) => quota_breached(q, quota_type@)
                        && is_quota_exceeded(e, tenant_id@, quota_type@, quota_usage(q, quota_type@))
                        && final(self).violations().len() == old(self).violations().len() + 1
                        && final(self).violations().drop_last() == old(self).violations()
                        && final(self).violations().last().tenant_id@ == tenant_id@
                        && final(self).violations().last().quota_type@ == quota_type@
                        && quota_usage(q, quota_type@) == Some((final(self).violations().last().current, final(self).violations().last().limit)),
                },
            },
    {
        let pos = self.position(tenant_id);
        let decision = match pos {
            Some(i) => enforce_quota(Some(&self.quotas[i]), tenant_id, quota_type),
            None => enforce_quota(None, tenant_id, quota_type),
        };
        match &decision {
            Err(RuntimeError::QuotaExceeded { current, limit, .. }) => {
                let v = TenantQuotaViolated {
                    tenant_id: tenant_id.to_owned(),
                    quota_type: quota_type.to_owned(),
                    current: *current,
                    limit: *limit,
                    occurred_at_ms: now_ms(),
                };
                self.violations.push(v);
                assert(self.violations@.drop_last() =~= old(self).violations@);
            },
            _ => {},
        }
        decision
    }

    /// Refuses a new run once the tenant's concurrent runs reach its limit,
    /// recording the refusal.
    pub fn check_run_quota(&mut self, tenant_id: &str) -> (r: Result<(), RuntimeError>)
        requires
            old(self).wf(),
        ensures
            final(self).wf(),
            final(self).entries() == old(self).entries(),
            r is Ok <==> !(match Self::quota_of(old(self).entries(), tenant_id@) {
                Some(q) => quota_breached(q, "max_concurrent_runs"@),
                None => false,
            }),
            r matches Err(e) ==> (Self::quota_of(old(self).entries(), tenant_id@) matches Some(q)
                && is_quota_exceeded(e, tenant_id@, "max_concurrent_runs"@, quota_usage(q, "max_concurrent_runs"@))),
            r is Ok ==> final(self).violations() == old(self).violations(),
            r is Err ==> final(self).violations().len() == old(self).violations().len() + 1
                && final(self).violations().drop_last() == old(self).violations(),
    {
        self.enforce(tenant_id, "max_concurrent_runs")
    }

    /// Refuses a new session once the tenant's sessions this hour reach its
    /// limit, recording the refusal.
    pub fn check_session_quota(&mut self, tenant_id: &str) -> (r: Result<(), RuntimeError>)
        requires
            old(self).wf(),
        ensures
            final(self).wf(),
            final(self).entries() == old(self).entries(),
            r is Ok <==> !(match Self::quota_of(old(self).entries(), tenant_id@) {
                Some(q) => quota_breached(q, "max_sessions_per_hour"@),
                None => false,
            }),
            r matches Err(e) ==> (Self::quota_of(old(self).entries(), tenant_id@) matches Some(q)
                && is_quota_exceeded(e, tenant_id@, "max_sessions_per_hour"@, quota_usage(q, "max_sessions_per_hour"@))),
            r is Ok ==> final(self).violations() == old(self).violations(),
            r is Err ==> final(self).violations().len() == old(self).violations().len() + 1
                && final(self).violations().drop_last() == old(self).violations(),
    {
        self.enforce(tenant_id, "max_sessions_per_hour")
    }
}

/// When a quota check refuses: the concurrent-run quota when a nonzero
/// limit is reached by the active runs, the hourly-session quota when a
/// nonzero limit is reached by this hour's sessions; a zero limit never
/// refuses, and neither does any other quota type.
pub proof fn law_quota_refuses_at_a_reached_nonzero_limit(q: TenantQuota, quota_type: Seq<char>)
    ensures
        quota_breached(q, "max_concurrent_runs"@) == (q.max_concurrent_runs > 0 && q.current_active_runs >= q.max_concurrent_runs),
        quota_breached(q, "max_sessions_per_hour"@) == (q.max_sessions_per_hour > 0 && q.sessions_this_hour
            >= q.max_sessions_per_hour),
        quota_type != "max_concurrent_runs"@ && quota_type != "max_sessions_per_hour"@ ==> !quota_breached(q, quota_type),
{
    reveal_strlit("max_concurrent_runs");
    reveal_strlit("max_sessions_per_hour");
    assert("max_sessions_per_hour"@.len() != "max_concurrent_runs"@.len());
}

} // verus!
