//! Provider budgets per tenant and the status a budget check reports.
use vstd::prelude::*;
use crate::text::concat3;

verus! {

/// The period a provider budget covers.
#[derive(Debug, Clone, Copy, PartialEq, Eq, Structural)]
pub enum ProviderBudgetPeriod {
    Daily,
    Monthly,
}

/// A tenant's spending limit for one period.
#[derive(Debug, Clone)]
pub struct ProviderBudget {
    pub tenant_id: String,
    pub budget_id: String,
    pub period: ProviderBudgetPeriod,
    pub limit_micros: u64,
    pub current_spend_micros: u64,
    pub alert_threshold_percent: u32,
}

impl ProviderBudget {
    /// A copy of the budget.
    pub fn duplicate(&self) -> (r: Self)
        ensures
            r == *self,
    {
        ProviderBudget {
            tenant_id: self.tenant_id.clone(),
            budget_id: self.budget_id.clone(),
            period: self.period,
            limit_micros: self.limit_micros,
            current_spend_micros: self.current_spend_micros,
            alert_threshold_percent: self.alert_threshold_percent,
        }
    }
}

/// What a budget check reports across a tenant's budgets.
#[derive(Debug, Clone, Copy, PartialEq, Eq, Structural)]
pub struct BudgetStatus {
    pub remaining_micros: u64,
    pub percent_used: u32,
    pub alert_triggered: bool,
    pub exceeded: bool,
}

pub open spec fn period_label(period: ProviderBudgetPeriod) -> Seq<char> {
    match period {
        ProviderBudgetPeriod::Daily => "daily"@,
        ProviderBudgetPeriod::Monthly => "monthly"@,
    }
}

/// The id of a tenant's budget for a period: `budget_<tenant>_<period>`.
pub open spec fn budget_id_spec(tenant_id: Seq<char>, period: ProviderBudgetPeriod) -> Seq<char> {
    "budget_"@ + tenant_id + "_"@ + period_label(period)
}

pub fn budget_id_for(tenant_id: &str, period: ProviderBudgetPeriod) -> (r: String)
    ensures
        r@ == budget_id_spec(tenant_id@, period),
{
    let label = match period {
        ProviderBudgetPeriod::Daily => "daily",
        ProviderBudgetPeriod::Monthly => "monthly",
    };
    let head = concat3("budget_", tenant_id, "_");
    let r = concat3(head.as_str(), label, "");
    proof {
        reveal_strlit("");
        assert(r@ =~= budget_id_spec(tenant_id@, period));
    }
    r
}

/// The share of a budget spent, in whole percent; a zero limit counts as
/// fully used. The product with 100 saturates, and the quotient is cut to
/// 32 bits.
pub open spec fn percent_used(limit_micros: u64, spend_micros: u64) -> u32 {
    if limit_micros == 0 {
        100
    } else {
        let scaled: int = if spend_micros * 100 > u64::MAX { u64::MAX as int } else { spend_micros * 100 };
        (scaled / (limit_micros as int)) as u32
    }
}

/// The status before any budget is counted.
pub open spec fn status_start() -> BudgetStatus {
    BudgetStatus { remaining_micros: u64::MAX, percent_used: 0, alert_triggered: false, exceeded: false }
}

/// The status after counting one more budget.
pub open spec fn status_step(s: BudgetStatus, b: ProviderBudget) -> BudgetStatus {
    let pct = percent_used(b.limit_micros, b.current_spend_micros);
    let remaining: u64 = if b.current_spend_micros >= b.limit_micros {
        0
    } else {
        (b.limit_micros - b.current_spend_micros) as u64
    };
    BudgetStatus {
        remaining_micros: if remaining < s.remaining_micros { remaining } else { s.remaining_micros },
        percent_used: if pct > s.percent_used { pct } else { s.percent_used },
        alert_triggered: s.alert_triggered || pct >= b.alert_threshold_percent,
        exceeded: s.exceeded || b.current_spend_micros > b.limit_micros,
    }
}

/// The status after counting the budgets of `bs`, in order.
pub open spec fn status_over(bs: Seq<ProviderBudget>) -> BudgetStatus
    decreases bs.len(),
{
    if bs.len() == 0 {
        status_start()
    } else {
        status_step(status_over(bs.drop_last()), bs.last())
    }
}

/// What a check over a tenant's budgets reports: nothing remains when the
/// tenant has no budget at all.
pub open spec fn budget_status_spec(bs: Seq<ProviderBudget>) -> BudgetStatus {
    if bs.len() == 0 {
        BudgetStatus { remaining_micros: 0, percent_used: 0, alert_triggered: false, exceeded: false }
    } else {
        status_over(bs)
    }
}

/// What is left of a budget: nothing once it is spent.
pub open spec fn budget_left(b: ProviderBudget) -> u64 {
    if b.current_spend_micros >= b.limit_micros {
        0
    } else {
        (b.limit_micros - b.current_spend_micros) as u64
    }
}

/// A check over a tenant's budgets reports an alert exactly when some budget
/// has reached its alert threshold, and an excess exactly when some budget's
/// spend is over its limit; the share used is the highest of the budgets'
/// shares, and what remains the least that remains of any budget.
pub proof fn law_budget_status_over_all_budgets(bs: Seq<ProviderBudget>)
    requires
        bs.len() > 0,
    ensures
        budget_status_spec(bs).alert_triggered == exists|i: int|
            0 <= i < bs.len() && percent_used(#[trigger] bs[i].limit_micros, bs[i].current_spend_micros) >= bs[i].alert_threshold_percent,
        budget_status_spec(bs).exceeded == exists|i: int| 0 <= i < bs.len() && #[trigger] bs[i].current_spend_micros > bs[i].limit_micros,
        forall|i: int| 0 <= i < bs.len() ==> percent_used(#[trigger] bs[i].limit_micros, bs[i].current_spend_micros) <= budget_status_spec(bs).percent_used,
        exists|i: int| 0 <= i < bs.len() && budget_status_spec(bs).percent_used == percent_used(#[trigger] bs[i].limit_micros, bs[i].current_spend_micros),
        forall|i: int| 0 <= i < bs.len() ==> budget_status_spec(bs).remaining_micros <= budget_left(#[trigger] bs[i]),
        exists|i: int| 0 <= i < bs.len() && budget_status_spec(bs).remaining_micros == budget_left(#[trigger] bs[i]),
    decreases bs.len(),
{
    let s = status_over(bs);
    let b = bs.last();
    let n = bs.len() - 1;
    if percent_used(b.limit_micros, b.current_spend_micros) >= b.alert_threshold_percent {
        assert(percent_used(bs[n].limit_micros, bs[n].current_spend_micros) >= bs[n].alert_threshold_percent);
    }
    if b.current_spend_micros > b.limit_micros {
        assert(bs[n].current_spend_micros > bs[n].limit_micros);
    }
    if bs.len() == 1 {
        assert(bs.drop_last().len() == 0);
        assert(status_over(bs.drop_last()) == status_start());
        assert(bs[0] == b);
        assert(percent_used(bs[0].limit_micros, bs[0].current_spend_micros) == s.percent_used);
        assert(budget_left(bs[0]) == s.remaining_micros);
    } else {
        let p = bs.drop_last();
        law_budget_status_over_all_budgets(p);
        assert forall|i: int| 0 <= i < n implies #[trigger] bs[i] == p[i] by {}
        assert(bs[n] == b);
        if s.alert_triggered && !(percent_used(b.limit_micros, b.current_spend_micros) >= b.alert_threshold_percent) {
            let i = choose|i: int| 0 <= i < p.len() && percent_used(#[trigger] p[i].limit_micros, p[i].current_spend_micros) >= p[i].alert_threshold_percent;
            assert(bs[i] == p[i]);
        }
        if exists|i: int| 0 <= i < bs.len() && percent_used(#[trigger] bs[i].limit_micros, bs[i].current_spend_micros) >= bs[i].alert_threshold_percent {
            let i = choose|i: int| 0 <= i < bs.len() && percent_used(#[trigger] bs[i].limit_micros, bs[i].current_spend_micros) >= bs[i].alert_threshold_percent;
            if i < n {
                assert(bs[i] == p[i]);
            }
        }
        if s.exceeded && !(b.current_spend_micros > b.limit_micros) {
            let i = choose|i: int| 0 <= i < p.len() && #[trigger] p[i].current_spend_micros > p[i].limit_micros;
            assert(bs[i] == p[i]);
        }
        if exists|i: int| 0 <= i < bs.len() && #[trigger] bs[i].current_spend_micros > bs[i].limit_micros {
            let i = choose|i: int| 0 <= i < bs.len() && #[trigger] bs[i].current_spend_micros > bs[i].limit_micros;
            if i < n {
                assert(bs[i] == p[i]);
            }
        }
        assert forall|i: int| 0 <= i < bs.len() implies percent_used(#[trigger] bs[i].limit_micros, bs[i].current_spend_micros) <= s.percent_used by {
            if i < n {
                assert(bs[i] == p[i]);
            }
        }
        assert forall|i: int| 0 <= i < bs.len() implies s.remaining_micros <= budget_left(#[trigger] bs[i]) by {
            if i < n {
                assert(bs[i] == p[i]);
                assert(status_over(p).remaining_micros <= budget_left(p[i]));
            }
        }
        let ip = choose|i: int| 0 <= i < p.len() && status_over(p).percent_used == percent_used(#[trigger] p[i].limit_micros, p[i].current_spend_micros);
        assert(bs[ip] == p[ip]);
        let ir = choose|i: int| 0 <= i < p.len() && status_over(p).remaining_micros == budget_left(#[trigger] p[i]);
        assert(bs[ir] == p[ir]);
        if s.percent_used == percent_used(b.limit_micros, b.current_spend_micros) {
            assert(percent_used(bs[n].limit_micros, bs[n].current_spend_micros) == s.percent_used);
        } else {
            assert(s.percent_used == percent_used(bs[ip].limit_micros, bs[ip].current_spend_micros));
        }
        if s.remaining_micros == budget_left(b) {
            assert(budget_left(bs[n]) == s.remaining_micros);
        } else {
            assert(s.remaining_micros == budget_left(bs[ir]));
        }
    }
}

fn percent_of(limit_micros: u64, spend_micros: u64) -> (r: u32)
    ensures
        r == percent_used(limit_micros, spend_micros),
{
    if limit_micros == 0 {
        100
    } else {
        let scaled: u64 = match spend_micros.checked_mul(100) {
            Some(v) => v,
            None => u64::MAX,
        };
        let q = scaled / limit_micros;
        #[verifier::truncate]
        let r = q as u32;
        r
    }
}

/// The status over a tenant's budgets: the least remaining amount, the
/// highest share used, and whether any budget alerts or is exceeded.
pub fn budget_status(budgets: &Vec<ProviderBudget>) -> (r: BudgetStatus)
    ensures
        r == budget_status_spec(budgets@),
{
    if budgets.len() == 0 {
        return BudgetStatus { remaining_micros: 0, percent_used: 0, alert_triggered: false, exceeded: false };
    }
    let mut status = BudgetStatus { remaining_micros: u64::MAX, percent_used: 0, alert_triggered: false, exceeded: false };
    let mut i: usize = 0;
    while i < budgets.len()
        invariant
            i <= budgets@.len(),
            status == status_over(budgets@.take(i as int)),
        decreases budgets@.len() - i,
    {
        let b = &budgets[i];
        let pct = percent_of(b.limit_micros, b.current_spend_micros);
        let remaining = b.limit_micros.saturating_sub(b.current_spend_micros);
        if b.current_spend_micros > b.limit_micros {
            status.exceeded = true;
        }
        if pct >= b.alert_threshold_percent {
            status.alert_triggered = true;
        }
        if pct > status.percent_used {
            status.percent_used = pct;
        }
        if remaining < status.remaining_micros {
            status.remaining_micros = remaining;
        }
        proof {
            assert(budgets@.take(i + 1).drop_last() =~= budgets@.take(i as int));
        }
        i = i + 1;
    }
    assert(budgets@.take(budgets@.len() as int) =~= budgets@);
    status
}

/// The provider budgets of all tenants, at most one per tenant and period.
pub struct BudgetServiceImpl {
    budgets: Vec<ProviderBudget>,
}

/// Whether a budget belongs to a tenant and period.
pub open spec fn budget_is(b: ProviderBudget, tenant_id: Seq<char>, period: ProviderBudgetPeriod) -> bool {
    b.tenant_id@ == tenant_id && b.period == period
}

impl BudgetServiceImpl {
    /// The budgets, in the order they were first set.
    pub closed spec fn entries(&self) -> Seq<ProviderBudget> {
        self.budgets@
    }

    pub closed spec fn wf(&self) -> bool {
        forall|a: int, b: int|
            0 <= a < self.budgets@.len() && 0 <= b < self.budgets@.len() && a != b
                ==> !budget_is(#[trigger] self.budgets@[a], self.budgets@[b].tenant_id@, #[trigger] self.budgets@[b].period)
    }

    pub fn new() -> (r: Self)
        ensures
            r.wf(),
            r.entries() == Seq::<ProviderBudget>::empty(),
    {
        BudgetServiceImpl { budgets: Vec::new() }
    }

    fn position(&self, tenant_id: &str, period: ProviderBudgetPeriod) -> (r: Option<usize>)
        ensures
            match r {
                Some(i) => i < self.entries().len() && budget_is(self.entries()[i as int], tenant_id@, period),
                None => forall|j: int| 0 <= j < self.entries().len() ==> !budget_is(#[trigger] self.entries()[j], tenant_id@, period),
            },
    {
        let t = tenant_id.to_owned();
        let mut i: usize = 0;
        while i < self.budgets.len()
            invariant
                i <= self.budgets@.len(),
                t@ == tenant_id@,
                forall|j: int| 0 <= j < i ==> !budget_is(#[trigger] self.budgets@[j], tenant_id@, period),
            decreases self.budgets@.len() - i,
        {
            if self.budgets[i].tenant_id == t && self.budgets[i].period == period {
                return Some(i);
            }
            i = i + 1;
        }
        None
    }

    /// Sets a tenant's budget for a period. A budget set before keeps its
    /// place and the spend recorded against it; its limit and alert
    /// threshold are replaced. Returns the budget as it now stands.
    pub fn set_budget(
        &mut self,
        tenant_id: &str,
        period: ProviderBudgetPeriod,
        limit_micros: u64,
        alert_threshold_percent: u32,
    ) -> (r: ProviderBudget)
        requires
            old(self).wf(),
        ensures
            final(self).wf(),
            r.tenant_id@ == tenant_id@,
            r.budget_id@ == budget_id_spec(tenant_id@, period),
            r.period == period,
            r.limit_micros == limit_micros,
            r.alert_threshold_percent == alert_threshold_percent,
            (exists|i: int| 0 <= i < old(self).entries().len() && budget_is(old(self).entries()[i], tenant_id@, period)
                && r.current_spend_micros == old(self).entries()[i].current_spend_micros
                && final(self).entries() == old(self).entries().update(i, r))
            || ((forall|j: int| 0 <= j < old(self).entries().len() ==> !budget_is(#[trigger] old(self).entries()[j], tenant_id@, period))
                && r.current_spend_micros == 0 && final(self).entries() == old(self).entries().push(r)),
    {
        let budget_id = budget_id_for(tenant_id, period);
        match self.position(tenant_id, period) {
            Some(i) => {
                let spend = self.budgets[i].current_spend_micros;
                let b = ProviderBudget {
                    tenant_id: tenant_id.to_owned(),
                    budget_id,
                    period,
                    limit_micros,
                    current_spend_micros: spend,
                    alert_threshold_percent,
                };
                let out = b.duplicate();
                self.budgets.set(i, b);
                proof {
                    assert forall|a: int, c: int|
                        0 <= a < self.budgets@.len() && 0 <= c < self.budgets@.len() && a != c implies !budget_is(
                        #[trigger] self.budgets@[a],
                        self.budgets@[c].tenant_id@,
                        #[trigger] self.budgets@[c].period,
                    ) by {
                        if a != i && c != i {
                            assert(old(self).budgets@[a] == self.budgets@[a]);
                            assert(old(self).budgets@[c] == self.budgets@[c]);
                        } else if a == i {
                            assert(old(self).budgets@[c] == self.budgets@[c]);
                            assert(!budget_is(old(self).budgets@[c], old(self).budgets@[a as int].tenant_id@, old(self).budgets@[a as int].period));
                        } else {
                            assert(old(self).budgets@[a] == self.budgets@[a]);
                        }
                    }
                }
                out
            },
            None => {
                let b = ProviderBudget {
                    tenant_id: tenant_id.to_owned(),
                    budget_id,
                    period,
                    limit_micros,
                    current_spend_micros: 0,
                    alert_threshold_percent,
                };
                let out = b.duplicate();
                self.budgets.push(b);
                proof {
                    assert forall|a: int, c: int|
                        0 <= a < self.budgets@.len() && 0 <= c < self.budgets@.len() && a != c implies !budget_is(
                        #[trigger] self.budgets@[a],
                        self.budgets@[c].tenant_id@,
                        #[trigger] self.budgets@[c].period,
                    ) by {
                        let n = old(self).budgets@.len() as int;
                        if a != n && c != n {
                            assert(old(self).budgets@[a] == self.budgets@[a]);
                            assert(old(self).budgets@[c] == self.budgets@[c]);
                        } else if a == n {
                            assert(old(self).budgets@[c] == self.budgets@[c]);
                        } else {
                            assert(old(self).budgets@[a] == self.budgets@[a]);
                        }
                    }
                }
                out
            },
        }
    }

    /// A tenant's budget for a period, if one was set.
    pub fn get_budget(&self, tenant_id: &str, period: ProviderBudgetPeriod) -> (r: Option<ProviderBudget>)
        ensures
            match r {
                Some(b) => exists|i: int| 0 <= i < self.entries().len() && budget_is(self.entries()[i], tenant_id@, period)
                    && b == self.entries()[i],
                None => forall|j: int| 0 <= j < self.entries().len() ==> !budget_is(#[trigger] self.entries()[j], tenant_id@, period),
            },
    {
        match self.position(tenant_id, period) {
            Some(i) => Some(self.budgets[i].duplicate()),
            None => None,
        }
    }

    /// A tenant's budgets, in the order they were first set.
    pub fn list_budgets(&self, tenant_id: &str) -> (r: Vec<ProviderBudget>)
        ensures
            r@ == self.entries().filter(|b: ProviderBudget| b.tenant_id@ == tenant_id@),
    {
        let ghost f = |b: ProviderBudget| b.tenant_id@ == tenant_id@;
        let t = tenant_id.to_owned();
        let mut out: Vec<ProviderBudget> = Vec::new();
        let mut i: usize = 0;
        while i < self.budgets.len()
            invariant
                i <= self.budgets@.len(),
                t@ == tenant_id@,
                f == (|b: ProviderBudget| b.tenant_id@ == tenant_id@),
                out@ == self.budgets@.take(i as int).filter(f),
            decreases self.budgets@.len() - i,
        {
            proof {
                assert(self.budgets@.take(i + 1) =~= self.budgets@.take(i as int).push(self.budgets@[i as int]));
                self.budgets@.take(i as int).lemma_filter_push(self.budgets@[i as int], f);
            }
            if self.budgets[i].tenant_id == t {
                out.push(self.budgets[i].duplicate());
            }
            i = i + 1;
        }
        assert(self.budgets@.take(self.budgets@.len() as int) =~= self.budgets@);
        out
    }

    /// The status over a tenant's budgets.
    pub fn check_budget(&self, tenant_id: &str) -> (r: BudgetStatus)
        ensures
            r == budget_status_spec(self.entries().filter(|b: ProviderBudget| b.tenant_id@ == tenant_id@)),
    {
        let budgets = self.list_budgets(tenant_id);
        budget_status(&budgets)
    }
}

} // verus!
