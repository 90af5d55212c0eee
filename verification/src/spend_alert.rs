//! Spend alerts: a per-tenant threshold on session cost, and an alert the
//! first time a session's cost reaches it.
use vstd::prelude::*;
use crate::alist::TextMap;
use crate::clock::{at_time, now_ms};
use crate::text::{concat3, contains_string, decimal, decimal_string, string_views};

verus! {

/// A tenant's spend threshold.
#[derive(Debug)]
pub struct SpendThresholdRecord {
    pub tenant_id: String,
    pub threshold_micros: u64,
    pub set_at_ms: u64,
}

/// An alert raised for a session whose cost reached its tenant's threshold.
#[derive(Debug)]
pub struct SpendAlert {
    pub alert_id: String,
    pub tenant_id: String,
    pub session_id: String,
    pub threshold_micros: u64,
    pub current_micros: u64,
    pub triggered_at_ms: u64,
}

/// The id of an alert raised for a tenant at time `now`.
pub open spec fn alert_id_spec(tenant_id: Seq<char>, now: u64) -> Seq<char> {
    "alert_"@ + tenant_id + "_"@ + decimal(now as nat)
}

/// Thresholds by tenant, and the sessions that have raised an alert.
pub struct SpendAlertServiceImpl {
    thresholds: TextMap<SpendThresholdRecord>,
    triggered_sessions: Vec<String>,
}

impl SpendAlertServiceImpl {
    /// The threshold of each tenant that has one.
    pub closed spec fn thresholds(&self) -> Map<Seq<char>, u64> {
        self.thresholds@.map_values(|r: SpendThresholdRecord| r.threshold_micros)
    }

    /// The sessions that have raised an alert.
    pub closed spec fn triggered(&self) -> Set<Seq<char>> {
        string_views(self.triggered_sessions@).to_set()
    }

    pub closed spec fn wf(&self) -> bool {
        self.thresholds.wf()
    }

    /// Whether a check of a session with the given cost raises an alert.
    pub open spec fn would_fire(&self, session_id: Seq<char>, tenant_id: Seq<char>, total: u64) -> bool {
        self.thresholds().contains_key(tenant_id) && !self.triggered().contains(session_id) && total >= self.thresholds()[tenant_id]
    }

    pub fn new() -> (r: Self)
        ensures
            r.wf(),
            r.thresholds() == Map::<Seq<char>, u64>::empty(),
            r.triggered() == Set::<Seq<char>>::empty(),
    {
        let r = SpendAlertServiceImpl { thresholds: TextMap::new(), triggered_sessions: Vec::new() };
        assert(r.thresholds() =~= Map::<Seq<char>, u64>::empty());
        assert(r.triggered() =~= Set::<Seq<char>>::empty());
        r
    }

    /// Sets a tenant's threshold, replacing any earlier one.
    pub fn set_threshold(&mut self, tenant_id: &str, threshold_micros: u64)
        requires
            old(self).wf(),
        ensures
            final(self).wf(),
            final(self).thresholds() == old(self).thresholds().insert(tenant_id@, threshold_micros),
            final(self).triggered() == old(self).triggered(),
    {
        let rec = SpendThresholdRecord { tenant_id: tenant_id.to_owned(), threshold_micros, set_at_ms: now_ms() };
        self.thresholds.insert(tenant_id.to_owned(), rec);
        assert(self.thresholds() =~= old(self).thresholds().insert(tenant_id@, threshold_micros));
    }

    /// Checks a session's cost (`None` when nothing was spent) against its
    /// tenant's threshold at time `now`. An alert is raised once per
    /// session: when the tenant has a threshold, the session has not raised
    /// one before, and the cost reaches the threshold.
    pub fn check_session_spend_at(&mut self, session_id: &str, tenant_id: &str, session_cost: Option<u64>, now: u64) -> (r: Option<SpendAlert>)
        requires
            old(self).wf(),
        ensures
            final(self).wf(),
            final(self).thresholds() == old(self).thresholds(),
            ({
                let total: u64 = match session_cost { Some(c) => c, None => 0 };
                let fires = old(self).would_fire(session_id@, tenant_id@, total);
                &&& fires ==> (r matches Some(a) && ({
                    &&& a.alert_id@ == alert_id_spec(tenant_id@, now)
                    &&& a.tenant_id@ == tenant_id@
                    &&& a.session_id@ == session_id@
                    &&& a.threshold_micros == old(self).thresholds()[tenant_id@]
                    &&& a.current_micros == total
                    &&& a.triggered_at_ms == now
                }) && final(self).triggered() == old(self).triggered().insert(session_id@))
                &&& !fires ==> r is None && final(self).triggered() == old(self).triggered()
            }),
    {
        let key = tenant_id.to_owned();
        let threshold = match self.thresholds.get(&key) {
            Some(rec) => rec.threshold_micros,
            None => return None,
        };
        let sid = session_id.to_owned();
        if contains_string(&self.triggered_sessions, &sid) {
            return None;
        }
        let total: u64 = match session_cost {
            Some(c) => c,
            None => 0,
        };
        if total < threshold {
            return None;
        }
        let head = concat3("alert_", tenant_id, "_");
        let digits = decimal_string(now);
        let alert_id = concat3(head.as_str(), digits.as_str(), "");
        proof {
            reveal_strlit("");
            assert(alert_id@ =~= alert_id_spec(tenant_id@, now));
        }
        let ghost before = string_views(self.triggered_sessions@);
        self.triggered_sessions.push(sid);
        proof {
            assert(string_views(self.triggered_sessions@) =~= before.push(session_id@));
            assert forall|x: Seq<char>| #[trigger] self.triggered().contains(x) == old(self).triggered().insert(session_id@).contains(x) by {
                if string_views(self.triggered_sessions@).contains(x) && x != session_id@ {
                    let j = choose|j: int| 0 <= j < string_views(self.triggered_sessions@).len() && string_views(self.triggered_sessions@)[j] == x;
                    assert(before[j] == x);
                }
                if before.contains(x) {
                    let j = choose|j: int| 0 <= j < before.len() && before[j] == x;
                    assert(string_views(self.triggered_sessions@)[j] == x);
                }
                if x == session_id@ {
                    assert(string_views(self.triggered_sessions@)[before.len() as int] == x);
                }
            }
            assert(self.triggered() =~= old(self).triggered().insert(session_id@));
        }
        Some(SpendAlert {
            alert_id,
            tenant_id: tenant_id.to_owned(),
            session_id: session_id.to_owned(),
            threshold_micros: threshold,
            current_micros: total,
            triggered_at_ms: now,
        })
    }

    /// `check_session_spend_at` at the clock's present reading.
    pub fn check_session_spend(&mut self, session_id: &str, tenant_id: &str, session_cost: Option<u64>) -> (r: Option<SpendAlert>)
        requires
            old(self).wf(),
        ensures
            final(self).wf(),
            final(self).thresholds() == old(self).thresholds(),
            ({
                let total: u64 = match session_cost { Some(c) => c, None => 0 };
                let fires = old(self).would_fire(session_id@, tenant_id@, total);
                &&& fires ==> (r matches Some(a) && a.tenant_id@ == tenant_id@ && a.session_id@ == session_id@
                    && a.threshold_micros == old(self).thresholds()[tenant_id@] && a.current_micros == total
                    && final(self).triggered() == old(self).triggered().insert(session_id@))
                &&& !fires ==> r is None && final(self).triggered() == old(self).triggered()
            }),
            exists|tm: u64| #[trigger] at_time(tm)
                && (({
                    let total: u64 = match session_cost { Some(c) => c, None => 0 };
                    let fires = old(self).would_fire(session_id@, tenant_id@, total);
                    &&& fires ==> (r matches Some(a) && ({
                        &&& a.alert_id@ == alert_id_spec(tenant_id@, tm)
                        &&& a.tenant_id@ == tenant_id@
                        &&& a.session_id@ == session_id@
                        &&& a.threshold_micros == old(self).thresholds()[tenant_id@]
                        &&& a.current_micros == total
                        &&& a.triggered_at_ms == tm
                    }) && final(self).triggered() == old(self).triggered().insert(session_id@))
                    &&& !fires ==> r is None && final(self).triggered() == old(self).triggered()
                })),
    {
        let now = now_ms();
        let r = self.check_session_spend_at(session_id, tenant_id, session_cost, now);
        assert(at_time(now));
        r
    }
}

/// A session raises at most one alert: a check that raised one leaves the
/// service in a state where no later check of the session raises another,
/// whatever the tenant's threshold and the session's cost.
pub proof fn law_alert_once_per_session(
    before: SpendAlertServiceImpl,
    after: SpendAlertServiceImpl,
    session_id: Seq<char>,
    tenant_id: Seq<char>,
    cost: u64,
)
    requires
        after.triggered() == before.triggered().insert(session_id),
    ensures
        !after.would_fire(session_id, tenant_id, cost),
{
}

/// When a spend check raises an alert: the tenant has a threshold, the
/// session has raised none yet, and its cost has reached the threshold; a
/// cost below the threshold, a tenant without one, or a session that
/// already raised one never alerts.
pub proof fn law_alert_needs_a_reached_threshold(s: SpendAlertServiceImpl, session_id: Seq<char>, tenant_id: Seq<char>, total: u64)
    ensures
        s.would_fire(session_id, tenant_id, total) == (s.thresholds().contains_key(tenant_id) && !s.triggered().contains(session_id)
            && total >= s.thresholds()[tenant_id]),
        s.thresholds().contains_key(tenant_id) && total < s.thresholds()[tenant_id] ==> !s.would_fire(session_id, tenant_id, total),
        !s.thresholds().contains_key(tenant_id) ==> !s.would_fire(session_id, tenant_id, total),
        s.triggered().contains(session_id) ==> !s.would_fire(session_id, tenant_id, total),
{
}

} // verus!
