//! Route resolution: which provider binding serves a request.
//!
//! The simple resolver takes the first active binding. The fallback chain
//! tries ranked bindings in order, vetoes each whose required capabilities
//! the provider lacks, selects the first that passes, and records an
//! attempt for every binding it considered.
use vstd::prelude::*;
use crate::text::{decimal, decimal_chars, push_all, push_str, string_from_chars, string_views};

verus! {

/// The first required capability (by position) missing from `available`.
pub open spec fn first_missing(required: Seq<Seq<char>>, available: Seq<Seq<char>>, k: int) -> bool {
    &&& 0 <= k < required.len()
    &&& !available.contains(required[k])
    &&& forall|j: int| 0 <= j < k ==> available.contains(#[trigger] required[j])
}

/// Whether every required capability is available.
pub open spec fn capabilities_met(required: Seq<Seq<char>>, available: Seq<Seq<char>>) -> bool {
    forall|j: int| 0 <= j < required.len() ==> available.contains(#[trigger] required[j])
}

fn contains_text(v: &Vec<String>, s: &String) -> (r: bool)
    ensures
        r == string_views(v@).contains(s@),
{
    crate::text::contains_string(v, s)
}

/// The first required capability that `available` lacks, if any.
pub fn check_required_capabilities(required: &Vec<String>, available: &Vec<String>) -> (r: Option<usize>)
    ensures
        match r {
            Some(k) => first_missing(string_views(required@), string_views(available@), k as int),
            None => capabilities_met(string_views(required@), string_views(available@)),
        },
{
    let mut k: usize = 0;
    while k < required.len()
        invariant
            k <= required@.len(),
            forall|j: int| 0 <= j < k ==> string_views(available@).contains(#[trigger] string_views(required@)[j]),
        decreases required@.len() - k,
    {
        if !contains_text(available, &required[k]) {
            return Some(k);
        }
        k = k + 1;
    }
    None
}

/// A binding ranked for fallback: its id, the capabilities it requires,
/// and those its provider offers (by name).
#[derive(Debug)]
pub struct RankedBinding {
    pub provider_binding_id: String,
    pub required_capabilities: Vec<String>,
    pub available_capabilities: Vec<String>,
}

/// How resolution ended.
#[derive(Debug, Clone, Copy, PartialEq, Eq, Structural)]
pub enum RouteStatus {
    Selected,
    NoViableRoute,
}

/// What an attempt decided.
#[derive(Debug, Clone, Copy, PartialEq, Eq, Structural)]
pub enum AttemptDecision {
    Selected,
    /// Vetoed for a missing required capability.
    Vetoed,
}

/// One binding considered.
#[derive(Debug)]
pub struct RouteAttempt {
    pub route_attempt_id: String,
    pub route_decision_id: String,
    pub project_id: String,
    pub provider_binding_id: String,
    pub attempt_index: u16,
    pub decision: AttemptDecision,
    pub skip_reason: Option<String>,
}

/// The outcome of a resolution.
#[derive(Debug)]
pub struct RouteDecision {
    pub route_decision_id: String,
    pub project_id: String,
    pub terminal_route_attempt_id: Option<String>,
    pub selected_provider_binding_id: Option<String>,
    pub selected_route_attempt_id: Option<String>,
    pub attempt_count: u16,
    pub fallback_used: bool,
    pub final_status: RouteStatus,
}

/// The id of a decision made at `ts`.
pub open spec fn decision_id(ts: u64) -> Seq<char> {
    "rd_"@ + decimal(ts as nat)
}

/// The id of the `index`-th attempt of a fallback resolution made at `ts`.
pub open spec fn attempt_id(ts: u64, index: nat) -> Seq<char> {
    "ra_"@ + decimal(ts as nat) + "_"@ + decimal(index)
}

/// Whether a ranked binding passes its capability check.
pub open spec fn passes(b: RankedBinding) -> bool {
    capabilities_met(string_views(b.required_capabilities@), string_views(b.available_capabilities@))
}

/// Whether `i` is the first ranked binding that passes.
pub open spec fn first_passing(ranked: Seq<RankedBinding>, i: int) -> bool {
    &&& 0 <= i < ranked.len()
    &&& passes(ranked[i])
    &&& forall|j: int| 0 <= j < i ==> !passes(#[trigger] ranked[j])
}

/// Whether `a` records binding `b` as the `j`-th attempt of a resolution
/// made at `ts` for project `project_id`: vetoed with the first missing
/// capability, or selected.
pub open spec fn attempt_for(a: RouteAttempt, b: RankedBinding, j: int, ts: u64, project_id: Seq<char>) -> bool {
    &&& a.route_attempt_id@ == attempt_id(ts, j as nat)
    &&& a.route_decision_id@ == decision_id(ts)
    &&& a.project_id@ == project_id
    &&& a.provider_binding_id@ == b.provider_binding_id@
    &&& a.attempt_index == j as u16
    &&& if passes(b) {
        a.decision == AttemptDecision::Selected && a.skip_reason is None
    } else {
        a.decision == AttemptDecision::Vetoed && (a.skip_reason matches Some(reason) && exists|k: int|
            first_missing(string_views(b.required_capabilities@), string_views(b.available_capabilities@), k)
            && reason@ == "missing capability: "@ + b.required_capabilities@[k]@)
    }
}

fn id_with(prefix: &str, n: u64) -> (r: Vec<char>)
    ensures
        r@ == prefix@ + decimal(n as nat),
{
    let mut v: Vec<char> = Vec::new();
    push_str(&mut v, prefix);
    let d = decimal_chars(n);
    push_all(&mut v, d.as_slice());
    v
}

/// A resolver over a ranked fallback chain.
pub struct FallbackChainResolver {
    pub ranked: Vec<RankedBinding>,
}

impl FallbackChainResolver {
    /// A resolver over bindings ranked from the primary down.
    pub fn new(ranked: Vec<RankedBinding>) -> (r: Self)
        ensures
            r.ranked@ == ranked@,
    {
        FallbackChainResolver { ranked }
    }

    /// Resolves at time `ts`: the decision, and an attempt for every binding
    /// considered, in order.
    pub fn resolve_with_attempts(&self, project_id: &String, ts: u64) -> (r: (RouteDecision, Vec<RouteAttempt>))
        ensures
            r.0.route_decision_id@ == decision_id(ts),
            r.0.project_id@ == project_id@,
            r.0.attempt_count == r.1@.len() as u16,
            forall|j: int| 0 <= j < r.1@.len() ==> attempt_for(#[trigger] r.1@[j], self.ranked@[j], j, ts, project_id@),
            match r.0.selected_provider_binding_id {
                Some(b) => exists|i: int| {
                    &&& first_passing(self.ranked@, i)
                    &&& b@ == self.ranked@[i].provider_binding_id@
                    &&& r.1@.len() == i + 1
                    &&& r.0.final_status == RouteStatus::Selected
                    &&& r.0.fallback_used == (i > 0)
                    &&& r.0.selected_route_attempt_id matches Some(a) && a@ == attempt_id(ts, i as nat)
                    &&& r.0.terminal_route_attempt_id matches Some(a) && a@ == attempt_id(ts, i as nat)
                },
                None => {
                    &&& forall|j: int| 0 <= j < self.ranked@.len() ==> !passes(#[trigger] self.ranked@[j])
                    &&& r.1@.len() == self.ranked@.len()
                    &&& r.0.final_status == RouteStatus::NoViableRoute
                    &&& !r.0.fallback_used
                    &&& r.0.selected_route_attempt_id is None
                    &&& r.0.terminal_route_attempt_id is None
                },
            },
    {
        let rd = id_with("rd_", ts);
        let decision_id_text = string_from_chars(rd.as_slice());
        let ra = id_with("ra_", ts);
        let mut attempts: Vec<RouteAttempt> = Vec::new();
        let mut index: usize = 0;
        while index < self.ranked.len()
            invariant
                index <= self.ranked@.len(),
                decision_id_text@ == decision_id(ts),
                ra@ == "ra_"@ + decimal(ts as nat),
                attempts@.len() == index,
                forall|j: int| 0 <= j < index ==> !passes(#[trigger] self.ranked@[j]),
                forall|j: int| 0 <= j < index ==> attempt_for(#[trigger] attempts@[j], self.ranked@[j], j, ts, project_id@),
            decreases self.ranked@.len() - index,
        {
            let b = &self.ranked[index];
            let mut aid = ra.clone();
            push_str(&mut aid, "_");
            let d = decimal_chars(index as u64);
            push_all(&mut aid, d.as_slice());
            let attempt_id_text = string_from_chars(aid.as_slice());
            proof {
                assert(attempt_id_text@ =~= attempt_id(ts, index as nat));
            }
            match check_required_capabilities(&b.required_capabilities, &b.available_capabilities) {
                Some(k) => {
                    let mut reason: Vec<char> = Vec::new();
                    push_str(&mut reason, "missing capability: ");
                    push_str(&mut reason, b.required_capabilities[k].as_str());
                    let reason_text = string_from_chars(reason.as_slice());
                    let a = RouteAttempt {
                        route_attempt_id: attempt_id_text,
                        route_decision_id: decision_id_text.clone(),
                        project_id: project_id.clone(),
                        provider_binding_id: b.provider_binding_id.clone(),
                        attempt_index: index as u16,
                        decision: AttemptDecision::Vetoed,
                        skip_reason: Some(reason_text),
                    };
                    proof {
                        assert(string_views(b.required_capabilities@)[k as int] == b.required_capabilities@[k as int]@);
                        assert(!passes(*b));
                        assert(attempt_for(a, self.ranked@[index as int], index as int, ts, project_id@));
                    }
                    attempts.push(a);
                },
                None => {
                    let sel = attempt_id_text.clone();
                    let term = attempt_id_text.clone();
                    let a = RouteAttempt {
                        route_attempt_id: attempt_id_text,
                        route_decision_id: decision_id_text.clone(),
                        project_id: project_id.clone(),
                        provider_binding_id: b.provider_binding_id.clone(),
                        attempt_index: index as u16,
                        decision: AttemptDecision::Selected,
                        skip_reason: None,
                    };
                    attempts.push(a);
                    let count = attempts.len() as u16;
                    let decision = RouteDecision {
                        route_decision_id: decision_id_text,
                        project_id: project_id.clone(),
                        terminal_route_attempt_id: Some(term),
                        selected_provider_binding_id: Some(b.provider_binding_id.clone()),
                        selected_route_attempt_id: Some(sel),
                        attempt_count: count,
                        fallback_used: index > 0,
                        final_status: RouteStatus::Selected,
                    };
                    proof {
                        assert(first_passing(self.ranked@, index as int));
                    }
                    return (decision, attempts);
                },
            }
            index = index + 1;
        }
        let count = attempts.len() as u16;
        let decision = RouteDecision {
            route_decision_id: decision_id_text,
            project_id: project_id.clone(),
            terminal_route_attempt_id: None,
            selected_provider_binding_id: None,
            selected_route_attempt_id: None,
            attempt_count: count,
            fallback_used: false,
            final_status: RouteStatus::NoViableRoute,
        };
        (decision, attempts)
    }
}

/// The simple resolver's decision over the active bindings (in their
/// order): the first is selected with one attempt (`ra_<attempt_at>`);
/// with none, no viable route. The decision id is `rd_<decided_at>`.
pub fn resolve_first(active_binding_ids: &Vec<String>, project_id: &String, attempt_at: u64, decided_at: u64) -> (r: RouteDecision)
    ensures
        r.route_decision_id@ == decision_id(decided_at),
        r.project_id@ == project_id@,
        !r.fallback_used,
        active_binding_ids@.len() == 0 ==> {
            &&& r.final_status == RouteStatus::NoViableRoute
            &&& r.attempt_count == 0
            &&& r.selected_provider_binding_id is None
            &&& r.selected_route_attempt_id is None
            &&& r.terminal_route_attempt_id is None
        },
        active_binding_ids@.len() > 0 ==> {
            &&& r.final_status == RouteStatus::Selected
            &&& r.attempt_count == 1
            &&& r.selected_provider_binding_id matches Some(b) && b@ == active_binding_ids@[0]@
            &&& r.selected_route_attempt_id matches Some(a) && a@ == "ra_"@ + decimal(attempt_at as nat)
            &&& r.terminal_route_attempt_id matches Some(a) && a@ == "ra_"@ + decimal(attempt_at as nat)
        },
{
    let rd = id_with("rd_", decided_at);
    if active_binding_ids.len() == 0 {
        return RouteDecision {
            route_decision_id: string_from_chars(rd.as_slice()),
            project_id: project_id.clone(),
            terminal_route_attempt_id: None,
            selected_provider_binding_id: None,
            selected_route_attempt_id: None,
            attempt_count: 0,
            fallback_used: false,
            final_status: RouteStatus::NoViableRoute,
        };
    }
    let ra = id_with("ra_", attempt_at);
    let attempt = string_from_chars(ra.as_slice());
    RouteDecision {
        route_decision_id: string_from_chars(rd.as_slice()),
        project_id: project_id.clone(),
        terminal_route_attempt_id: Some(attempt.clone()),
        selected_provider_binding_id: Some(active_binding_ids[0].clone()),
        selected_route_attempt_id: Some(attempt),
        attempt_count: 1,
        fallback_used: false,
        final_status: RouteStatus::Selected,
    }
}

/// A chain whose primary passes its capability check resolves to the
/// primary, without fallback; and a binding that is vetoed is never the
/// selected one.
pub proof fn law_primary_preferred(ranked: Seq<RankedBinding>, i: int)
    requires
        first_passing(ranked, i),
    ensures
        passes(ranked[0]) ==> i == 0,
        passes(ranked[i]),
{
}

} // verus!
