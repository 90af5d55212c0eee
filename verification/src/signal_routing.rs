//! Signal subscriptions, and the routing of an ingested signal to the
//! subscriptions of its kind.
//!
//! The store is read by the caller: it hands over the signal, the
//! subscriptions of the signal's kind (with whether each one's target run
//! exists) and the subscriptions the signal was already routed to. The
//! functions here decide what is delivered, so that routing the same signal
//! again never delivers it twice.
use vstd::prelude::*;
use crate::domain::ProjectKey;
use crate::text::{
    chars_of, clone_opt_string, contains_chars, contains_string, decimal, decimal_chars, has_sub,
    opt_str_view, push_all, push_str, string_from_chars, string_views,
};

verus! {

/// Why a subscription is refused.
#[derive(Debug)]
pub enum SubscribeError {
    /// Neither a run nor a mailbox was named.
    NoTarget,
    /// The named run does not exist.
    RunNotFound(String),
}

/// A signal subscription.
#[derive(Debug)]
pub struct SignalSubscription {
    pub subscription_id: String,
    pub project: ProjectKey,
    pub signal_kind: String,
    pub target_run_id: Option<String>,
    pub target_mailbox_id: Option<String>,
    pub filter_expression: Option<String>,
    pub created_at_ms: u64,
    pub signal_type: String,
    pub target: String,
}

/// The id given to a subscription made at `now`.
pub open spec fn subscription_id_at(now: u64) -> Seq<char> {
    "signal_sub_"@ + decimal(now as nat)
}

/// Makes a subscription to signals of `signal_kind`, delivered to a run, a
/// mailbox, or both. `run_exists` says whether the named run exists (it is
/// read only when a run is named).
pub fn subscribe(
    project: ProjectKey,
    signal_kind: String,
    target_run_id: Option<String>,
    target_mailbox_id: Option<String>,
    filter_expression: Option<String>,
    run_exists: bool,
    now: u64,
) -> (r: Result<SignalSubscription, SubscribeError>)
    ensures
        target_run_id is None && target_mailbox_id is None ==> r matches Err(SubscribeError::NoTarget),
        target_run_id is Some && !run_exists ==> (r matches Err(SubscribeError::RunNotFound(id))
            && id@ == target_run_id->0@),
        (target_run_id is Some || target_mailbox_id is Some) && (target_run_id is Some ==> run_exists)
            ==> r is Ok,
        r matches Ok(s) ==> {
            &&& s.subscription_id@ == subscription_id_at(now)
            &&& s.project@ == project@
            &&& s.signal_kind@ == signal_kind@
            &&& s.signal_type@ == signal_kind@
            &&& opt_str_view(s.target_run_id) == opt_str_view(target_run_id)
            &&& opt_str_view(s.target_mailbox_id) == opt_str_view(target_mailbox_id)
            &&& opt_str_view(s.filter_expression) == opt_str_view(filter_expression)
            &&& s.created_at_ms == now
            &&& s.target@ == match target_run_id {
                Some(id) => id@,
                None => Seq::empty(),
            }
        },
{
    if target_run_id.is_none() && target_mailbox_id.is_none() {
        return Err(SubscribeError::NoTarget);
    }
    if let Some(id) = &target_run_id {
        if !run_exists {
            return Err(SubscribeError::RunNotFound(id.clone()));
        }
    }
    let mut sid: Vec<char> = Vec::new();
    push_str(&mut sid, "signal_sub_");
    let digits = decimal_chars(now);
    push_all(&mut sid, digits.as_slice());
    let target = match &target_run_id {
        Some(id) => id.clone(),
        None => String::new(),
    };
    let kind_copy = signal_kind.clone();
    Ok(SignalSubscription {
        subscription_id: string_from_chars(sid.as_slice()),
        project,
        signal_kind,
        target_run_id,
        target_mailbox_id,
        filter_expression,
        created_at_ms: now,
        signal_type: kind_copy,
        target,
    })
}

/// The signal being routed: its id, its project and its payload as JSON text.
#[derive(Debug)]
pub struct RoutedSignal {
    pub id: String,
    pub project: ProjectKey,
    pub payload_text: String,
}

/// A subscription of the signal's kind, as routing reads it.
#[derive(Debug)]
pub struct RouteCandidate {
    pub subscription_id: String,
    /// The subscription's project; a subscription without one takes the signal's.
    pub project: Option<ProjectKey>,
    pub target_run_id: Option<String>,
    pub target_mailbox_id: Option<String>,
    pub filter_expression: Option<String>,
    /// Whether the target run exists; read only when a run is named.
    pub run_exists: bool,
}

/// What routing does for one subscription.
#[derive(Debug)]
pub struct Delivery {
    pub subscription_id: String,
    pub project: ProjectKey,
    /// The mailbox message appended for it: the message id and the run it
    /// is addressed to.
    pub message: Option<(String, Option<String>)>,
}

/// A delivery as plain values.
pub type DeliveryView = (Seq<char>, (Seq<char>, Seq<char>, Seq<char>), Option<(Seq<char>, Option<Seq<char>>)>);

pub open spec fn delivery_view(d: Delivery) -> DeliveryView {
    (d.subscription_id@, d.project@, match d.message {
        Some((id, run)) => Some((id@, opt_str_view(run))),
        None => None,
    })
}

pub open spec fn delivery_views(ds: Seq<Delivery>) -> Seq<DeliveryView> {
    ds.map_values(|d: Delivery| delivery_view(d))
}

/// The project a subscription routes in.
pub open spec fn candidate_project(sig: RoutedSignal, c: RouteCandidate) -> (Seq<char>, Seq<char>, Seq<char>) {
    match c.project {
        Some(p) => p@,
        None => sig.project@,
    }
}

/// Whether the payload passes a subscription's filter: no filter, or the
/// filter text occurs in the payload's JSON text.
pub open spec fn passes_filter(payload: Seq<char>, filter: Option<String>) -> bool {
    match filter {
        Some(f) => has_sub(payload, f@),
        None => true,
    }
}

/// Whether the signal is delivered to a subscription: same project,
/// payload passes its filter, not delivered there before, and its target run
/// (if it names one) exists.
pub open spec fn selected(sig: RoutedSignal, c: RouteCandidate, already: Seq<Seq<char>>) -> bool {
    &&& candidate_project(sig, c) == sig.project@
    &&& passes_filter(sig.payload_text@, c.filter_expression)
    &&& !already.contains(c.subscription_id@)
    &&& (c.target_run_id is Some ==> c.run_exists)
}

/// The mailbox message for a delivered subscription: to its mailbox when it
/// names one, with an id made from the mailbox and the signal; else to its
/// run, with an id made from the subscription and the signal.
pub open spec fn message_of(sig: RoutedSignal, c: RouteCandidate) -> Option<(Seq<char>, Option<Seq<char>>)> {
    match c.target_mailbox_id {
        Some(m) => Some(("signal_route_"@ + m@ + "_"@ + sig.id@, opt_str_view(c.target_run_id))),
        None => match c.target_run_id {
            Some(run) => Some(("signal_route_"@ + c.subscription_id@ + "_"@ + sig.id@, Some(run@))),
            None => None,
        },
    }
}

/// The deliveries for a list of subscriptions, in order.
pub open spec fn route_plan(sig: RoutedSignal, cands: Seq<RouteCandidate>, already: Seq<Seq<char>>) -> Seq<DeliveryView>
    decreases cands.len(),
{
    if cands.len() == 0 {
        Seq::empty()
    } else {
        let rest = route_plan(sig, cands.drop_last(), already);
        let c = cands.last();
        if selected(sig, c, already) {
            rest.push((c.subscription_id@, candidate_project(sig, c), message_of(sig, c)))
        } else {
            rest
        }
    }
}

/// The mailbox message ids of a list of deliveries, in order.
pub open spec fn message_ids(plan: Seq<DeliveryView>) -> Seq<Seq<char>>
    decreases plan.len(),
{
    if plan.len() == 0 {
        Seq::empty()
    } else {
        match plan.last().2 {
            Some((id, _)) => message_ids(plan.drop_last()).push(id),
            None => message_ids(plan.drop_last()),
        }
    }
}

/// The subscription ids of a list of deliveries.
pub open spec fn delivered_ids(plan: Seq<DeliveryView>) -> Seq<Seq<char>> {
    plan.map_values(|d: DeliveryView| d.0)
}

fn copy_project(p: &ProjectKey) -> (r: ProjectKey)
    ensures
        r@ == p@,
{
    p.duplicate()
}

fn route_id(a: &String, b: &String) -> (r: String)
    ensures
        r@ == "signal_route_"@ + a@ + "_"@ + b@,
{
    let mut v: Vec<char> = Vec::new();
    push_str(&mut v, "signal_route_");
    push_str(&mut v, a.as_str());
    push_str(&mut v, "_");
    push_str(&mut v, b.as_str());
    string_from_chars(v.as_slice())
}

/// Decides the deliveries of a signal: for each subscription of its kind,
/// in order, whether it is delivered and with which mailbox message.
pub fn route_signal(sig: &RoutedSignal, cands: &Vec<RouteCandidate>, already: &Vec<String>) -> (r: Vec<Delivery>)
    ensures
        delivery_views(r@) == route_plan(*sig, cands@, string_views(already@)),
{
    let ghost al = string_views(already@);
    let payload = chars_of(sig.payload_text.as_str());
    let mut out: Vec<Delivery> = Vec::new();
    let mut i: usize = 0;
    while i < cands.len()
        invariant
            i <= cands@.len(),
            al == string_views(already@),
            payload@ == sig.payload_text@,
            delivery_views(out@) == route_plan(*sig, cands@.take(i as int), al),
        decreases cands@.len() - i,
    {
        let c = &cands[i];
        proof {
            assert(cands@.take(i + 1).drop_last() =~= cands@.take(i as int));
            assert(cands@.take(i + 1).last() == cands@[i as int]);
        }
        let project = match &c.project {
            Some(p) => copy_project(p),
            None => copy_project(&sig.project),
        };
        let same = project.same(&sig.project);
        let passes = match &c.filter_expression {
            Some(f) => {
                let fc = chars_of(f.as_str());
                contains_chars(payload.as_slice(), fc.as_slice())
            },
            None => true,
        };
        let seen = contains_string(already, &c.subscription_id);
        let run_ok = c.target_run_id.is_none() || c.run_exists;
        if same && passes && !seen && run_ok {
            let message = match &c.target_mailbox_id {
                Some(m) => Some((route_id(m, &sig.id), clone_opt_string(&c.target_run_id))),
                None => match &c.target_run_id {
                    Some(run) => Some((route_id(&c.subscription_id, &sig.id), Some(run.clone()))),
                    None => None,
                },
            };
            let d = Delivery { subscription_id: c.subscription_id.clone(), project, message };
            let ghost before = out@;
            out.push(d);
            proof {
                assert(delivery_views(out@) =~= delivery_views(before).push(delivery_view(d)));
            }
        }
        i = i + 1;
    }
    assert(cands@.take(cands@.len() as int) =~= cands@);
    out
}

/// The mailbox message ids of a routing, in order, and their number.
pub fn routed_messages(deliveries: &Vec<Delivery>) -> (r: (u32, Vec<String>))
    ensures
        string_views(r.1@) == message_ids(delivery_views(deliveries@)),
        r.0 == r.1@.len() as u32,
{
    let ghost dv = delivery_views(deliveries@);
    let mut ids: Vec<String> = Vec::new();
    let mut i: usize = 0;
    while i < deliveries.len()
        invariant
            i <= deliveries@.len(),
            dv == delivery_views(deliveries@),
            string_views(ids@) == message_ids(dv.take(i as int)),
        decreases deliveries@.len() - i,
    {
        proof {
            assert(dv.take(i + 1).drop_last() =~= dv.take(i as int));
            assert(dv.take(i + 1).last() == delivery_view(deliveries@[i as int]));
        }
        match &deliveries[i].message {
            Some((id, _)) => {
                let ghost before = ids@;
                ids.push(id.clone());
                proof {
                    assert(string_views(ids@) =~= string_views(before).push(id@));
                }
            },
            None => {},
        }
        i = i + 1;
    }
    assert(dv.take(dv.len() as int) =~= dv);
    let n = ids.len() as u32;
    (n, ids)
}

/// A subscription selected for a plan was delivered by it.
proof fn lemma_selected_delivered(sig: RoutedSignal, cands: Seq<RouteCandidate>, already: Seq<Seq<char>>, j: int)
    requires
        0 <= j < cands.len(),
        selected(sig, cands[j], already),
    ensures
        delivered_ids(route_plan(sig, cands, already)).contains(cands[j].subscription_id@),
    decreases cands.len(),
{
    let plan = route_plan(sig, cands, already);
    let rest = route_plan(sig, cands.drop_last(), already);
    if j == cands.len() - 1 {
        assert(delivered_ids(plan)[plan.len() - 1] == cands[j].subscription_id@);
    } else {
        lemma_selected_delivered(sig, cands.drop_last(), already, j);
        let k = choose|k: int| 0 <= k < delivered_ids(rest).len() && delivered_ids(rest)[k] == cands[j].subscription_id@;
        assert(plan[k] == rest[k]);
        assert(delivered_ids(plan)[k] == cands[j].subscription_id@);
    }
}

proof fn lemma_plan_empty_when_none_selected(sig: RoutedSignal, cands: Seq<RouteCandidate>, already: Seq<Seq<char>>)
    requires
        forall|j: int| 0 <= j < cands.len() ==> !selected(sig, #[trigger] cands[j], already),
    ensures
        route_plan(sig, cands, already).len() == 0,
    decreases cands.len(),
{
    if cands.len() > 0 {
        assert forall|j: int| 0 <= j < cands.drop_last().len() implies !selected(sig, #[trigger] cands.drop_last()[j], already) by {
            assert(cands.drop_last()[j] == cands[j]);
        }
        lemma_plan_empty_when_none_selected(sig, cands.drop_last(), already);
        assert(!selected(sig, cands[cands.len() - 1], already));
    }
}

/// Routing a signal again, once the subscriptions it was delivered to are
/// recorded as routed, delivers nothing: a retry or a replay does not
/// deliver a signal twice.
pub proof fn law_routing_is_idempotent(sig: RoutedSignal, cands: Seq<RouteCandidate>, already: Seq<Seq<char>>)
    ensures
        route_plan(sig, cands, already + delivered_ids(route_plan(sig, cands, already))).len() == 0,
{
    let first = route_plan(sig, cands, already);
    let al2 = already + delivered_ids(first);
    assert forall|j: int| 0 <= j < cands.len() implies !selected(sig, #[trigger] cands[j], al2) by {
        if selected(sig, cands[j], al2) {
            assert(!al2.contains(cands[j].subscription_id@));
            assert forall|x: Seq<char>| already.contains(x) implies al2.contains(x) by {
                let k = choose|k: int| 0 <= k < already.len() && already[k] == x;
                assert(al2[k] == x);
            }
            assert(selected(sig, cands[j], already));
            lemma_selected_delivered(sig, cands, already, j);
            let k = choose|k: int| 0 <= k < delivered_ids(first).len() && delivered_ids(first)[k] == cands[j].subscription_id@;
            assert(al2[already.len() + k] == cands[j].subscription_id@);
        }
    }
    lemma_plan_empty_when_none_selected(sig, cands, al2);
}

/// A signal is delivered only to subscriptions of its own project.
pub proof fn law_routing_stays_in_project(sig: RoutedSignal, cands: Seq<RouteCandidate>, already: Seq<Seq<char>>, k: int)
    requires
        0 <= k < route_plan(sig, cands, already).len(),
    ensures
        route_plan(sig, cands, already)[k].1 == sig.project@,
        !already.contains(route_plan(sig, cands, already)[k].0),
    decreases cands.len(),
{
    let rest = route_plan(sig, cands.drop_last(), already);
    if k < rest.len() {
        law_routing_stays_in_project(sig, cands.drop_last(), already, k);
    }
}

} // verus!
