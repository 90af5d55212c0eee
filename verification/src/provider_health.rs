//! Health of provider connections: what a health check records, when a
//! connection is marked degraded, and which bindings follow it out of and
//! back into service.
//!
//! The caller reads the connection's last health record and the tenant's
//! bindings from the store and appends the events that these decisions call
//! for.
use vstd::prelude::*;
use crate::domain::ProjectKey;
use crate::text::{decimal, decimal_chars, push_all, push_str, string_from_chars};

verus! {

/// Health of a provider connection.
#[derive(Debug, Clone, Copy, PartialEq, Eq, Structural)]
pub enum HealthStatus {
    Healthy,
    Degraded,
    Unreachable,
}

/// The last recorded health of a connection.
#[derive(Debug, Clone, Copy)]
pub struct PriorHealth {
    pub status: HealthStatus,
    pub consecutive_failures: u32,
}

/// Number of consecutive failed checks at which a connection is degraded.
pub const DEGRADE_AFTER_FAILURES: u32 = 3;

/// The failure count after a check.
pub open spec fn next_failures(prior: Option<PriorHealth>, success: bool) -> u32 {
    if success {
        match prior {
            Some(p) => if p.status == HealthStatus::Degraded { p.consecutive_failures } else { 0 },
            None => 0,
        }
    } else {
        match prior {
            Some(p) => if p.consecutive_failures == u32::MAX { u32::MAX } else { (p.consecutive_failures + 1) as u32 },
            None => 1,
        }
    }
}

/// The status a check records: a degraded connection stays degraded on
/// success (only a recovery lifts it); a failure degrades it from the third
/// consecutive one on, and leaves it unreachable before that.
pub open spec fn checked_status(prior: Option<PriorHealth>, success: bool) -> HealthStatus {
    if success {
        match prior {
            Some(p) => if p.status == HealthStatus::Degraded { HealthStatus::Degraded } else { HealthStatus::Healthy },
            None => HealthStatus::Healthy,
        }
    } else if next_failures(prior, success) >= DEGRADE_AFTER_FAILURES {
        HealthStatus::Degraded
    } else {
        HealthStatus::Unreachable
    }
}

/// Whether the check newly marks the connection degraded.
pub open spec fn newly_degraded(prior: Option<PriorHealth>, success: bool) -> bool {
    !success && next_failures(prior, success) >= DEGRADE_AFTER_FAILURES && !(prior matches Some(p)
        && p.status == HealthStatus::Degraded)
}

/// A provider binding, as the health decisions read it.
#[derive(Debug)]
pub struct BindingInfo {
    pub provider_binding_id: String,
    pub project: ProjectKey,
    pub provider_connection_id: String,
    pub active: bool,
}

/// A binding switched on or off.
#[derive(Debug)]
pub struct BindingChange {
    pub provider_binding_id: String,
    pub project: ProjectKey,
    pub active: bool,
}

/// What a health check records.
#[derive(Debug)]
pub struct CheckDecision {
    pub status: HealthStatus,
    pub consecutive_failures: u32,
    /// The reason of the degradation event, when the check newly degrades the connection.
    pub degrade_reason: Option<String>,
    /// The bindings taken out of service with it.
    pub binding_changes: Vec<BindingChange>,
}

pub open spec fn change_view(c: BindingChange) -> (Seq<char>, (Seq<char>, Seq<char>, Seq<char>), bool) {
    (c.provider_binding_id@, c.project@, c.active)
}

/// The bindings of `conn` that are in state `from`, switched to `!from`, in order.
pub open spec fn switched(bindings: Seq<BindingInfo>, conn: Seq<char>, from: bool) -> Seq<(Seq<char>, (Seq<char>, Seq<char>, Seq<char>), bool)>
    decreases bindings.len(),
{
    if bindings.len() == 0 {
        Seq::empty()
    } else {
        let rest = switched(bindings.drop_last(), conn, from);
        let b = bindings.last();
        if b.provider_connection_id@ == conn && b.active == from {
            rest.push((b.provider_binding_id@, b.project@, !from))
        } else {
            rest
        }
    }
}

/// The reason given when a connection is degraded.
pub open spec fn degrade_reason_text(failures: u32) -> Seq<char> {
    decimal(failures as nat) + " consecutive failed health checks"@
}

/// The bindings of `conn` whose activity is `from`, switched to `!from`.
pub fn switch_bindings(bindings: &Vec<BindingInfo>, conn: &String, from: bool) -> (r: Vec<BindingChange>)
    ensures
        r@.map_values(|c: BindingChange| change_view(c)) == switched(bindings@, conn@, from),
{
    let mut out: Vec<BindingChange> = Vec::new();
    let mut i: usize = 0;
    while i < bindings.len()
        invariant
            i <= bindings@.len(),
            out@.map_values(|c: BindingChange| change_view(c)) == switched(bindings@.take(i as int), conn@, from),
        decreases bindings@.len() - i,
    {
        proof {
            assert(bindings@.take(i + 1).drop_last() =~= bindings@.take(i as int));
            assert(bindings@.take(i + 1).last() == bindings@[i as int]);
        }
        let b = &bindings[i];
        if b.provider_connection_id == *conn && b.active == from {
            let ghost before = out@;
            out.push(BindingChange {
                provider_binding_id: b.provider_binding_id.clone(),
                project: b.project.duplicate(),
                active: !from,
            });
            proof {
                assert(out@.map_values(|c: BindingChange| change_view(c)) =~= before.map_values(
                    |c: BindingChange| change_view(c),
                ).push(change_view(out@.last())));
            }
        }
        i = i + 1;
    }
    assert(bindings@.take(bindings@.len() as int) =~= bindings@);
    out
}

/// What a health check of connection `conn` records, given its last health
/// record and the tenant's bindings: the new status and failure count, and,
/// when the check newly degrades the connection, the reason and the
/// deactivation of its active bindings.
pub fn record_check(prior: Option<PriorHealth>, success: bool, conn: &String, bindings: &Vec<BindingInfo>) -> (r: CheckDecision)
    ensures
        r.consecutive_failures == next_failures(prior, success),
        r.status == checked_status(prior, success),
        r.degrade_reason is Some == newly_degraded(prior, success),
        r.degrade_reason matches Some(m) ==> m@ == degrade_reason_text(r.consecutive_failures),
        r.binding_changes@.map_values(|c: BindingChange| change_view(c)) == if newly_degraded(prior, success) {
            switched(bindings@, conn@, true)
        } else {
            Seq::empty()
        },
{
    let was_degraded = match prior {
        Some(p) => p.status == HealthStatus::Degraded,
        None => false,
    };
    let failures: u32 = if success {
        match prior {
            Some(p) => if was_degraded { p.consecutive_failures } else { 0 },
            None => 0,
        }
    } else {
        match prior {
            Some(p) => p.consecutive_failures.saturating_add(1),
            None => 1,
        }
    };
    let status = if success {
        if was_degraded { HealthStatus::Degraded } else { HealthStatus::Healthy }
    } else if failures >= DEGRADE_AFTER_FAILURES {
        HealthStatus::Degraded
    } else {
        HealthStatus::Unreachable
    };
    if !success && failures >= DEGRADE_AFTER_FAILURES && !was_degraded {
        let mut reason: Vec<char> = Vec::new();
        let digits = decimal_chars(failures as u64);
        push_all(&mut reason, digits.as_slice());
        push_str(&mut reason, " consecutive failed health checks");
        let changes = switch_bindings(bindings, conn, true);
        CheckDecision {
            status,
            consecutive_failures: failures,
            degrade_reason: Some(string_from_chars(reason.as_slice())),
            binding_changes: changes,
        }
    } else {
        let changes: Vec<BindingChange> = Vec::new();
        assert(changes@.map_values(|c: BindingChange| change_view(c)) =~= Seq::empty());
        CheckDecision { status, consecutive_failures: failures, degrade_reason: None, binding_changes: changes }
    }
}

/// The bindings put back into service when connection `conn` recovers: its
/// inactive ones, in order.
pub fn recovery_changes(conn: &String, bindings: &Vec<BindingInfo>) -> (r: Vec<BindingChange>)
    ensures
        r@.map_values(|c: BindingChange| change_view(c)) == switched(bindings@, conn@, false),
{
    switch_bindings(bindings, conn, false)
}

/// Whether a health-check schedule is due at `now`: it never ran, or its
/// interval has passed since its last run (the sum saturating).
pub open spec fn schedule_due(last_run_ms: Option<u64>, interval_ms: u64, now: u64) -> bool {
    match last_run_ms {
        None => true,
        Some(last) => now >= if last + interval_ms > u64::MAX { u64::MAX as int } else { last + interval_ms },
    }
}

/// Decides [`schedule_due`].
pub fn is_due(last_run_ms: Option<u64>, interval_ms: u64, now: u64) -> (r: bool)
    ensures
        r == schedule_due(last_run_ms, interval_ms, now),
{
    match last_run_ms {
        None => true,
        Some(last) => now >= last.saturating_add(interval_ms),
    }
}

/// Three failed checks in a row, from no record, degrade a connection, and
/// only the third marks it degraded.
pub proof fn law_third_failure_degrades()
    ensures
        ({
            let h1 = PriorHealth { status: checked_status(None, false), consecutive_failures: next_failures(None, false) };
            let h2 = PriorHealth { status: checked_status(Some(h1), false), consecutive_failures: next_failures(Some(h1), false) };
            &&& h1.status == HealthStatus::Unreachable && !newly_degraded(None, false)
            &&& h2.status == HealthStatus::Unreachable && !newly_degraded(Some(h1), false)
            &&& checked_status(Some(h2), false) == HealthStatus::Degraded
            &&& next_failures(Some(h2), false) == 3
            &&& newly_degraded(Some(h2), false)
        }),
{
}

/// A successful check leaves a degraded connection degraded, with its
/// failure count, and no check marks it degraded a second time.
pub proof fn law_degraded_is_sticky(p: PriorHealth, success: bool)
    requires
        p.status == HealthStatus::Degraded,
    ensures
        success ==> checked_status(Some(p), success) == HealthStatus::Degraded,
        success ==> next_failures(Some(p), success) == p.consecutive_failures,
        !newly_degraded(Some(p), success),
{
}

/// A successful check of a connection that is not degraded makes it
/// healthy and clears its failures.
pub proof fn law_success_clears_failures(prior: Option<PriorHealth>)
    requires
        !(prior matches Some(p) && p.status == HealthStatus::Degraded),
    ensures
        checked_status(prior, true) == HealthStatus::Healthy,
        next_failures(prior, true) == 0,
{
}

/// Recovery switches back exactly the bindings of the connection that are
/// out of service, and degradation exactly those in service: every binding
/// of the connection is in one of the two lists.
pub proof fn law_switch_partitions(bindings: Seq<BindingInfo>, conn: Seq<char>)
    ensures
        switched(bindings, conn, true).len() + switched(bindings, conn, false).len()
            == bindings.filter(|b: BindingInfo| b.provider_connection_id@ == conn).len(),
    decreases bindings.len(),
{
    if bindings.len() > 0 {
        law_switch_partitions(bindings.drop_last(), conn);
        let f = |b: BindingInfo| b.provider_connection_id@ == conn;
        bindings.drop_last().lemma_filter_push(bindings.last(), f);
        assert(bindings.drop_last().push(bindings.last()) =~= bindings);
    }
}

/// A health-check schedule is due when it never ran, or when at least its
/// interval has passed since its last run; a run less than an interval ago
/// is not due (a deadline past the clock's range is reached only at its
/// last instant).
pub proof fn law_schedule_due_after_interval(last_run_ms: Option<u64>, interval_ms: u64, now: u64)
    ensures
        last_run_ms is None ==> schedule_due(last_run_ms, interval_ms, now),
        last_run_ms matches Some(last) ==> (last + interval_ms <= u64::MAX ==> (schedule_due(last_run_ms, interval_ms, now) == (now
            >= last + interval_ms))),
        last_run_ms matches Some(last) ==> (now >= last && now - last < interval_ms && now < u64::MAX ==> !schedule_due(
            last_run_ms,
            interval_ms,
            now,
        )),
{
}

} // verus!
