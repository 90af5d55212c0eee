//! The checks and values of run and task state changes: whether the
//! entity exists and its state allows the change, the lease a claim takes,
//! and the checkpoint a completed task records for its run.
//!
//! Whether one state may follow another is the run and task state
//! machines' answer, which the caller hands in.
use vstd::prelude::*;
use crate::runtime_error::{fails_not_found, not_found, RuntimeError};
use crate::text::{concat3, decimal, decimal_string, str_eq};

verus! {

/// A run or task as a state change reads it: its state, by name, and its
/// version.
#[derive(Debug)]
pub struct EntityState {
    pub state_name: String,
    pub version: u64,
}

/// Whether a result refuses a change from `from` to `to` of an entity kind.
pub open spec fn fails_transition<T>(r: Result<T, RuntimeError>, entity: Seq<char>, from: Seq<char>, to: Seq<char>) -> bool {
    match r {
        Err(RuntimeError::InvalidTransition { entity: e, from: f, to: t }) => e@ == entity && f@ == from && t@ == to,
        _ => false,
    }
}

/// Checks a state change of a run or task (`current` is `None` when it
/// does not exist; `allowed` is the state machine's answer): refused with
/// `NotFound` for a missing entity and with `InvalidTransition` when the
/// state machine forbids it.
pub fn check_transition(entity: &str, id: &str, current: Option<&EntityState>, allowed: bool, to: &str) -> (r: Result<(), RuntimeError>)
    ensures
        match current {
            None => fails_not_found(r, entity@, id@),
            Some(c) => if allowed { r is Ok } else { fails_transition(r, entity@, c.state_name@, to@) },
        },
{
    let c = match current {
        None => return Err(not_found(entity, id)),
        Some(c) => c,
    };
    if !allowed {
        return Err(RuntimeError::InvalidTransition { entity: entity.to_owned(), from: c.state_name.clone(), to: to.to_owned() });
    }
    Ok(())
}

/// The lease a claim takes.
#[derive(Debug)]
pub struct LeaseClaim {
    pub lease_owner: String,
    pub lease_token: u64,
    pub lease_expires_at_ms: u64,
}

/// Claims the lease of a task at time `now`: the token is the task's next
/// version and the lease runs for `lease_duration_ms`. Refused as
/// `check_transition` refuses a move to `Leased`.
pub fn claim_lease(
    task_id: &str,
    task: Option<&EntityState>,
    may_lease: bool,
    lease_owner: String,
    lease_duration_ms: u64,
    now: u64,
) -> (r: Result<LeaseClaim, RuntimeError>)
    requires
        may_lease ==> (task matches Some(t) ==> t.version < u64::MAX && now + lease_duration_ms <= u64::MAX),
    ensures
        match task {
            None => fails_not_found(r, "task"@, task_id@),
            Some(t) => if !may_lease {
                fails_transition(r, "task"@, t.state_name@, "Leased"@)
            } else {
                r matches Ok(c) && c.lease_owner == lease_owner && c.lease_token == t.version + 1
                    && c.lease_expires_at_ms == now + lease_duration_ms
            },
        },
{
    match check_transition("task", task_id, task, may_lease, "Leased") {
        Err(e) => return Err(e),
        Ok(()) => {},
    }
    let t = match task {
        Some(t) => t,
        None => return Err(not_found("task", task_id)),
    };
    Ok(LeaseClaim { lease_owner, lease_token: t.version + 1, lease_expires_at_ms: now + lease_duration_ms })
}

/// Extends the lease of a leased or running task at time `now`: the token
/// is the task's version and the lease now ends `lease_extension_ms` from
/// now. Refused with `NotFound` for a missing task and with
/// `InvalidTransition` (to `heartbeat`) in any other state.
pub fn heartbeat_lease(task_id: &str, task: Option<&EntityState>, lease_extension_ms: u64, now: u64) -> (r: Result<(u64, u64), RuntimeError>)
    requires
        now + lease_extension_ms <= u64::MAX,
    ensures
        match task {
            None => fails_not_found(r, "task"@, task_id@),
            Some(t) => if t.state_name@ == "Leased"@ || t.state_name@ == "Running"@ {
                r == Ok::<(u64, u64), RuntimeError>((t.version, (now + lease_extension_ms) as u64))
            } else {
                fails_transition(r, "task"@, t.state_name@, "heartbeat"@)
            },
        },
{
    let t = match task {
        None => return Err(not_found("task", task_id)),
        Some(t) => t,
    };
    if !(str_eq(t.state_name.as_str(), "Leased") || str_eq(t.state_name.as_str(), "Running")) {
        return Err(RuntimeError::InvalidTransition {
            entity: "task".to_owned(),
            from: t.state_name.clone(),
            to: "heartbeat".to_owned(),
        });
    }
    Ok((t.version, now + lease_extension_ms))
}

/// The id of the checkpoint recorded for a run when one of its tasks
/// completes at `now`: `cp_auto_<run>_<task>_<now>`.
pub open spec fn auto_checkpoint_id_spec(run_id: Seq<char>, task_id: Seq<char>, now: u64) -> Seq<char> {
    "cp_auto_"@ + run_id + "_"@ + task_id + "_"@ + decimal(now as nat)
}

/// The checkpoint a task completed at `now` records for its parent run:
/// one exactly when the task has a parent run whose checkpoint strategy
/// (`None` when the run has none) asks for one on task completion.
pub fn completion_checkpoint(parent_run_id: Option<&str>, trigger_on_task_complete: Option<bool>, task_id: &str, now: u64) -> (r: Option<String>)
    ensures
        match (parent_run_id, trigger_on_task_complete) {
            (Some(run), Some(true)) => r matches Some(id) && id@ == auto_checkpoint_id_spec(run@, task_id@, now),
            _ => r is None,
        },
{
    match (parent_run_id, trigger_on_task_complete) {
        (Some(run), Some(true)) => {
            let a = concat3("cp_auto_", run, "_");
            let b = concat3(a.as_str(), task_id, "_");
            let digits = decimal_string(now);
            let id = concat3(b.as_str(), digits.as_str(), "");
            proof {
                reveal_strlit("");
                assert(id@ =~= auto_checkpoint_id_spec(run@, task_id@, now));
            }
            Some(id)
        },
        _ => None,
    }
}

} // verus!
