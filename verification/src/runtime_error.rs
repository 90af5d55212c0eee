//! Errors that the runtime services report to their callers.
use vstd::prelude::*;

verus! {

/// Why a service request was refused.
#[derive(Debug, Clone)]
pub enum RuntimeError {
    /// The named entity does not exist.
    NotFound { entity: String, id: String },
    /// The named entity exists already, or the request clashes with it.
    Conflict { entity: String, id: String },
    /// A policy forbids the request.
    PolicyDenied { reason: String },
    /// A tenant quota is used up.
    QuotaExceeded { tenant_id: String, quota_type: String, current: u32, limit: u32 },
    /// The entity's state does not allow the change asked for.
    InvalidTransition { entity: String, from: String, to: String },
    /// The request cannot be understood.
    Internal { message: String },
}

/// A `NotFound` error for an entity kind and id.
pub fn not_found(entity: &str, id: &str) -> (r: RuntimeError)
    ensures
        r matches RuntimeError::NotFound { entity: e, id: i } && e@ == entity@ && i@ == id@,
{
    RuntimeError::NotFound { entity: entity.to_owned(), id: id.to_owned() }
}

/// A `Conflict` error for an entity kind and id.
pub fn conflict(entity: &str, id: &str) -> (r: RuntimeError)
    ensures
        r matches RuntimeError::Conflict { entity: e, id: i } && e@ == entity@ && i@ == id@,
{
    RuntimeError::Conflict { entity: entity.to_owned(), id: id.to_owned() }
}

/// Whether an error is `NotFound` for an entity kind and id.
pub open spec fn is_not_found(r: RuntimeError, entity: Seq<char>, id: Seq<char>) -> bool {
    r matches RuntimeError::NotFound { entity: e, id: i } && e@ == entity && i@ == id
}

/// Whether an error is `Conflict` for an entity kind and id.
pub open spec fn is_conflict(r: RuntimeError, entity: Seq<char>, id: Seq<char>) -> bool {
    r matches RuntimeError::Conflict { entity: e, id: i } && e@ == entity && i@ == id
}

/// Whether a result is a `NotFound` error for an entity kind and id.
pub open spec fn fails_not_found<T>(r: Result<T, RuntimeError>, entity: Seq<char>, id: Seq<char>) -> bool {
    match r {
        Err(e) => is_not_found(e, entity, id),
        Ok(_) => false,
    }
}

/// Whether a result is a `Conflict` error for an entity kind and id.
pub open spec fn fails_conflict<T>(r: Result<T, RuntimeError>, entity: Seq<char>, id: Seq<char>) -> bool {
    match r {
        Err(e) => is_conflict(e, entity, id),
        Ok(_) => false,
    }
}

/// Whether a result is a `PolicyDenied` error with the given reason.
pub open spec fn fails_denied<T>(r: Result<T, RuntimeError>, reason: Seq<char>) -> bool {
    match r {
        Err(RuntimeError::PolicyDenied { reason: why }) => why@ == reason,
        _ => false,
    }
}

} // verus!
