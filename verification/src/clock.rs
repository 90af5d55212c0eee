//! Wall-clock access. Everything else in the crate takes the time as an
//! argument; only the functions that stand for "now" read the clock.
use vstd::prelude::*;

verus! {

/// A time in milliseconds since the Unix epoch that a call may have read from
/// the clock: any time at all. A function that reads the clock states what
/// it does for some time `t` with `at_time(t)`, the term by which such a
/// statement is matched.
pub open spec fn at_time(t: u64) -> bool {
    true
}

/// Milliseconds since the Unix epoch, as `SystemTime::now()` reports it
/// (zero if the clock reads before the epoch).
///
/// Nothing is claimed about the value: it depends on the machine's clock.
#[verifier::external_body]
pub(crate) fn now_ms() -> (r: u64) {
    std::time::SystemTime::now().duration_since(std::time::UNIX_EPOCH).unwrap_or_default().as_millis() as u64
}

} // verus!
