//! Confidence calibration: the recent outcomes of a project grouped by
//! agent type, with how many of them succeeded. The rates and the
//! adjustment computed from the groups are floating point and stay with
//! the caller.
use vstd::prelude::*;

verus! {

/// The window looked at: seven days, in milliseconds.
pub const WINDOW_MS: u64 = 604_800_000;

/// At most this many outcomes are read per project.
pub const MAX_OUTCOMES: usize = 10_000;

/// One recorded outcome, as calibration reads it.
#[derive(Debug)]
pub struct OutcomeSample {
    pub agent_type: String,
    pub success: bool,
    pub recorded_at: u64,
}

/// The recent outcomes of one agent type: how many succeeded, and where
/// they are in the list read (in order), so that the caller can total their
/// predicted confidence.
#[derive(Debug)]
pub struct CalibrationBucket {
    pub agent_type: String,
    pub successes: usize,
    pub members: Vec<usize>,
}

/// The start of the window ending at `now`.
pub open spec fn cutoff_of(now: u64) -> u64 {
    if now >= WINDOW_MS { (now - WINDOW_MS) as u64 } else { 0 }
}

/// Whether outcome `i` counts for agent type `t`.
pub open spec fn counts_for(os: Seq<OutcomeSample>, t: Seq<char>, cutoff: u64, i: int) -> bool {
    os[i].agent_type@ == t && os[i].recorded_at >= cutoff
}

/// The positions below `n` of the recent outcomes of agent type `t`.
pub open spec fn members_upto(os: Seq<OutcomeSample>, t: Seq<char>, cutoff: u64, n: nat) -> Seq<int>
    decreases n,
{
    if n == 0 {
        Seq::empty()
    } else {
        let prev = members_upto(os, t, cutoff, (n - 1) as nat);
        if counts_for(os, t, cutoff, n - 1) {
            prev.push(n - 1)
        } else {
            prev
        }
    }
}

/// How many of those succeeded.
pub open spec fn successes_upto(os: Seq<OutcomeSample>, t: Seq<char>, cutoff: u64, n: nat) -> nat
    decreases n,
{
    if n == 0 {
        0
    } else {
        successes_upto(os, t, cutoff, (n - 1) as nat) + if counts_for(os, t, cutoff, n - 1) && os[n - 1].success {
            1nat
        } else {
            0nat
        }
    }
}

/// The number of outcomes read.
pub open spec fn scanned(os: Seq<OutcomeSample>) -> nat {
    if os.len() <= MAX_OUTCOMES { os.len() } else { MAX_OUTCOMES as nat }
}

proof fn lemma_members_bound(os: Seq<OutcomeSample>, t: Seq<char>, cutoff: u64, n: nat)
    ensures
        members_upto(os, t, cutoff, n).len() <= n,
        successes_upto(os, t, cutoff, n) <= members_upto(os, t, cutoff, n).len(),
    decreases n,
{
    if n > 0 {
        lemma_members_bound(os, t, cutoff, (n - 1) as nat);
    }
}

/// Groups the recent outcomes by agent type.
pub struct ConfidenceCalibrator {}

impl ConfidenceCalibrator {
    pub fn new() -> (r: Self) {
        ConfidenceCalibrator {  }
    }

    /// The groups of the outcomes read (the first `MAX_OUTCOMES`) recorded
    /// at or after `now - WINDOW_MS`: one per agent type that has any, in
    /// the order the types first appear, each with its members' positions
    /// in order and its number of successes.
    pub fn buckets_at(&self, outcomes: &Vec<OutcomeSample>, now: u64) -> (r: Vec<CalibrationBucket>)
        ensures
            forall|a: int, b: int| 0 <= a < r@.len() && 0 <= b < r@.len() && a != b ==> (#[trigger] r@[a]).agent_type@ != (#[trigger] r@[b]).agent_type@,
            forall|a: int| #![trigger r@[a]] 0 <= a < r@.len() ==> {
                &&& r@[a].members@.map_values(|m: usize| m as int) == members_upto(outcomes@, r@[a].agent_type@, cutoff_of(now), scanned(outcomes@))
                &&& r@[a].successes == successes_upto(outcomes@, r@[a].agent_type@, cutoff_of(now), scanned(outcomes@))
                &&& r@[a].members@.len() > 0
            },
            forall|t: Seq<char>| (forall|a: int| 0 <= a < r@.len() ==> (#[trigger] r@[a]).agent_type@ != t)
                ==> #[trigger] members_upto(outcomes@, t, cutoff_of(now), scanned(outcomes@)).len() == 0,
    {
        let cutoff: u64 = if now >= WINDOW_MS { now - WINDOW_MS } else { 0 };
        let n: usize = if outcomes.len() <= MAX_OUTCOMES { outcomes.len() } else { MAX_OUTCOMES };
        let ghost os = outcomes@;
        let mut buckets: Vec<CalibrationBucket> = Vec::new();
        let mut i: usize = 0;
        while i < n
            invariant
                i <= n,
                n == scanned(os),
                n <= os.len(),
                os == outcomes@,
                cutoff == cutoff_of(now),
                forall|a: int, b: int| 0 <= a < buckets@.len() && 0 <= b < buckets@.len() && a != b
                    ==> (#[trigger] buckets@[a]).agent_type@ != (#[trigger] buckets@[b]).agent_type@,
                forall|a: int| #![trigger buckets@[a]] 0 <= a < buckets@.len() ==> {
                    &&& buckets@[a].members@.map_values(|m: usize| m as int) == members_upto(os, buckets@[a].agent_type@, cutoff, i as nat)
                    &&& buckets@[a].successes == successes_upto(os, buckets@[a].agent_type@, cutoff, i as nat)
                    &&& buckets@[a].members@.len() > 0
                },
                forall|t: Seq<char>| (forall|a: int| 0 <= a < buckets@.len() ==> (#[trigger] buckets@[a]).agent_type@ != t)
                    ==> #[trigger] members_upto(os, t, cutoff, i as nat).len() == 0,
            decreases n - i,
        {
            let o = &outcomes[i];
            if o.recorded_at >= cutoff {
                let mut k: usize = 0;
                while k < buckets.len()
                    invariant
                        k <= buckets@.len(),
                        forall|a: int| 0 <= a < k ==> (#[trigger] buckets@[a]).agent_type@ != o.agent_type@,
                    ensures
                        k <= buckets@.len(),
                        forall|a: int| 0 <= a < k ==> (#[trigger] buckets@[a]).agent_type@ != o.agent_type@,
                        k < buckets@.len() ==> buckets@[k as int].agent_type@ == o.agent_type@,
                    decreases buckets@.len() - k,
                {
                    if buckets[k].agent_type == o.agent_type {
                        break;
                    }
                    k = k + 1;
                }
                let ghost before = buckets@;
                proof {
                    lemma_members_bound(os, o.agent_type@, cutoff, i as nat);
                }
                if k < buckets.len() {
                    let mut b = buckets.remove(k);
                    b.members.push(i);
                    if o.success {
                        b.successes = b.successes + 1;
                    }
                    buckets.insert(k, b);
                    proof {
                        assert forall|a: int| #![trigger buckets@[a]] 0 <= a < buckets@.len() implies {
                            &&& buckets@[a].members@.map_values(|m: usize| m as int) == members_upto(os, buckets@[a].agent_type@, cutoff, (i + 1) as nat)
                            &&& buckets@[a].successes == successes_upto(os, buckets@[a].agent_type@, cutoff, (i + 1) as nat)
                            &&& buckets@[a].members@.len() > 0
                        } by {
                            if a == k {
                                assert(buckets@[a].members@.map_values(|m: usize| m as int) =~= before[a].members@.map_values(|m: usize| m as int).push(i as int));
                            } else {
                                assert(buckets@[a] == before[a]);
                                assert(before[a].agent_type@ != o.agent_type@);
                            }
                        }
                        assert forall|a: int, c: int| 0 <= a < buckets@.len() && 0 <= c < buckets@.len() && a != c
                            implies (#[trigger] buckets@[a]).agent_type@ != (#[trigger] buckets@[c]).agent_type@ by {
                            assert(buckets@[a].agent_type == before[a].agent_type);
                            assert(buckets@[c].agent_type == before[c].agent_type);
                        }
                        assert forall|t: Seq<char>| (forall|a: int| 0 <= a < buckets@.len() ==> (#[trigger] buckets@[a]).agent_type@ != t)
                            implies #[trigger] members_upto(os, t, cutoff, (i + 1) as nat).len() == 0 by {
                            assert(buckets@[k as int].agent_type@ != t);
                            assert forall|a: int| 0 <= a < before.len() implies (#[trigger] before[a]).agent_type@ != t by {
                                assert(buckets@[a].agent_type == before[a].agent_type);
                            }
                            assert(members_upto(os, t, cutoff, i as nat).len() == 0);
                            assert(!counts_for(os, t, cutoff, i as int));
                        }
                    }
                } else {
                    let mut members: Vec<usize> = Vec::new();
                    members.push(i);
                    let b = CalibrationBucket {
                        agent_type: o.agent_type.clone(),
                        successes: if o.success { 1 } else { 0 },
                        members,
                    };
                    buckets.push(b);
                    proof {
                        assert(members_upto(os, o.agent_type@, cutoff, i as nat).len() == 0);
                        assert forall|a: int| #![trigger buckets@[a]] 0 <= a < buckets@.len() implies {
                            &&& buckets@[a].members@.map_values(|m: usize| m as int) == members_upto(os, buckets@[a].agent_type@, cutoff, (i + 1) as nat)
                            &&& buckets@[a].successes == successes_upto(os, buckets@[a].agent_type@, cutoff, (i + 1) as nat)
                            &&& buckets@[a].members@.len() > 0
                        } by {
                            if a == before.len() {
                                assert(buckets@[a].members@.map_values(|m: usize| m as int) =~= seq![i as int]);
                                assert(members_upto(os, o.agent_type@, cutoff, i as nat) =~= Seq::<int>::empty());
                                lemma_members_bound(os, o.agent_type@, cutoff, i as nat);
                            } else {
                                assert(buckets@[a] == before[a]);
                                assert(before[a].agent_type@ != o.agent_type@);
                            }
                        }
                        assert forall|t: Seq<char>| (forall|a: int| 0 <= a < buckets@.len() ==> (#[trigger] buckets@[a]).agent_type@ != t)
                            implies #[trigger] members_upto(os, t, cutoff, (i + 1) as nat).len() == 0 by {
                            assert(buckets@[before.len() as int].agent_type@ != t);
                            assert forall|a: int| 0 <= a < before.len() implies (#[trigger] before[a]).agent_type@ != t by {
                                assert(buckets@[a] == before[a]);
                            }
                            assert(members_upto(os, t, cutoff, i as nat).len() == 0);
                            assert(!counts_for(os, t, cutoff, i as int));
                        }
                    }
                }
            } else {
                proof {
                    assert forall|a: int| #![trigger buckets@[a]] 0 <= a < buckets@.len() implies {
                        &&& buckets@[a].members@.map_values(|m: usize| m as int) == members_upto(os, buckets@[a].agent_type@, cutoff, (i + 1) as nat)
                        &&& buckets@[a].successes == successes_upto(os, buckets@[a].agent_type@, cutoff, (i + 1) as nat)
                        &&& buckets@[a].members@.len() > 0
                    } by {}
                    assert forall|t: Seq<char>| (forall|a: int| 0 <= a < buckets@.len() ==> (#[trigger] buckets@[a]).agent_type@ != t)
                        implies #[trigger] members_upto(os, t, cutoff, (i + 1) as nat).len() == 0 by {
                        assert(members_upto(os, t, cutoff, i as nat).len() == 0);
                    }
                }
            }
            i = i + 1;
        }
        buckets
    }
}

} // verus!
