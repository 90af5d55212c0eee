//! Checkpoints of runs: each save becomes the run's latest checkpoint and
//! supersedes the run's earlier ones; and the checkpoint strategy of a run.
use vstd::prelude::*;
use crate::alist::TextMap;
use crate::clock::{at_time, now_ms};
use crate::domain::ProjectKey;
use crate::text::str_eq;

verus! {

/// Whether a checkpoint is its run's latest one.
#[derive(Debug, Clone, Copy, PartialEq, Eq, Structural)]
pub enum CheckpointDisposition {
    Latest,
    Superseded,
}

/// A saved checkpoint.
#[derive(Debug)]
pub struct CheckpointRecord {
    pub checkpoint_id: String,
    pub project: ProjectKey,
    pub run_id: String,
    pub disposition: CheckpointDisposition,
}

impl CheckpointRecord {
    /// A field-by-field copy.
    pub fn duplicate(&self) -> (r: Self)
        ensures
            r == *self,
    {
        CheckpointRecord {
            checkpoint_id: self.checkpoint_id.clone(),
            project: self.project.duplicate(),
            run_id: self.run_id.clone(),
            disposition: self.disposition,
        }
    }
}

/// How often a run takes checkpoints.
#[derive(Debug)]
pub struct CheckpointStrategy {
    pub strategy_id: String,
    pub description: String,
    pub set_at_ms: u64,
    pub run_id: Option<String>,
    pub interval_ms: u64,
    pub max_checkpoints: u32,
    pub trigger_on_task_complete: bool,
}

/// A checkpoint as a save of another checkpoint of its run leaves it.
pub open spec fn superseded_by(c: CheckpointRecord, run_id: Seq<char>) -> CheckpointRecord {
    if c.run_id@ == run_id {
        CheckpointRecord {
            checkpoint_id: c.checkpoint_id,
            project: c.project,
            run_id: c.run_id,
            disposition: CheckpointDisposition::Superseded,
        }
    } else {
        c
    }
}

/// Some checkpoint has the id.
pub open spec fn has_checkpoint(s: Seq<CheckpointRecord>, id: Seq<char>) -> bool {
    exists|j: int| 0 <= j < s.len() && #[trigger] s[j].checkpoint_id@ == id
}

/// The checkpoints after `c` is saved: every checkpoint of `c`'s run is
/// superseded, and `c` takes the place of a checkpoint with its id, or
/// comes last.
pub open spec fn saved(s: Seq<CheckpointRecord>, c: CheckpointRecord) -> Seq<CheckpointRecord> {
    let t = Seq::new(s.len(), |i: int| superseded_by(s[i], c.run_id@));
    if has_checkpoint(s, c.checkpoint_id@) {
        let j = choose|j: int| 0 <= j < s.len() && #[trigger] s[j].checkpoint_id@ == c.checkpoint_id@;
        t.update(j, c)
    } else {
        t.push(c)
    }
}

/// No two checkpoints share an id, and a run has at most one latest
/// checkpoint.
pub open spec fn checkpoints_wf(s: Seq<CheckpointRecord>) -> bool {
    &&& forall|a: int, b: int|
        0 <= a < s.len() && 0 <= b < s.len() && a != b ==> #[trigger] s[a].checkpoint_id@ != #[trigger] s[b].checkpoint_id@
    &&& forall|a: int, b: int|
        0 <= a < s.len() && 0 <= b < s.len() && a != b && #[trigger] s[a].run_id@ == #[trigger] s[b].run_id@
            ==> !(s[a].disposition == CheckpointDisposition::Latest && s[b].disposition == CheckpointDisposition::Latest)
}

/// A save keeps the checkpoints well formed, makes the saved checkpoint
/// its run's one latest checkpoint, and leaves the checkpoints of other
/// runs as they were.
pub proof fn law_save_supersedes(s: Seq<CheckpointRecord>, c: CheckpointRecord)
    requires
        checkpoints_wf(s),
        c.disposition == CheckpointDisposition::Latest,
    ensures
        checkpoints_wf(saved(s, c)),
        saved(s, c).contains(c),
        forall|i: int| 0 <= i < saved(s, c).len() && (#[trigger] saved(s, c)[i]).run_id@ == c.run_id@
            && saved(s, c)[i].checkpoint_id@ != c.checkpoint_id@ ==> saved(s, c)[i].disposition == CheckpointDisposition::Superseded,
        forall|i: int| 0 <= i < saved(s, c).len() && (#[trigger] saved(s, c)[i]).run_id@ != c.run_id@ ==> s.contains(saved(s, c)[i]),
{
    lemma_saved_shape(s, c);
    let u = saved(s, c);
    if has_checkpoint(s, c.checkpoint_id@) {
        let j = choose|j: int| 0 <= j < s.len() && #[trigger] s[j].checkpoint_id@ == c.checkpoint_id@;
        assert(u[j] == c);
    } else {
        assert(u[s.len() as int] == c);
    }
    assert forall|i: int| 0 <= i < u.len() && (#[trigger] u[i]).run_id@ != c.run_id@ implies s.contains(u[i]) by {
        assert(u[i] == s[i]);
    }
}

/// The shape of a save: where the saved checkpoint goes and what becomes
/// of the others.
proof fn lemma_saved_shape(s: Seq<CheckpointRecord>, c: CheckpointRecord)
    requires
        checkpoints_wf(s),
        c.disposition == CheckpointDisposition::Latest,
    ensures
        checkpoints_wf(saved(s, c)),
        has_checkpoint(s, c.checkpoint_id@) ==> saved(s, c).len() == s.len(),
        !has_checkpoint(s, c.checkpoint_id@) ==> saved(s, c).len() == s.len() + 1 && saved(s, c)[s.len() as int] == c,
        forall|i: int| 0 <= i < s.len() && s[i].checkpoint_id@ == c.checkpoint_id@ ==> saved(s, c)[i] == c,
        forall|i: int| 0 <= i < s.len() && s[i].checkpoint_id@ != c.checkpoint_id@ ==> saved(s, c)[i] == superseded_by(s[i], c.run_id@),
{
    let u = saved(s, c);
    if has_checkpoint(s, c.checkpoint_id@) {
        let j = choose|j: int| 0 <= j < s.len() && #[trigger] s[j].checkpoint_id@ == c.checkpoint_id@;
        assert forall|i: int| 0 <= i < s.len() && s[i].checkpoint_id@ == c.checkpoint_id@ implies u[i] == c by {
            if i != j {
                assert(s[i].checkpoint_id@ != s[j].checkpoint_id@);
            }
        }
        assert forall|a: int, b: int|
            0 <= a < u.len() && 0 <= b < u.len() && a != b implies #[trigger] u[a].checkpoint_id@ != #[trigger] u[b].checkpoint_id@ by {
            assert(s[a].checkpoint_id@ != s[b].checkpoint_id@);
        }
    } else {
        assert forall|a: int, b: int|
            0 <= a < u.len() && 0 <= b < u.len() && a != b implies #[trigger] u[a].checkpoint_id@ != #[trigger] u[b].checkpoint_id@ by {
            if a < s.len() && b < s.len() {
                assert(s[a].checkpoint_id@ != s[b].checkpoint_id@);
            } else if a < s.len() {
                assert(s[a].checkpoint_id@ != c.checkpoint_id@);
            } else {
                assert(s[b].checkpoint_id@ != c.checkpoint_id@);
            }
        }
    }
    assert forall|a: int, b: int|
        0 <= a < u.len() && 0 <= b < u.len() && a != b && #[trigger] u[a].run_id@ == #[trigger] u[b].run_id@ implies !(u[a].disposition
            == CheckpointDisposition::Latest && u[b].disposition == CheckpointDisposition::Latest) by {
        if a < s.len() && b < s.len() {
            assert(s[a].run_id@ == s[b].run_id@ ==> !(s[a].disposition == CheckpointDisposition::Latest && s[b].disposition
                == CheckpointDisposition::Latest));
        }
    }
}

/// Checkpoints in the order they were first saved, and each run's
/// strategy.
pub struct CheckpointServiceImpl {
    checkpoints: Vec<CheckpointRecord>,
    strategies: TextMap<CheckpointStrategy>,
}

impl CheckpointServiceImpl {
    pub closed spec fn checkpoints(&self) -> Seq<CheckpointRecord> {
        self.checkpoints@
    }

    /// Each run's strategy, by run id.
    pub closed spec fn strategies(&self) -> Map<Seq<char>, CheckpointStrategy> {
        self.strategies@
    }

    pub closed spec fn wf(&self) -> bool {
        checkpoints_wf(self.checkpoints@) && self.strategies.wf()
    }

    pub fn new() -> (r: Self)
        ensures
            r.wf(),
            r.checkpoints() == Seq::<CheckpointRecord>::empty(),
            r.strategies() == Map::<Seq<char>, CheckpointStrategy>::empty(),
    {
        CheckpointServiceImpl { checkpoints: Vec::new(), strategies: TextMap::new() }
    }

    fn position(&self, checkpoint_id: &str) -> (r: Option<usize>)
        ensures
            match r {
                Some(i) => i < self.checkpoints@.len() && self.checkpoints@[i as int].checkpoint_id@ == checkpoint_id@,
                None => !has_checkpoint(self.checkpoints@, checkpoint_id@),
            },
    {
        let mut i: usize = 0;
        while i < self.checkpoints.len()
            invariant
                i <= self.checkpoints@.len(),
                forall|j: int| 0 <= j < i ==> #[trigger] self.checkpoints@[j].checkpoint_id@ != checkpoint_id@,
            decreases self.checkpoints@.len() - i,
        {
            if str_eq(self.checkpoints[i].checkpoint_id.as_str(), checkpoint_id) {
                return Some(i);
            }
            i = i + 1;
        }
        None
    }

    /// Saves a checkpoint of a run as its latest; the run's earlier
    /// checkpoints are superseded.
    pub fn save(&mut self, project: &ProjectKey, run_id: &str, checkpoint_id: &str) -> (r: CheckpointRecord)
        requires
            old(self).wf(),
        ensures
            final(self).wf(),
            r.checkpoint_id@ == checkpoint_id@,
            r.project == *project,
            r.run_id@ == run_id@,
            r.disposition == CheckpointDisposition::Latest,
            final(self).checkpoints() == saved(old(self).checkpoints(), r),
            final(self).strategies() == old(self).strategies(),
    {
        let rec = CheckpointRecord {
            checkpoint_id: checkpoint_id.to_owned(),
            project: project.duplicate(),
            run_id: run_id.to_owned(),
            disposition: CheckpointDisposition::Latest,
        };
        let ghost s0 = self.checkpoints@;
        let pos = self.position(checkpoint_id);
        let ghost st = self.strategies@;
        let mut i: usize = 0;
        while i < self.checkpoints.len()
            invariant
                self.strategies.wf(),
                self.strategies@ == st,
                self.checkpoints@.len() == s0.len(),
                i <= s0.len(),
                forall|j: int| 0 <= j < i ==> #[trigger] self.checkpoints@[j] == superseded_by(s0[j], run_id@),
                forall|j: int| i <= j < s0.len() ==> #[trigger] self.checkpoints@[j] == s0[j],
            decreases s0.len() - i,
        {
            if str_eq(self.checkpoints[i].run_id.as_str(), run_id) {
                let c = self.checkpoints[i].duplicate();
                self.checkpoints.set(i, CheckpointRecord {
                    checkpoint_id: c.checkpoint_id,
                    project: c.project,
                    run_id: c.run_id,
                    disposition: CheckpointDisposition::Superseded,
                });
            }
            i = i + 1;
        }
        let out = rec.duplicate();
        proof {
            lemma_saved_shape(s0, rec);
        }
        match pos {
            Some(j) => {
                self.checkpoints.set(j, rec);
                proof {
                    let ghost t = Seq::new(s0.len(), |k: int| superseded_by(s0[k], run_id@));
                    let j0 = choose|j0: int| 0 <= j0 < s0.len() && #[trigger] s0[j0].checkpoint_id@ == checkpoint_id@;
                    if j0 != j as int {
                        assert(s0[j0].checkpoint_id@ != s0[j as int].checkpoint_id@);
                    }
                    assert(self.checkpoints@ =~= saved(s0, out));
                }
            },
            None => {
                self.checkpoints.push(rec);
                proof {
                    assert(self.checkpoints@ =~= saved(s0, out));
                }
            },
        }
        out
    }

    /// The checkpoint with an id.
    pub fn get(&self, checkpoint_id: &str) -> (r: Option<&CheckpointRecord>)
        requires
            self.wf(),
        ensures
            match r {
                Some(c) => self.checkpoints().contains(*c) && c.checkpoint_id@ == checkpoint_id@,
                None => !has_checkpoint(self.checkpoints(), checkpoint_id@),
            },
    {
        match self.position(checkpoint_id) {
            Some(i) => Some(&self.checkpoints[i]),
            None => None,
        }
    }

    /// The latest checkpoint of a run.
    pub fn latest_for_run(&self, run_id: &str) -> (r: Option<&CheckpointRecord>)
        requires
            self.wf(),
        ensures
            match r {
                Some(c) => self.checkpoints().contains(*c) && c.run_id@ == run_id@ && c.disposition == CheckpointDisposition::Latest,
                None => forall|i: int| 0 <= i < self.checkpoints().len() && #[trigger] self.checkpoints()[i].run_id@ == run_id@
                    ==> self.checkpoints()[i].disposition == CheckpointDisposition::Superseded,
            },
    {
        let mut i: usize = 0;
        while i < self.checkpoints.len()
            invariant
                i <= self.checkpoints@.len(),
                forall|j: int| 0 <= j < i && #[trigger] self.checkpoints@[j].run_id@ == run_id@
                    ==> self.checkpoints@[j].disposition == CheckpointDisposition::Superseded,
            decreases self.checkpoints@.len() - i,
        {
            let c = &self.checkpoints[i];
            if str_eq(c.run_id.as_str(), run_id) && c.disposition == CheckpointDisposition::Latest {
                return Some(c);
            }
            i = i + 1;
        }
        None
    }

    /// Up to `limit` checkpoints of a run, in the order they were saved.
    pub fn list_by_run(&self, run_id: &str, limit: usize) -> (r: Vec<CheckpointRecord>)
        ensures
            ({
                let all = self.checkpoints().filter(|c: CheckpointRecord| c.run_id@ == run_id@);
                r@ == all.take(if limit < all.len() { limit as int } else { all.len() as int })
            }),
    {
        let ghost f = |c: CheckpointRecord| c.run_id@ == run_id@;
        let mut all: Vec<CheckpointRecord> = Vec::new();
        let mut i: usize = 0;
        while i < self.checkpoints.len()
            invariant
                i <= self.checkpoints@.len(),
                f == (|c: CheckpointRecord| c.run_id@ == run_id@),
                all@ == self.checkpoints@.take(i as int).filter(f),
            decreases self.checkpoints@.len() - i,
        {
            proof {
                assert(self.checkpoints@.take(i + 1) =~= self.checkpoints@.take(i as int).push(self.checkpoints@[i as int]));
                self.checkpoints@.take(i as int).lemma_filter_push(self.checkpoints@[i as int], f);
            }
            if str_eq(self.checkpoints[i].run_id.as_str(), run_id) {
                all.push(self.checkpoints[i].duplicate());
            }
            i = i + 1;
        }
        assert(self.checkpoints@.take(self.checkpoints@.len() as int) =~= self.checkpoints@);
        let end = if limit < all.len() { limit } else { all.len() };
        let mut out: Vec<CheckpointRecord> = Vec::new();
        let mut j: usize = 0;
        while j < end
            invariant
                j <= end <= all@.len(),
                out@ == all@.take(j as int),
            decreases end - j,
        {
            out.push(all[j].duplicate());
            assert(out@ =~= all@.take(j + 1));
            j = j + 1;
        }
        out
    }

    /// Sets a run's checkpoint strategy at `now`, replacing any earlier one.
    pub fn set_strategy_at(
        &mut self,
        run_id: &str,
        strategy_id: &str,
        description: &str,
        interval_ms: u64,
        max_checkpoints: u32,
        trigger_on_task_complete: bool,
        now: u64,
    ) -> (r: CheckpointStrategy)
        requires
            old(self).wf(),
        ensures
            final(self).wf(),
            r.strategy_id@ == strategy_id@,
            r.description@ == description@,
            r.set_at_ms == now,
            r.run_id matches Some(id) && id@ == run_id@,
            r.interval_ms == interval_ms,
            r.max_checkpoints == max_checkpoints,
            r.trigger_on_task_complete == trigger_on_task_complete,
            final(self).strategies() == old(self).strategies().insert(run_id@, r),
            final(self).checkpoints() == old(self).checkpoints(),
    {
        let stored = CheckpointStrategy {
            strategy_id: strategy_id.to_owned(),
            description: description.to_owned(),
            set_at_ms: now,
            run_id: Some(run_id.to_owned()),
            interval_ms,
            max_checkpoints,
            trigger_on_task_complete,
        };
        let out = CheckpointStrategy {
            strategy_id: stored.strategy_id.clone(),
            description: stored.description.clone(),
            set_at_ms: now,
            run_id: match &stored.run_id {
                Some(id) => Some(id.clone()),
                None => None,
            },
            interval_ms,
            max_checkpoints,
            trigger_on_task_complete,
        };
        self.strategies.insert(run_id.to_owned(), stored);
        out
    }

    /// Sets a run's checkpoint strategy, stamped with the current time.
    pub fn set_strategy(
        &mut self,
        run_id: &str,
        strategy_id: &str,
        description: &str,
        interval_ms: u64,
        max_checkpoints: u32,
        trigger_on_task_complete: bool,
    ) -> (r: CheckpointStrategy)
        requires
            old(self).wf(),
        ensures
            final(self).wf(),
            r.strategy_id@ == strategy_id@,
            r.description@ == description@,
            r.run_id matches Some(id) && id@ == run_id@,
            r.interval_ms == interval_ms,
            r.max_checkpoints == max_checkpoints,
            r.trigger_on_task_complete == trigger_on_task_complete,
            final(self).strategies() == old(self).strategies().insert(run_id@, r),
            final(self).checkpoints() == old(self).checkpoints(),
            exists|tm: u64| #[trigger] at_time(tm)
                && (r.set_at_ms == tm),
    {
        let now = now_ms();
        let r = self.set_strategy_at(run_id, strategy_id, description, interval_ms, max_checkpoints, trigger_on_task_complete, now);
        assert(at_time(now));
        r
    }

    /// A run's checkpoint strategy.
    pub fn get_strategy(&self, run_id: &str) -> (r: Option<&CheckpointStrategy>)
        requires
            self.wf(),
        ensures
            match r {
                Some(s) => self.strategies().contains_key(run_id@) && *s == self.strategies()[run_id@],
                None => !self.strategies().contains_key(run_id@),
            },
    {
        self.strategies.get(&run_id.to_owned())
    }
}

} // verus!
