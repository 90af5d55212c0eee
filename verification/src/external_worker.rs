//! External workers: their registration, and the reports they send about
//! the tasks they hold.
use vstd::prelude::*;
use crate::alist::TextMap;
use crate::clock::{at_time, now_ms};
use crate::recovery::FailureKind;
use crate::runtime_error::{fails_not_found, not_found, RuntimeError};
use crate::text::{concat3, str_eq};

verus! {

/// How an external worker says a task ended.
#[derive(Debug, Clone, Copy, PartialEq, Eq, Structural)]
pub enum ExternalWorkerOutcome {
    Completed,
    Failed { failure_class: FailureKind },
    Canceled,
    /// Suspended by the runtime.
    Suspended,
}

/// The state a task moves to on an outcome.
#[derive(Debug, Clone, Copy, PartialEq, Eq, Structural)]
pub enum TaskTarget {
    Completed,
    Failed(FailureKind),
    Canceled,
    Paused,
}

/// The outcome named by a wire string, if any.
pub open spec fn outcome_named(s: Seq<char>) -> Option<ExternalWorkerOutcome> {
    if s == "completed"@ {
        Some(ExternalWorkerOutcome::Completed)
    } else if s == "failed"@ {
        Some(ExternalWorkerOutcome::Failed { failure_class: FailureKind::ExecutionError })
    } else if s == "canceled"@ {
        Some(ExternalWorkerOutcome::Canceled)
    } else if s == "suspended"@ {
        Some(ExternalWorkerOutcome::Suspended)
    } else {
        None
    }
}

/// Reads an outcome string: `completed`, `failed` (an execution error),
/// `canceled` or `suspended`; anything else is refused as unknown.
pub fn parse_outcome(outcome_str: &str) -> (r: Result<ExternalWorkerOutcome, RuntimeError>)
    ensures
        match outcome_named(outcome_str@) {
            Some(o) => r == Ok::<ExternalWorkerOutcome, RuntimeError>(o),
            None => r matches Err(RuntimeError::Internal { message }) && message@ == "unknown worker outcome: "@ + outcome_str@,
        },
{
    if str_eq(outcome_str, "completed") {
        Ok(ExternalWorkerOutcome::Completed)
    } else if str_eq(outcome_str, "failed") {
        Ok(ExternalWorkerOutcome::Failed { failure_class: FailureKind::ExecutionError })
    } else if str_eq(outcome_str, "canceled") {
        Ok(ExternalWorkerOutcome::Canceled)
    } else if str_eq(outcome_str, "suspended") {
        Ok(ExternalWorkerOutcome::Suspended)
    } else {
        let message = concat3("unknown worker outcome: ", outcome_str, "");
        proof {
            reveal_strlit("");
            assert(message@ =~= "unknown worker outcome: "@ + outcome_str@);
        }
        Err(RuntimeError::Internal { message })
    }
}

/// The state a task moves to when a report carries an outcome.
pub open spec fn target_of(o: ExternalWorkerOutcome) -> TaskTarget {
    match o {
        ExternalWorkerOutcome::Completed => TaskTarget::Completed,
        ExternalWorkerOutcome::Failed { failure_class } => TaskTarget::Failed(failure_class),
        ExternalWorkerOutcome::Canceled => TaskTarget::Canceled,
        ExternalWorkerOutcome::Suspended => TaskTarget::Paused,
    }
}

/// A task as a report reads it: the name of its state and whether that
/// state is terminal.
#[derive(Debug)]
pub struct TaskStatus {
    pub state_name: String,
    pub terminal: bool,
}

/// A registered external worker.
#[derive(Debug)]
pub struct ExternalWorkerRecord {
    pub worker_id: String,
    pub tenant_id: String,
    pub display_name: String,
    pub status: String,
    pub registered_at: u64,
    pub updated_at: u64,
}

impl ExternalWorkerRecord {
    pub fn duplicate(&self) -> (r: Self)
        ensures
            r == *self,
    {
        ExternalWorkerRecord {
            worker_id: self.worker_id.clone(),
            tenant_id: self.tenant_id.clone(),
            display_name: self.display_name.clone(),
            status: self.status.clone(),
            registered_at: self.registered_at,
            updated_at: self.updated_at,
        }
    }
}

/// External workers by id, in registration order.
pub struct ExternalWorkerServiceImpl {
    workers: TextMap<ExternalWorkerRecord>,
}

impl ExternalWorkerServiceImpl {
    pub closed spec fn workers(&self) -> Map<Seq<char>, ExternalWorkerRecord> {
        self.workers@
    }

    pub closed spec fn order(&self) -> Seq<ExternalWorkerRecord> {
        self.workers.entry_seq().map_values(|e: (Seq<char>, ExternalWorkerRecord)| e.1)
    }

    pub closed spec fn wf(&self) -> bool {
        &&& self.workers.wf()
        &&& forall|k: Seq<char>| #[trigger] self.workers@.contains_key(k) ==> self.workers@[k].worker_id@ == k
    }

    pub fn new() -> (r: Self)
        ensures
            r.wf(),
            r.workers() == Map::<Seq<char>, ExternalWorkerRecord>::empty(),
    {
        ExternalWorkerServiceImpl { workers: TextMap::new() }
    }

    /// Registers a worker as active at time `now`, replacing any earlier
    /// record under its id.
    pub fn register_at(&mut self, tenant_id: &str, worker_id: &str, display_name: String, now: u64) -> (r: ExternalWorkerRecord)
        requires
            old(self).wf(),
        ensures
            final(self).wf(),
            r.worker_id@ == worker_id@,
            r.tenant_id@ == tenant_id@,
            r.display_name == display_name,
            r.status@ == "active"@,
            r.registered_at == now,
            r.updated_at == now,
            final(self).workers() == old(self).workers().insert(worker_id@, r),
    {
        let rec = ExternalWorkerRecord {
            worker_id: worker_id.to_owned(),
            tenant_id: tenant_id.to_owned(),
            display_name,
            status: "active".to_owned(),
            registered_at: now,
            updated_at: now,
        };
        let out = rec.duplicate();
        self.workers.insert(worker_id.to_owned(), rec);
        out
    }

    /// `register_at` at the clock's present reading.
    pub fn register(&mut self, tenant_id: &str, worker_id: &str, display_name: String) -> (r: ExternalWorkerRecord)
        requires
            old(self).wf(),
        ensures
            final(self).wf(),
            r.worker_id@ == worker_id@,
            r.tenant_id@ == tenant_id@,
            r.display_name == display_name,
            r.status@ == "active"@,
            final(self).workers() == old(self).workers().insert(worker_id@, r),
            exists|tm: u64| #[trigger] at_time(tm)
                && (r.registered_at == tm)
                && (r.updated_at == tm),
    {
        let now = now_ms();
        let r = self.register_at(tenant_id, worker_id, display_name, now);
        assert(at_time(now));
        r
    }

    /// A worker, if registered.
    pub fn get(&self, worker_id: &str) -> (r: Option<ExternalWorkerRecord>)
        requires
            self.wf(),
        ensures
            match r {
                Some(w) => self.workers().contains_key(worker_id@) && w == self.workers()[worker_id@],
                None => !self.workers().contains_key(worker_id@),
            },
    {
        match self.workers.get(&worker_id.to_owned()) {
            Some(w) => Some(w.duplicate()),
            None => None,
        }
    }

    /// Sets a registered worker's status; refused with `NotFound` for an
    /// unknown worker.
    fn set_status(&mut self, worker_id: &str, status: &str) -> (r: Result<ExternalWorkerRecord, RuntimeError>)
        requires
            old(self).wf(),
        ensures
            final(self).wf(),
            !old(self).workers().contains_key(worker_id@) ==> fails_not_found(r, "worker"@, worker_id@)
                && final(self).workers() == old(self).workers(),
            old(self).workers().contains_key(worker_id@) ==> (r matches Ok(w) && w == ExternalWorkerRecord {
                status: w.status,
                ..old(self).workers()[worker_id@]
            } && w.status@ == status@ && final(self).workers() == old(self).workers().insert(worker_id@, w)),
    {
        let key = worker_id.to_owned();
        let i = match self.workers.index_of(&key) {
            Some(i) => i,
            None => return Err(not_found("worker", worker_id)),
        };
        let (k, mut rec) = self.workers.take_at(i);
        rec.status = status.to_owned();
        let out = rec.duplicate();
        self.workers.put_at(i, k, rec);
        proof {
            assert forall|q: Seq<char>| #[trigger] self.workers@.contains_key(q) implies self.workers@[q].worker_id@ == q by {
                if q != worker_id@ {
                    assert(old(self).workers@.contains_key(q));
                }
            }
        }
        Ok(out)
    }

    /// Suspends a worker.
    pub fn suspend(&mut self, worker_id: &str) -> (r: Result<ExternalWorkerRecord, RuntimeError>)
        requires
            old(self).wf(),
        ensures
            final(self).wf(),
            !old(self).workers().contains_key(worker_id@) ==> fails_not_found(r, "worker"@, worker_id@),
            old(self).workers().contains_key(worker_id@) ==> (r matches Ok(w) && w.status@ == "suspended"@
                && final(self).workers() == old(self).workers().insert(worker_id@, w)),
    {
        self.set_status(worker_id, "suspended")
    }

    /// Reactivates a suspended worker.
    pub fn reactivate(&mut self, worker_id: &str) -> (r: Result<ExternalWorkerRecord, RuntimeError>)
        requires
            old(self).wf(),
        ensures
            final(self).wf(),
            !old(self).workers().contains_key(worker_id@) ==> fails_not_found(r, "worker"@, worker_id@),
            old(self).workers().contains_key(worker_id@) ==> (r matches Ok(w) && w.status@ == "active"@
                && final(self).workers() == old(self).workers().insert(worker_id@, w)),
    {
        self.set_status(worker_id, "active")
    }

    /// A tenant's workers in registration order, paged.
    pub fn list(&self, tenant_id: &str, limit: usize, offset: usize) -> (r: Vec<ExternalWorkerRecord>)
        requires
            self.wf(),
        ensures
            ({
                let all = self.order().filter(|w: ExternalWorkerRecord| w.tenant_id@ == tenant_id@);
                let start = if offset < all.len() { offset as int } else { all.len() as int };
                let end = if start + limit < all.len() { start + limit } else { all.len() as int };
                r@ == all.subrange(start, end)
            }),
    {
        let ghost f = |w: ExternalWorkerRecord| w.tenant_id@ == tenant_id@;
        let ghost o = self.order();
        let t = tenant_id.to_owned();
        let n = self.workers.len();
        let mut all: Vec<ExternalWorkerRecord> = Vec::new();
        let mut i: usize = 0;
        while i < n
            invariant
                i <= n,
                self.wf(),
                n == o.len(),
                o == self.order(),
                t@ == tenant_id@,
                f == (|w: ExternalWorkerRecord| w.tenant_id@ == tenant_id@),
                all@ == o.take(i as int).filter(f),
            decreases n - i,
        {
            let (_k, w) = self.workers.entry_at(i);
            proof {
                assert(o[i as int] == *w);
                assert(o.take(i + 1) =~= o.take(i as int).push(o[i as int]));
                o.take(i as int).lemma_filter_push(o[i as int], f);
            }
            if w.tenant_id == t {
                all.push(w.duplicate());
            }
            i = i + 1;
        }
        assert(o.take(n as int) =~= o);
        let start = if offset < all.len() { offset } else { all.len() };
        let end = if limit < all.len() - start { start + limit } else { all.len() };
        let mut out: Vec<ExternalWorkerRecord> = Vec::new();
        let mut j: usize = start;
        while j < end
            invariant
                start <= j <= end <= all@.len(),
                out@ == all@.subrange(start as int, j as int),
            decreases end - j,
        {
            out.push(all[j].duplicate());
            assert(out@ =~= all@.subrange(start as int, j + 1));
            j = j + 1;
        }
        out
    }

    /// Checks a worker's report about a task (`None` when the task does not
    /// exist) and gives the state the task moves to, if the report carries an
    /// outcome. Refused with `NotFound` for an unknown task and with
    /// `InvalidTransition` for a task in a terminal state.
    pub fn report(&self, task_id: &str, task: Option<&TaskStatus>, outcome: Option<ExternalWorkerOutcome>) -> (r: Result<Option<TaskTarget>, RuntimeError>)
        ensures
            match task {
                None => fails_not_found(r, "task"@, task_id@),
                Some(t) => if t.terminal {
                    r matches Err(RuntimeError::InvalidTransition { entity, from, to }) && entity@ == "task"@
                        && from@ == t.state_name@ && to@ == "worker report"@
                } else {
                    r == Ok::<Option<TaskTarget>, RuntimeError>(match outcome {
                        Some(o) => Some(target_of(o)),
                        None => None,
                    })
                },
            },
    {
        let t = match task {
            None => return Err(not_found("task", task_id)),
            Some(t) => t,
        };
        if t.terminal {
            return Err(RuntimeError::InvalidTransition {
                entity: "task".to_owned(),
                from: t.state_name.clone(),
                to: "worker report".to_owned(),
            });
        }
        match outcome {
            Some(o) => Ok(Some(match o {
                ExternalWorkerOutcome::Completed => TaskTarget::Completed,
                ExternalWorkerOutcome::Failed { failure_class } => TaskTarget::Failed(failure_class),
                ExternalWorkerOutcome::Canceled => TaskTarget::Canceled,
                ExternalWorkerOutcome::Suspended => TaskTarget::Paused,
            })),
            None => Ok(None),
        }
    }
}

} // verus!
