//! Memory ingest jobs: started as processing, and completed as done or
//! failed with the error met.
use vstd::prelude::*;
use crate::clock::{at_time, now_ms};
use crate::domain::ProjectKey;
use crate::runtime_error::RuntimeError;
use crate::tenancy::page;
use crate::text::str_eq;

verus! {

/// Where an ingest job is.
#[derive(Debug, Clone, Copy, PartialEq, Eq, Structural)]
pub enum IngestJobState {
    Processing,
    Completed,
    Failed,
}

/// An ingest job.
#[derive(Debug)]
pub struct IngestJobRecord {
    pub id: String,
    pub project: ProjectKey,
    pub source_id: Option<String>,
    pub document_count: u32,
    pub state: IngestJobState,
    pub error_message: Option<String>,
    pub created_at_ms: u64,
    pub updated_at_ms: u64,
}

impl IngestJobRecord {
    /// A field-by-field copy.
    pub fn duplicate(&self) -> (r: Self)
        ensures
            r == *self,
    {
        IngestJobRecord {
            id: self.id.clone(),
            project: self.project.duplicate(),
            source_id: match &self.source_id {
                Some(v) => Some(v.clone()),
                None => None,
            },
            document_count: self.document_count,
            state: self.state,
            error_message: match &self.error_message {
                Some(v) => Some(v.clone()),
                None => None,
            },
            created_at_ms: self.created_at_ms,
            updated_at_ms: self.updated_at_ms,
        }
    }
}

/// The message of the error a completion of an unknown job reports.
pub open spec fn missing_job_message() -> Seq<char> {
    "ingest job not found after complete"@
}

/// Some job has the id.
pub open spec fn has_job(s: Seq<IngestJobRecord>, id: Seq<char>) -> bool {
    exists|i: int| 0 <= i < s.len() && #[trigger] s[i].id@ == id
}

/// The jobs with `j` put in: in place of the job with its id, or last.
pub open spec fn put_job(s: Seq<IngestJobRecord>, j: IngestJobRecord) -> Seq<IngestJobRecord> {
    if has_job(s, j.id@) {
        s.update(choose|i: int| 0 <= i < s.len() && #[trigger] s[i].id@ == j.id@, j)
    } else {
        s.push(j)
    }
}

/// Ingest jobs in the order they were first started.
pub struct IngestJobServiceImpl {
    jobs: Vec<IngestJobRecord>,
}

impl IngestJobServiceImpl {
    pub closed spec fn jobs(&self) -> Seq<IngestJobRecord> {
        self.jobs@
    }

    /// No two jobs share an id.
    pub closed spec fn wf(&self) -> bool {
        forall|a: int, b: int|
            0 <= a < self.jobs@.len() && 0 <= b < self.jobs@.len() && a != b ==> #[trigger] self.jobs@[a].id@ != #[trigger] self.jobs@[b].id@
    }

    pub fn new() -> (r: Self)
        ensures
            r.wf(),
            r.jobs() == Seq::<IngestJobRecord>::empty(),
    {
        IngestJobServiceImpl { jobs: Vec::new() }
    }

    fn position(&self, job_id: &str) -> (r: Option<usize>)
        requires
            self.wf(),
        ensures
            match r {
                Some(i) => i < self.jobs@.len() && self.jobs@[i as int].id@ == job_id@
                    && (choose|k: int| 0 <= k < self.jobs@.len() && #[trigger] self.jobs@[k].id@ == job_id@) == i,
                None => !has_job(self.jobs@, job_id@),
            },
    {
        let mut i: usize = 0;
        while i < self.jobs.len()
            invariant
                self.wf(),
                i <= self.jobs@.len(),
                forall|j: int| 0 <= j < i ==> #[trigger] self.jobs@[j].id@ != job_id@,
            decreases self.jobs@.len() - i,
        {
            if str_eq(self.jobs[i].id.as_str(), job_id) {
                proof {
                    let k = choose|k: int| 0 <= k < self.jobs@.len() && #[trigger] self.jobs@[k].id@ == job_id@;
                    if k != i as int {
                        assert(self.jobs@[k].id@ != self.jobs@[i as int].id@);
                    }
                }
                return Some(i);
            }
            i = i + 1;
        }
        None
    }

    proof fn lemma_put_keeps_wf(&self, j: IngestJobRecord)
        requires
            self.wf(),
        ensures
            forall|a: int, b: int|
                0 <= a < put_job(self.jobs@, j).len() && 0 <= b < put_job(self.jobs@, j).len() && a != b
                    ==> #[trigger] put_job(self.jobs@, j)[a].id@ != #[trigger] put_job(self.jobs@, j)[b].id@,
    {
        let s = self.jobs@;
        let t = put_job(s, j);
        if has_job(s, j.id@) {
            let k = choose|i: int| 0 <= i < s.len() && #[trigger] s[i].id@ == j.id@;
            assert forall|a: int, b: int| 0 <= a < t.len() && 0 <= b < t.len() && a != b implies #[trigger] t[a].id@ != #[trigger] t[b].id@ by {
                assert(s[a].id@ != s[b].id@);
            }
        } else {
            assert forall|a: int, b: int| 0 <= a < t.len() && 0 <= b < t.len() && a != b implies #[trigger] t[a].id@ != #[trigger] t[b].id@ by {
                if a < s.len() && b < s.len() {
                    assert(s[a].id@ != s[b].id@);
                } else if a < s.len() {
                    assert(s[a].id@ != j.id@);
                } else {
                    assert(s[b].id@ != j.id@);
                }
            }
        }
    }

    /// Starts a job at `now`: it is processing its documents. Starting an
    /// id again replaces that job.
    pub fn start_at(
        &mut self,
        project: &ProjectKey,
        job_id: &str,
        source_id: Option<String>,
        document_count: u32,
        now: u64,
    ) -> (r: IngestJobRecord)
        requires
            old(self).wf(),
        ensures
            final(self).wf(),
            r.id@ == job_id@,
            r.project == *project,
            r.source_id == source_id,
            r.document_count == document_count,
            r.state == IngestJobState::Processing,
            r.error_message is None,
            r.created_at_ms == now,
            r.updated_at_ms == now,
            final(self).jobs() == put_job(old(self).jobs(), r),
    {
        let rec = IngestJobRecord {
            id: job_id.to_owned(),
            project: project.duplicate(),
            source_id,
            document_count,
            state: IngestJobState::Processing,
            error_message: None,
            created_at_ms: now,
            updated_at_ms: now,
        };
        let out = rec.duplicate();
        proof {
            self.lemma_put_keeps_wf(out);
        }
        match self.position(job_id) {
            Some(i) => self.jobs.set(i, rec),
            None => self.jobs.push(rec),
        }
        out
    }

    /// Starts a job, stamped with the current time.
    pub fn start(&mut self, project: &ProjectKey, job_id: &str, source_id: Option<String>, document_count: u32) -> (r: IngestJobRecord)
        requires
            old(self).wf(),
        ensures
            final(self).wf(),
            r.id@ == job_id@,
            r.project == *project,
            r.source_id == source_id,
            r.document_count == document_count,
            r.state == IngestJobState::Processing,
            r.error_message is None,
            final(self).jobs() == put_job(old(self).jobs(), r),
            exists|tm: u64| #[trigger] at_time(tm)
                && (r.created_at_ms == tm)
                && (r.updated_at_ms == tm),
    {
        let now = now_ms();
        let r = self.start_at(project, job_id, source_id, document_count, now);
        assert(at_time(now));
        r
    }

    /// Completes a job at `now`: completed on success, else failed with the
    /// error message given. An unknown job is reported as an `Internal`
    /// error and nothing changes.
    pub fn complete_at(&mut self, job_id: &str, success: bool, error_message: Option<String>, now: u64) -> (r: Result<
        IngestJobRecord,
        RuntimeError,
    >)
        requires
            old(self).wf(),
        ensures
            final(self).wf(),
            !has_job(old(self).jobs(), job_id@) ==> final(self).jobs() == old(self).jobs() && (r matches Err(
                RuntimeError::Internal { message },
            ) && message@ == missing_job_message()),
            has_job(old(self).jobs(), job_id@) ==> (r matches Ok(j) && {
                let i = choose|i: int| 0 <= i < old(self).jobs().len() && #[trigger] old(self).jobs()[i].id@ == job_id@;
                let before = old(self).jobs()[i];
                &&& j.id == before.id
                &&& j.project == before.project
                &&& j.source_id == before.source_id
                &&& j.document_count == before.document_count
                &&& j.created_at_ms == before.created_at_ms
                &&& j.state == (if success { IngestJobState::Completed } else { IngestJobState::Failed })
                &&& j.error_message == error_message
                &&& j.updated_at_ms == now
                &&& final(self).jobs() == old(self).jobs().update(i, j)
            }),
    {
        let i = match self.position(job_id) {
            Some(i) => i,
            None => {
                return Err(RuntimeError::Internal { message: "ingest job not found after complete".to_owned() });
            },
        };
        let b = self.jobs[i].duplicate();
        let rec = IngestJobRecord {
            id: b.id,
            project: b.project,
            source_id: b.source_id,
            document_count: b.document_count,
            state: if success { IngestJobState::Completed } else { IngestJobState::Failed },
            error_message,
            created_at_ms: b.created_at_ms,
            updated_at_ms: now,
        };
        let out = rec.duplicate();
        self.jobs.set(i, rec);
        proof {
            let s = self.jobs@;
            assert forall|a: int, c: int| 0 <= a < s.len() && 0 <= c < s.len() && a != c implies #[trigger] s[a].id@ != #[trigger] s[c].id@ by {
                assert(old(self).jobs@[a].id@ != old(self).jobs@[c].id@);
            }
        }
        Ok(out)
    }

    /// Completes a job, stamped with the current time.
    pub fn complete(&mut self, job_id: &str, success: bool, error_message: Option<String>) -> (r: Result<IngestJobRecord, RuntimeError>)
        requires
            old(self).wf(),
        ensures
            final(self).wf(),
            !has_job(old(self).jobs(), job_id@) ==> final(self).jobs() == old(self).jobs() && (r matches Err(
                RuntimeError::Internal { message },
            ) && message@ == missing_job_message()),
            has_job(old(self).jobs(), job_id@) ==> (r matches Ok(j) && j.id@ == job_id@
                && j.state == (if success { IngestJobState::Completed } else { IngestJobState::Failed })
                && j.error_message == error_message && final(self).jobs().contains(j)),
            has_job(old(self).jobs(), job_id@) ==> (r matches Ok(j) && {
                let i = choose|i: int| 0 <= i < old(self).jobs().len() && #[trigger] old(self).jobs()[i].id@ == job_id@;
                let before = old(self).jobs()[i];
                &&& j.id == before.id
                &&& j.project == before.project
                &&& j.source_id == before.source_id
                &&& j.document_count == before.document_count
                &&& j.created_at_ms == before.created_at_ms
                &&& final(self).jobs() == old(self).jobs().update(i, j)
            }),
    {
        let now = now_ms();
        let r = self.complete_at(job_id, success, error_message, now);
        proof {
            if has_job(old(self).jobs(), job_id@) {
                let i = choose|i: int| 0 <= i < old(self).jobs().len() && #[trigger] old(self).jobs()[i].id@ == job_id@;
                assert(self.jobs()[i] == r->Ok_0);
            }
        }
        r
    }

    /// The job with an id.
    pub fn get(&self, job_id: &str) -> (r: Option<&IngestJobRecord>)
        requires
            self.wf(),
        ensures
            match r {
                Some(j) => self.jobs().contains(*j) && j.id@ == job_id@,
                None => !has_job(self.jobs(), job_id@),
            },
    {
        match self.position(job_id) {
            Some(i) => Some(&self.jobs[i]),
            None => None,
        }
    }

    /// A project's jobs in the order they were first started, skipping the
    /// first `offset` and keeping at most `limit`.
    pub fn list_by_project(&self, project: &ProjectKey, limit: usize, offset: usize) -> (r: Vec<IngestJobRecord>)
        ensures
            r@ == page(self.jobs().filter(|j: IngestJobRecord| j.project@ == project@), limit, offset),
    {
        let ghost f = |j: IngestJobRecord| j.project@ == project@;
        let mut all: Vec<IngestJobRecord> = Vec::new();
        let mut i: usize = 0;
        while i < self.jobs.len()
            invariant
                i <= self.jobs@.len(),
                f == (|j: IngestJobRecord| j.project@ == project@),
                all@ == self.jobs@.take(i as int).filter(f),
            decreases self.jobs@.len() - i,
        {
            proof {
                assert(self.jobs@.take(i + 1) =~= self.jobs@.take(i as int).push(self.jobs@[i as int]));
                self.jobs@.take(i as int).lemma_filter_push(self.jobs@[i as int], f);
            }
            if self.jobs[i].project.same(project) {
                all.push(self.jobs[i].duplicate());
            }
            i = i + 1;
        }
        assert(self.jobs@.take(self.jobs@.len() as int) =~= self.jobs@);
        let start = if offset < all.len() { offset } else { all.len() };
        let end = if limit < all.len() - start { start + limit } else { all.len() };
        let mut out: Vec<IngestJobRecord> = Vec::new();
        let mut j: usize = start;
        while j < end
            invariant
                start <= j <= end <= all@.len(),
                out@ == all@.subrange(start as int, j as int),
            decreases end - j,
        {
            out.push(all[j].duplicate());
            assert(out@ =~= all@.subrange(start as int, j + 1));
            j = j + 1;
        }
        out
    }
}

} // verus!
