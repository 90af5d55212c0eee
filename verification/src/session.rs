//! Sessions: created once each within the tenant's session quota, archived
//! at most once, and moved to the state their runs call for unless they
//! have already ended.
use vstd::prelude::*;
use crate::domain::ProjectKey;
use crate::quota::{is_quota_exceeded, quota_breached, quota_usage, QuotaServiceImpl};
use crate::runtime_error::{conflict, fails_conflict, fails_not_found, not_found, RuntimeError};
use crate::tenancy::page;
use crate::text::str_eq;

verus! {

/// Where a session is.
#[derive(Debug, Clone, Copy, PartialEq, Eq, Structural)]
pub enum SessionState {
    Open,
    Completed,
    Failed,
    Archived,
}

/// Whether a session has ended: completed or failed.
pub open spec fn is_terminal(s: SessionState) -> bool {
    s == SessionState::Completed || s == SessionState::Failed
}

/// A session.
#[derive(Debug)]
pub struct SessionRecord {
    pub session_id: String,
    pub project: ProjectKey,
    pub state: SessionState,
}

impl SessionRecord {
    /// A field-by-field copy.
    pub fn duplicate(&self) -> (r: Self)
        ensures
            r == *self,
    {
        SessionRecord { session_id: self.session_id.clone(), project: self.project.duplicate(), state: self.state }
    }
}

/// Some session has the id.
pub open spec fn has_session(s: Seq<SessionRecord>, id: Seq<char>) -> bool {
    exists|i: int| 0 <= i < s.len() && #[trigger] s[i].session_id@ == id
}

/// The position of the session with an id (ids being unique).
pub open spec fn session_index(s: Seq<SessionRecord>, id: Seq<char>) -> int {
    choose|i: int| 0 <= i < s.len() && #[trigger] s[i].session_id@ == id
}

/// The sessions after the one with an id is archived.
pub open spec fn after_archive(s: Seq<SessionRecord>, id: Seq<char>) -> Seq<SessionRecord> {
    if has_session(s, id) {
        let i = session_index(s, id);
        s.update(i, SessionRecord { session_id: s[i].session_id, project: s[i].project, state: SessionState::Archived })
    } else {
        s
    }
}

/// Archiving a session twice leaves the sessions as archiving it once.
pub proof fn law_archive_is_idempotent(s: Seq<SessionRecord>, id: Seq<char>)
    requires
        forall|a: int, b: int| 0 <= a < s.len() && 0 <= b < s.len() && a != b ==> #[trigger] s[a].session_id@ != #[trigger] s[b].session_id@,
    ensures
        after_archive(after_archive(s, id), id) == after_archive(s, id),
{
    if has_session(s, id) {
        let i = session_index(s, id);
        let t = after_archive(s, id);
        assert(t[i].session_id@ == id);
        assert(has_session(t, id));
        let k = session_index(t, id);
        if k != i {
            assert(s[k].session_id@ != s[i].session_id@);
        }
        assert(after_archive(t, id) =~= t);
    }
}

/// Sessions in the order they were created.
pub struct SessionServiceImpl {
    sessions: Vec<SessionRecord>,
}

impl SessionServiceImpl {
    pub closed spec fn sessions(&self) -> Seq<SessionRecord> {
        self.sessions@
    }

    /// No two sessions share an id.
    pub closed spec fn wf(&self) -> bool {
        forall|a: int, b: int|
            0 <= a < self.sessions@.len() && 0 <= b < self.sessions@.len() && a != b
                ==> #[trigger] self.sessions@[a].session_id@ != #[trigger] self.sessions@[b].session_id@
    }

    pub fn new() -> (r: Self)
        ensures
            r.wf(),
            r.sessions() == Seq::<SessionRecord>::empty(),
    {
        SessionServiceImpl { sessions: Vec::new() }
    }

    fn position(&self, session_id: &str) -> (r: Option<usize>)
        requires
            self.wf(),
        ensures
            match r {
                Some(i) => i < self.sessions@.len() && self.sessions@[i as int].session_id@ == session_id@
                    && session_index(self.sessions@, session_id@) == i,
                None => !has_session(self.sessions@, session_id@),
            },
    {
        let mut i: usize = 0;
        while i < self.sessions.len()
            invariant
                self.wf(),
                i <= self.sessions@.len(),
                forall|j: int| 0 <= j < i ==> #[trigger] self.sessions@[j].session_id@ != session_id@,
            decreases self.sessions@.len() - i,
        {
            if str_eq(self.sessions[i].session_id.as_str(), session_id) {
                proof {
                    let k = session_index(self.sessions@, session_id@);
                    if k != i as int {
                        assert(self.sessions@[k].session_id@ != self.sessions@[i as int].session_id@);
                    }
                }
                return Some(i);
            }
            i = i + 1;
        }
        None
    }

    /// Opens a session in a project. Refused with `Conflict` if the id is
    /// taken; otherwise refused with `QuotaExceeded` (and the violation
    /// logged) when the tenant has used up its sessions for the hour.
    pub fn create(&mut self, project: &ProjectKey, session_id: &str, quotas: &mut QuotaServiceImpl) -> (r: Result<
        SessionRecord,
        RuntimeError,
    >)
        requires
            old(self).wf(),
            old(quotas).wf(),
        ensures
            final(self).wf(),
            final(quotas).wf(),
            final(quotas).entries() == old(quotas).entries(),
            has_session(old(self).sessions(), session_id@) ==> fails_conflict(r, "session"@, session_id@)
                && final(self).sessions() == old(self).sessions() && final(quotas).violations() == old(quotas).violations(),
            !has_session(old(self).sessions(), session_id@) ==> {
                let breached = match QuotaServiceImpl::quota_of(old(quotas).entries(), project.tenant_id@) {
                    Some(q) => quota_breached(q, "max_sessions_per_hour"@),
                    None => false,
                };
                &&& breached ==> (r matches Err(e) && QuotaServiceImpl::quota_of(old(quotas).entries(), project.tenant_id@) matches Some(q)
                    && is_quota_exceeded(e, project.tenant_id@, "max_sessions_per_hour"@, quota_usage(q, "max_sessions_per_hour"@)))
                    && final(self).sessions() == old(self).sessions()
                &&& !breached ==> (r matches Ok(s) && s.session_id@ == session_id@ && s.project == *project
                    && s.state == SessionState::Open && final(self).sessions() == old(self).sessions().push(s))
            },
    {
        if self.position(session_id).is_some() {
            return Err(conflict("session", session_id));
        }
        match quotas.check_session_quota(project.tenant_id.as_str()) {
            Err(e) => return Err(e),
            Ok(()) => {},
        }
        let rec = SessionRecord { session_id: session_id.to_owned(), project: project.duplicate(), state: SessionState::Open };
        let out = rec.duplicate();
        self.sessions.push(rec);
        proof {
            let s = self.sessions@;
            assert forall|a: int, b: int| 0 <= a < s.len() && 0 <= b < s.len() && a != b implies #[trigger] s[a].session_id@
                != #[trigger] s[b].session_id@ by {
                if a < s.len() - 1 && b < s.len() - 1 {
                    assert(old(self).sessions@[a].session_id@ != old(self).sessions@[b].session_id@);
                } else if a < s.len() - 1 {
                    assert(s[a] == old(self).sessions@[a]);
                } else {
                    assert(s[b] == old(self).sessions@[b]);
                }
            }
        }
        Ok(out)
    }

    /// The session with an id.
    pub fn get(&self, session_id: &str) -> (r: Option<&SessionRecord>)
        requires
            self.wf(),
        ensures
            match r {
                Some(s) => self.sessions().contains(*s) && s.session_id@ == session_id@,
                None => !has_session(self.sessions(), session_id@),
            },
    {
        match self.position(session_id) {
            Some(i) => Some(&self.sessions[i]),
            None => None,
        }
    }

    /// A project's sessions in creation order, skipping the first `offset`
    /// and keeping at most `limit`.
    pub fn list(&self, project: &ProjectKey, limit: usize, offset: usize) -> (r: Vec<SessionRecord>)
        ensures
            r@ == page(self.sessions().filter(|s: SessionRecord| s.project@ == project@), limit, offset),
    {
        let ghost f = |s: SessionRecord| s.project@ == project@;
        let mut all: Vec<SessionRecord> = Vec::new();
        let mut i: usize = 0;
        while i < self.sessions.len()
            invariant
                i <= self.sessions@.len(),
                f == (|s: SessionRecord| s.project@ == project@),
                all@ == self.sessions@.take(i as int).filter(f),
            decreases self.sessions@.len() - i,
        {
            proof {
                assert(self.sessions@.take(i + 1) =~= self.sessions@.take(i as int).push(self.sessions@[i as int]));
                self.sessions@.take(i as int).lemma_filter_push(self.sessions@[i as int], f);
            }
            if self.sessions[i].project.same(project) {
                all.push(self.sessions[i].duplicate());
            }
            i = i + 1;
        }
        assert(self.sessions@.take(self.sessions@.len() as int) =~= self.sessions@);
        let start = if offset < all.len() { offset } else { all.len() };
        let end = if limit < all.len() - start { start + limit } else { all.len() };
        let mut out: Vec<SessionRecord> = Vec::new();
        let mut j: usize = start;
        while j < end
            invariant
                start <= j <= end <= all@.len(),
                out@ == all@.subrange(start as int, j as int),
            decreases end - j,
        {
            out.push(all[j].duplicate());
            assert(out@ =~= all@.subrange(start as int, j + 1));
            j = j + 1;
        }
        out
    }

    /// Moves the session at `i` to `state`.
    fn set_state(&mut self, i: usize, state: SessionState)
        requires
            old(self).wf(),
            i < old(self).sessions().len(),
        ensures
            final(self).wf(),
            final(self).sessions() == old(self).sessions().update(
                i as int,
                SessionRecord {
                    session_id: old(self).sessions()[i as int].session_id,
                    project: old(self).sessions()[i as int].project,
                    state,
                },
            ),
    {
        let c = self.sessions[i].duplicate();
        self.sessions.set(i, SessionRecord { session_id: c.session_id, project: c.project, state });
        proof {
            let s = self.sessions@;
            assert forall|a: int, b: int| 0 <= a < s.len() && 0 <= b < s.len() && a != b implies #[trigger] s[a].session_id@
                != #[trigger] s[b].session_id@ by {
                assert(old(self).sessions@[a].session_id@ != old(self).sessions@[b].session_id@);
            }
        }
    }

    /// Archives a session; an archived session is handed back as it is.
    /// Refused with `NotFound` for an unknown session.
    pub fn archive(&mut self, session_id: &str) -> (r: Result<SessionRecord, RuntimeError>)
        requires
            old(self).wf(),
        ensures
            final(self).wf(),
            !has_session(old(self).sessions(), session_id@) ==> fails_not_found(r, "session"@, session_id@)
                && final(self).sessions() == old(self).sessions(),
            has_session(old(self).sessions(), session_id@) ==> {
                let i = session_index(old(self).sessions(), session_id@);
                let s = old(self).sessions()[i];
                let archived = SessionRecord { session_id: s.session_id, project: s.project, state: SessionState::Archived };
                &&& r matches Ok(x) && x == archived
                &&& final(self).sessions() == if s.state == SessionState::Archived {
                    old(self).sessions()
                } else {
                    old(self).sessions().update(i, archived)
                }
                &&& final(self).sessions() == after_archive(old(self).sessions(), session_id@)
            },
    {
        let i = match self.position(session_id) {
            Some(i) => i,
            None => return Err(not_found("session", session_id)),
        };
        if self.sessions[i].state == SessionState::Archived {
            return Ok(self.sessions[i].duplicate());
        }
        self.set_state(i, SessionState::Archived);
        Ok(self.sessions[i].duplicate())
    }

    /// Moves a session to the state its runs call for (`derived`, derived
    /// from the session's runs), unless the session is unknown or has
    /// already ended. Says whether the state changed.
    pub fn update_derived_state(&mut self, session_id: &str, derived: SessionState) -> (r: bool)
        requires
            old(self).wf(),
        ensures
            final(self).wf(),
            r == (has_session(old(self).sessions(), session_id@) && {
                let s = old(self).sessions()[session_index(old(self).sessions(), session_id@)];
                !is_terminal(s.state) && s.state != derived
            }),
            !r ==> final(self).sessions() == old(self).sessions(),
            r ==> {
                let i = session_index(old(self).sessions(), session_id@);
                let s = old(self).sessions()[i];
                final(self).sessions() == old(self).sessions().update(
                    i,
                    SessionRecord { session_id: s.session_id, project: s.project, state: derived },
                )
            },
    {
        let i = match self.position(session_id) {
            Some(i) => i,
            None => return false,
        };
        let state = self.sessions[i].state;
        if state == SessionState::Completed || state == SessionState::Failed || state == derived {
            return false;
        }
        self.set_state(i, derived);
        true
    }
}

} // verus!
