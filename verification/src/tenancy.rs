//! Tenants and projects: created once each, refused with `Conflict` when
//! created again, and listed a page at a time.
use vstd::prelude::*;
use crate::clock::{at_time, now_ms};
use crate::domain::ProjectKey;
use crate::runtime_error::{conflict, fails_conflict, RuntimeError};
use crate::text::str_eq;

verus! {

/// The part of a sequence that a page of `limit` items after the first
/// `offset` shows.
pub open spec fn page<T>(all: Seq<T>, limit: usize, offset: usize) -> Seq<T> {
    let start = if offset < all.len() { offset as int } else { all.len() as int };
    let end = if start + limit < all.len() { start + limit } else { all.len() as int };
    all.subrange(start, end)
}

/// A tenant.
#[derive(Debug)]
pub struct TenantRecord {
    pub tenant_id: String,
    pub name: String,
    pub created_at_ms: u64,
}

impl TenantRecord {
    /// A field-by-field copy.
    pub fn duplicate(&self) -> (r: Self)
        ensures
            r == *self,
    {
        TenantRecord { tenant_id: self.tenant_id.clone(), name: self.name.clone(), created_at_ms: self.created_at_ms }
    }
}

/// Some tenant has the id.
pub open spec fn has_tenant(s: Seq<TenantRecord>, tenant_id: Seq<char>) -> bool {
    exists|i: int| 0 <= i < s.len() && #[trigger] s[i].tenant_id@ == tenant_id
}

/// Tenants in the order they were created.
pub struct TenantServiceImpl {
    tenants: Vec<TenantRecord>,
}

impl TenantServiceImpl {
    pub closed spec fn tenants(&self) -> Seq<TenantRecord> {
        self.tenants@
    }

    /// No two tenants share an id.
    pub closed spec fn wf(&self) -> bool {
        forall|a: int, b: int|
            0 <= a < self.tenants@.len() && 0 <= b < self.tenants@.len() && a != b
                ==> #[trigger] self.tenants@[a].tenant_id@ != #[trigger] self.tenants@[b].tenant_id@
    }

    pub fn new() -> (r: Self)
        ensures
            r.wf(),
            r.tenants() == Seq::<TenantRecord>::empty(),
    {
        TenantServiceImpl { tenants: Vec::new() }
    }

    fn position(&self, tenant_id: &str) -> (r: Option<usize>)
        ensures
            match r {
                Some(i) => i < self.tenants@.len() && self.tenants@[i as int].tenant_id@ == tenant_id@,
                None => !has_tenant(self.tenants@, tenant_id@),
            },
    {
        let mut i: usize = 0;
        while i < self.tenants.len()
            invariant
                i <= self.tenants@.len(),
                forall|j: int| 0 <= j < i ==> #[trigger] self.tenants@[j].tenant_id@ != tenant_id@,
            decreases self.tenants@.len() - i,
        {
            if str_eq(self.tenants[i].tenant_id.as_str(), tenant_id) {
                return Some(i);
            }
            i = i + 1;
        }
        None
    }

    /// Creates a tenant at `now`; refused with `Conflict` if the id is taken.
    pub fn create_at(&mut self, tenant_id: &str, name: String, now: u64) -> (r: Result<TenantRecord, RuntimeError>)
        requires
            old(self).wf(),
        ensures
            final(self).wf(),
            has_tenant(old(self).tenants(), tenant_id@) ==> fails_conflict(r, "tenant"@, tenant_id@)
                && final(self).tenants() == old(self).tenants(),
            !has_tenant(old(self).tenants(), tenant_id@) ==> (r matches Ok(t) && t.tenant_id@ == tenant_id@ && t.name == name
                && t.created_at_ms == now && final(self).tenants() == old(self).tenants().push(t)),
    {
        if self.position(tenant_id).is_some() {
            return Err(conflict("tenant", tenant_id));
        }
        let rec = TenantRecord { tenant_id: tenant_id.to_owned(), name, created_at_ms: now };
        let out = rec.duplicate();
        self.tenants.push(rec);
        proof {
            let s = self.tenants@;
            assert forall|a: int, b: int| 0 <= a < s.len() && 0 <= b < s.len() && a != b implies #[trigger] s[a].tenant_id@
                != #[trigger] s[b].tenant_id@ by {
                if a < s.len() - 1 && b < s.len() - 1 {
                    assert(old(self).tenants@[a].tenant_id@ != old(self).tenants@[b].tenant_id@);
                } else if a < s.len() - 1 {
                    assert(s[a] == old(self).tenants@[a]);
                } else {
                    assert(s[b] == old(self).tenants@[b]);
                }
            }
        }
        Ok(out)
    }

    /// Creates a tenant, stamped with the current time.
    pub fn create(&mut self, tenant_id: &str, name: String) -> (r: Result<TenantRecord, RuntimeError>)
        requires
            old(self).wf(),
        ensures
            final(self).wf(),
            has_tenant(old(self).tenants(), tenant_id@) ==> fails_conflict(r, "tenant"@, tenant_id@)
                && final(self).tenants() == old(self).tenants(),
            !has_tenant(old(self).tenants(), tenant_id@) ==> (r matches Ok(t) && t.tenant_id@ == tenant_id@ && t.name == name
                && final(self).tenants() == old(self).tenants().push(t)),
            exists|tm: u64| #[trigger] at_time(tm)
                && (!has_tenant(old(self).tenants(), tenant_id@) ==> (r matches Ok(t) && t.tenant_id@ == tenant_id@ && t.name == name
                    && t.created_at_ms == tm && final(self).tenants() == old(self).tenants().push(t))),
    {
        let now = now_ms();
        let r = self.create_at(tenant_id, name, now);
        assert(at_time(now));
        r
    }

    /// The tenant with an id.
    pub fn get(&self, tenant_id: &str) -> (r: Option<&TenantRecord>)
        ensures
            match r {
                Some(t) => self.tenants().contains(*t) && t.tenant_id@ == tenant_id@,
                None => !has_tenant(self.tenants(), tenant_id@),
            },
    {
        match self.position(tenant_id) {
            Some(i) => Some(&self.tenants[i]),
            None => None,
        }
    }

    /// Tenants in creation order, skipping the first `offset` and keeping at
    /// most `limit`.
    pub fn list(&self, limit: usize, offset: usize) -> (r: Vec<TenantRecord>)
        ensures
            r@ == page(self.tenants(), limit, offset),
    {
        let all = &self.tenants;
        let start = if offset < all.len() { offset } else { all.len() };
        let end = if limit < all.len() - start { start + limit } else { all.len() };
        let mut out: Vec<TenantRecord> = Vec::new();
        let mut j: usize = start;
        while j < end
            invariant
                start <= j <= end <= all@.len(),
                out@ == all@.subrange(start as int, j as int),
            decreases end - j,
        {
            out.push(all[j].duplicate());
            assert(out@ =~= all@.subrange(start as int, j + 1));
            j = j + 1;
        }
        out
    }
}

/// A project.
#[derive(Debug)]
pub struct ProjectRecord {
    pub tenant_id: String,
    pub workspace_id: String,
    pub project_id: String,
    pub name: String,
    pub created_at_ms: u64,
}

impl ProjectRecord {
    /// A field-by-field copy.
    pub fn duplicate(&self) -> (r: Self)
        ensures
            r == *self,
    {
        ProjectRecord {
            tenant_id: self.tenant_id.clone(),
            workspace_id: self.workspace_id.clone(),
            project_id: self.project_id.clone(),
            name: self.name.clone(),
            created_at_ms: self.created_at_ms,
        }
    }

    /// The key of the project.
    pub open spec fn key(self) -> (Seq<char>, Seq<char>, Seq<char>) {
        (self.tenant_id@, self.workspace_id@, self.project_id@)
    }
}

/// Some project has the key.
pub open spec fn has_project(s: Seq<ProjectRecord>, key: (Seq<char>, Seq<char>, Seq<char>)) -> bool {
    exists|i: int| 0 <= i < s.len() && #[trigger] s[i].key() == key
}

/// Projects in the order they were created.
pub struct ProjectServiceImpl {
    projects: Vec<ProjectRecord>,
}

impl ProjectServiceImpl {
    pub closed spec fn projects(&self) -> Seq<ProjectRecord> {
        self.projects@
    }

    /// No two projects share a key.
    pub closed spec fn wf(&self) -> bool {
        forall|a: int, b: int|
            0 <= a < self.projects@.len() && 0 <= b < self.projects@.len() && a != b
                ==> #[trigger] self.projects@[a].key() != #[trigger] self.projects@[b].key()
    }

    pub fn new() -> (r: Self)
        ensures
            r.wf(),
            r.projects() == Seq::<ProjectRecord>::empty(),
    {
        ProjectServiceImpl { projects: Vec::new() }
    }

    fn position(&self, project: &ProjectKey) -> (r: Option<usize>)
        ensures
            match r {
                Some(i) => i < self.projects@.len() && self.projects@[i as int].key() == project@,
                None => !has_project(self.projects@, project@),
            },
    {
        let mut i: usize = 0;
        while i < self.projects.len()
            invariant
                i <= self.projects@.len(),
                forall|j: int| 0 <= j < i ==> #[trigger] self.projects@[j].key() != project@,
            decreases self.projects@.len() - i,
        {
            let p = &self.projects[i];
            if str_eq(p.tenant_id.as_str(), project.tenant_id.as_str()) && str_eq(p.workspace_id.as_str(), project.workspace_id.as_str())
                && str_eq(p.project_id.as_str(), project.project_id.as_str()) {
                return Some(i);
            }
            i = i + 1;
        }
        None
    }

    /// Creates a project at `now`; refused with `Conflict` (naming the
    /// project id) if the project exists.
    pub fn create_at(&mut self, project: &ProjectKey, name: String, now: u64) -> (r: Result<ProjectRecord, RuntimeError>)
        requires
            old(self).wf(),
        ensures
            final(self).wf(),
            has_project(old(self).projects(), project@) ==> fails_conflict(r, "project"@, project@.2)
                && final(self).projects() == old(self).projects(),
            !has_project(old(self).projects(), project@) ==> (r matches Ok(p) && p.key() == project@ && p.name == name
                && p.created_at_ms == now && final(self).projects() == old(self).projects().push(p)),
    {
        if self.position(project).is_some() {
            return Err(conflict("project", project.project_id.as_str()));
        }
        let rec = ProjectRecord {
            tenant_id: project.tenant_id.clone(),
            workspace_id: project.workspace_id.clone(),
            project_id: project.project_id.clone(),
            name,
            created_at_ms: now,
        };
        let out = rec.duplicate();
        self.projects.push(rec);
        proof {
            let s = self.projects@;
            assert forall|a: int, b: int| 0 <= a < s.len() && 0 <= b < s.len() && a != b implies #[trigger] s[a].key()
                != #[trigger] s[b].key() by {
                if a < s.len() - 1 && b < s.len() - 1 {
                    assert(old(self).projects@[a].key() != old(self).projects@[b].key());
                } else if a < s.len() - 1 {
                    assert(s[a] == old(self).projects@[a]);
                } else {
                    assert(s[b] == old(self).projects@[b]);
                }
            }
        }
        Ok(out)
    }

    /// Creates a project, stamped with the current time.
    pub fn create(&mut self, project: &ProjectKey, name: String) -> (r: Result<ProjectRecord, RuntimeError>)
        requires
            old(self).wf(),
        ensures
            final(self).wf(),
            has_project(old(self).projects(), project@) ==> fails_conflict(r, "project"@, project@.2)
                && final(self).projects() == old(self).projects(),
            !has_project(old(self).projects(), project@) ==> (r matches Ok(p) && p.key() == project@ && p.name == name
                && final(self).projects() == old(self).projects().push(p)),
            exists|tm: u64| #[trigger] at_time(tm)
                && (!has_project(old(self).projects(), project@) ==> (r matches Ok(p) && p.key() == project@ && p.name == name
                    && p.created_at_ms == tm && final(self).projects() == old(self).projects().push(p))),
    {
        let now = now_ms();
        let r = self.create_at(project, name, now);
        assert(at_time(now));
        r
    }

    /// The project with a key.
    pub fn get(&self, project: &ProjectKey) -> (r: Option<&ProjectRecord>)
        ensures
            match r {
                Some(p) => self.projects().contains(*p) && p.key() == project@,
                None => !has_project(self.projects(), project@),
            },
    {
        match self.position(project) {
            Some(i) => Some(&self.projects[i]),
            None => None,
        }
    }

    /// A workspace's projects in creation order, skipping the first
    /// `offset` and keeping at most `limit`.
    pub fn list_by_workspace(&self, tenant_id: &str, workspace_id: &str, limit: usize, offset: usize) -> (r: Vec<ProjectRecord>)
        ensures
            r@ == page(self.projects().filter(|p: ProjectRecord| p.tenant_id@ == tenant_id@ && p.workspace_id@ == workspace_id@), limit, offset),
    {
        let ghost f = |p: ProjectRecord| p.tenant_id@ == tenant_id@ && p.workspace_id@ == workspace_id@;
        let mut all: Vec<ProjectRecord> = Vec::new();
        let mut i: usize = 0;
        while i < self.projects.len()
            invariant
                i <= self.projects@.len(),
                f == (|p: ProjectRecord| p.tenant_id@ == tenant_id@ && p.workspace_id@ == workspace_id@),
                all@ == self.projects@.take(i as int).filter(f),
            decreases self.projects@.len() - i,
        {
            proof {
                assert(self.projects@.take(i + 1) =~= self.projects@.take(i as int).push(self.projects@[i as int]));
                self.projects@.take(i as int).lemma_filter_push(self.projects@[i as int], f);
            }
            let p = &self.projects[i];
            if str_eq(p.tenant_id.as_str(), tenant_id) && str_eq(p.workspace_id.as_str(), workspace_id) {
                all.push(p.duplicate());
            }
            i = i + 1;
        }
        assert(self.projects@.take(self.projects@.len() as int) =~= self.projects@);
        let start = if offset < all.len() { offset } else { all.len() };
        let end = if limit < all.len() - start { start + limit } else { all.len() };
        let mut out: Vec<ProjectRecord> = Vec::new();
        let mut j: usize = start;
        while j < end
            invariant
                start <= j <= end <= all@.len(),
                out@ == all@.subrange(start as int, j as int),
            decreases end - j,
        {
            out.push(all[j].duplicate());
            assert(out@ =~= all@.subrange(start as int, j + 1));
            j = j + 1;
        }
        out
    }
}

/// A page skips the first `offset` items and keeps the next ones, in
/// order, up to `limit` of them: as many as `limit` when enough remain,
/// else all that remain (none when `offset` is past the end).
pub proof fn law_page_is_a_window<T>(all: Seq<T>, limit: usize, offset: usize)
    ensures
        page(all, limit, offset).len() == if offset >= all.len() {
            0
        } else if all.len() - offset < limit {
            all.len() - offset
        } else {
            limit as int
        },
        forall|i: int| 0 <= i < page(all, limit, offset).len() ==> #[trigger] page(all, limit, offset)[i] == all[offset + i],
{
}

} // verus!
