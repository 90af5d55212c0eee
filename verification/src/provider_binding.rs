//! Provider bindings: which provider connection and model a project uses
//! for an operation, and whether the binding is active.
use vstd::prelude::*;
use crate::alist::TextMap;
use crate::clock::{at_time, now_ms};
use crate::domain::ProjectKey;
use crate::runtime_error::{fails_not_found, not_found, RuntimeError};
use crate::text::{concat3, decimal, decimal_string};

verus! {

/// What a binding is used for.
#[derive(Debug, Clone, Copy, PartialEq, Eq, Structural)]
pub enum OperationKind {
    Generate,
    Embed,
    Rerank,
}

pub open spec fn operation_label(op: OperationKind) -> Seq<char> {
    match op {
        OperationKind::Generate => "generate"@,
        OperationKind::Embed => "embed"@,
        OperationKind::Rerank => "rerank"@,
    }
}

/// The id of a binding created at `now` on a connection for an operation:
/// `pb_<now>_<connection>_<operation>`.
pub open spec fn binding_id_spec(now: u64, connection_id: Seq<char>, op: OperationKind) -> Seq<char> {
    "pb_"@ + decimal(now as nat) + "_"@ + connection_id + "_"@ + operation_label(op)
}

/// A binding of a project operation to a provider model.
#[derive(Debug)]
pub struct ProviderBindingRecord {
    pub provider_binding_id: String,
    pub project: ProjectKey,
    pub provider_connection_id: String,
    pub provider_model_id: String,
    pub operation_kind: OperationKind,
    pub active: bool,
    pub created_at: u64,
    pub estimated_cost_micros: Option<u64>,
}

impl ProviderBindingRecord {
    pub fn duplicate(&self) -> (r: Self)
        ensures
            r == *self,
    {
        ProviderBindingRecord {
            provider_binding_id: self.provider_binding_id.clone(),
            project: self.project.duplicate(),
            provider_connection_id: self.provider_connection_id.clone(),
            provider_model_id: self.provider_model_id.clone(),
            operation_kind: self.operation_kind,
            active: self.active,
            created_at: self.created_at,
            estimated_cost_micros: self.estimated_cost_micros,
        }
    }
}

/// Provider bindings by id, in creation order.
pub struct ProviderBindingServiceImpl {
    bindings: TextMap<ProviderBindingRecord>,
}

impl ProviderBindingServiceImpl {
    pub closed spec fn bindings(&self) -> Map<Seq<char>, ProviderBindingRecord> {
        self.bindings@
    }

    pub closed spec fn order(&self) -> Seq<ProviderBindingRecord> {
        self.bindings.entry_seq().map_values(|e: (Seq<char>, ProviderBindingRecord)| e.1)
    }

    pub closed spec fn wf(&self) -> bool {
        &&& self.bindings.wf()
        &&& forall|k: Seq<char>| #[trigger] self.bindings@.contains_key(k) ==> self.bindings@[k].provider_binding_id@ == k
    }

    pub fn new() -> (r: Self)
        ensures
            r.wf(),
            r.bindings() == Map::<Seq<char>, ProviderBindingRecord>::empty(),
    {
        ProviderBindingServiceImpl { bindings: TextMap::new() }
    }

    /// Creates an active binding at time `now`. `project_exists` says
    /// whether the project exists; `connection_tenant` is the tenant of the
    /// provider connection, `None` when there is no such connection.
    /// Refused with `NotFound` for a missing project or connection, and as
    /// internal when the connection belongs to another tenant.
    pub fn create_at(
        &mut self,
        project: &ProjectKey,
        project_exists: bool,
        provider_connection_id: &str,
        connection_tenant: Option<&str>,
        operation_kind: OperationKind,
        provider_model_id: &str,
        estimated_cost_micros: Option<u64>,
        now: u64,
    ) -> (r: Result<ProviderBindingRecord, RuntimeError>)
        requires
            old(self).wf(),
        ensures
            final(self).wf(),
            r is Err ==> final(self).bindings() == old(self).bindings(),
            !project_exists ==> fails_not_found(r, "project"@, project.project_id@),
            project_exists && connection_tenant is None ==> fails_not_found(r, "provider_connection"@, provider_connection_id@),
            project_exists && (connection_tenant matches Some(t) && t@ != project.tenant_id@) ==> (r matches Err(RuntimeError::Internal { message })
                && message@ == "provider connection tenant does not match binding project"@),
            project_exists && (connection_tenant matches Some(t) && t@ == project.tenant_id@) ==> (r matches Ok(b) && ({
                &&& b.provider_binding_id@ == binding_id_spec(now, provider_connection_id@, operation_kind)
                &&& b.project == *project
                &&& b.provider_connection_id@ == provider_connection_id@
                &&& b.provider_model_id@ == provider_model_id@
                &&& b.operation_kind == operation_kind
                &&& b.active
                &&& b.created_at == now
                &&& b.estimated_cost_micros == estimated_cost_micros
                &&& final(self).bindings() == old(self).bindings().insert(b.provider_binding_id@, b)
            })),
    {
        if !project_exists {
            return Err(not_found("project", project.project_id.as_str()));
        }
        let t = match connection_tenant {
            None => return Err(not_found("provider_connection", provider_connection_id)),
            Some(t) => t,
        };
        if !crate::text::str_eq(t, project.tenant_id.as_str()) {
            return Err(RuntimeError::Internal { message: "provider connection tenant does not match binding project".to_owned() });
        }
        let label = match operation_kind {
            OperationKind::Generate => "generate",
            OperationKind::Embed => "embed",
            OperationKind::Rerank => "rerank",
        };
        let digits = decimal_string(now);
        let a = concat3("pb_", digits.as_str(), "_");
        let b = concat3(a.as_str(), provider_connection_id, "_");
        let id = concat3(b.as_str(), label, "");
        proof {
            reveal_strlit("");
            assert(id@ =~= binding_id_spec(now, provider_connection_id@, operation_kind));
        }
        let rec = ProviderBindingRecord {
            provider_binding_id: id.clone(),
            project: project.duplicate(),
            provider_connection_id: provider_connection_id.to_owned(),
            provider_model_id: provider_model_id.to_owned(),
            operation_kind,
            active: true,
            created_at: now,
            estimated_cost_micros,
        };
        let out = rec.duplicate();
        self.bindings.insert(id, rec);
        Ok(out)
    }

    /// `create_at` at the clock's present reading.
    pub fn create(
        &mut self,
        project: &ProjectKey,
        project_exists: bool,
        provider_connection_id: &str,
        connection_tenant: Option<&str>,
        operation_kind: OperationKind,
        provider_model_id: &str,
        estimated_cost_micros: Option<u64>,
    ) -> (r: Result<ProviderBindingRecord, RuntimeError>)
        requires
            old(self).wf(),
        ensures
            final(self).wf(),
            r is Err ==> final(self).bindings() == old(self).bindings(),
            !project_exists ==> fails_not_found(r, "project"@, project.project_id@),
            project_exists && connection_tenant is None ==> fails_not_found(r, "provider_connection"@, provider_connection_id@),
            project_exists && (connection_tenant matches Some(t) && t@ != project.tenant_id@) ==> r is Err,
            project_exists && (connection_tenant matches Some(t) && t@ == project.tenant_id@) ==> (r matches Ok(b) && b.active
                && b.project == *project && b.provider_model_id@ == provider_model_id@ && b.operation_kind == operation_kind
                && final(self).bindings() == old(self).bindings().insert(b.provider_binding_id@, b)),
            project_exists && (connection_tenant matches Some(t) && t@ != project.tenant_id@) ==> (r matches Err(RuntimeError::Internal { message })
                && message@ == "provider connection tenant does not match binding project"@),
            exists|tm: u64| #[trigger] at_time(tm)
                && (project_exists && (connection_tenant matches Some(t) && t@ == project.tenant_id@) ==> (r matches Ok(b) && ({
                    &&& b.provider_binding_id@ == binding_id_spec(tm, provider_connection_id@, operation_kind)
                    &&& b.project == *project
                    &&& b.provider_connection_id@ == provider_connection_id@
                    &&& b.provider_model_id@ == provider_model_id@
                    &&& b.operation_kind == operation_kind
                    &&& b.active
                    &&& b.created_at == tm
                    &&& b.estimated_cost_micros == estimated_cost_micros
                    &&& final(self).bindings() == old(self).bindings().insert(b.provider_binding_id@, b)
                }))),
    {
        let now = now_ms();
        let r = self.create_at(project, project_exists, provider_connection_id, connection_tenant, operation_kind, provider_model_id, estimated_cost_micros, now);
        assert(at_time(now));
        r
    }

    /// A binding, if it exists.
    pub fn get(&self, id: &str) -> (r: Option<ProviderBindingRecord>)
        requires
            self.wf(),
        ensures
            match r {
                Some(b) => self.bindings().contains_key(id@) && b == self.bindings()[id@],
                None => !self.bindings().contains_key(id@),
            },
    {
        match self.bindings.get(&id.to_owned()) {
            Some(b) => Some(b.duplicate()),
            None => None,
        }
    }

    /// Sets whether a binding is active; a binding already in that state is
    /// returned as it is. Refused with `NotFound` for an unknown binding.
    fn set_active(&mut self, id: &str, active: bool) -> (r: Result<ProviderBindingRecord, RuntimeError>)
        requires
            old(self).wf(),
        ensures
            final(self).wf(),
            !old(self).bindings().contains_key(id@) ==> fails_not_found(r, "provider_binding"@, id@)
                && final(self).bindings() == old(self).bindings(),
            old(self).bindings().contains_key(id@) ==> (r matches Ok(b)
                && b == ProviderBindingRecord { active, ..old(self).bindings()[id@] }
                && final(self).bindings() == old(self).bindings().insert(id@, b)),
    {
        let key = id.to_owned();
        let i = match self.bindings.index_of(&key) {
            Some(i) => i,
            None => return Err(not_found("provider_binding", id)),
        };
        let (k, mut rec) = self.bindings.take_at(i);
        rec.active = active;
        let out = rec.duplicate();
        self.bindings.put_at(i, k, rec);
        proof {
            assert forall|q: Seq<char>| #[trigger] self.bindings@.contains_key(q) implies self.bindings@[q].provider_binding_id@ == q by {
                if q != id@ {
                    assert(old(self).bindings@.contains_key(q));
                }
            }
            if old(self).bindings()[id@].active == active {
                assert(old(self).bindings()[id@] == out);
                assert(self.bindings() =~= old(self).bindings());
            }
        }
        Ok(out)
    }

    /// Makes a binding active.
    pub fn activate(&mut self, id: &str) -> (r: Result<ProviderBindingRecord, RuntimeError>)
        requires
            old(self).wf(),
        ensures
            final(self).wf(),
            !old(self).bindings().contains_key(id@) ==> fails_not_found(r, "provider_binding"@, id@),
            old(self).bindings().contains_key(id@) ==> (r matches Ok(b)
                && b == ProviderBindingRecord { active: true, ..old(self).bindings()[id@] }
                && final(self).bindings() == old(self).bindings().insert(id@, b)),
    {
        self.set_active(id, true)
    }

    /// Makes a binding inactive.
    pub fn deactivate(&mut self, id: &str) -> (r: Result<ProviderBindingRecord, RuntimeError>)
        requires
            old(self).wf(),
        ensures
            final(self).wf(),
            !old(self).bindings().contains_key(id@) ==> fails_not_found(r, "provider_binding"@, id@),
            old(self).bindings().contains_key(id@) ==> (r matches Ok(b)
                && b == ProviderBindingRecord { active: false, ..old(self).bindings()[id@] }
                && final(self).bindings() == old(self).bindings().insert(id@, b)),
    {
        self.set_active(id, false)
    }

    /// The ids of a project's active bindings for an operation, in creation
    /// order: what the simple route resolver chooses from.
    pub fn active_for(&self, project: &ProjectKey, operation_kind: OperationKind) -> (r: Vec<String>)
        requires
            self.wf(),
        ensures
            r@.map_values(|s: String| s@) == self.order().filter(
                |b: ProviderBindingRecord| b.project@ == project@ && b.operation_kind == operation_kind && b.active,
            ).map_values(|b: ProviderBindingRecord| b.provider_binding_id@),
    {
        let ghost f = |b: ProviderBindingRecord| b.project@ == project@ && b.operation_kind == operation_kind && b.active;
        let ghost o = self.order();
        let n = self.bindings.len();
        let mut out: Vec<String> = Vec::new();
        let mut i: usize = 0;
        while i < n
            invariant
                i <= n,
                self.wf(),
                n == o.len(),
                o == self.order(),
                f == (|b: ProviderBindingRecord| b.project@ == project@ && b.operation_kind == operation_kind && b.active),
                out@.map_values(|s: String| s@) == o.take(i as int).filter(f).map_values(|b: ProviderBindingRecord| b.provider_binding_id@),
            decreases n - i,
        {
            let (_k, b) = self.bindings.entry_at(i);
            proof {
                assert(o[i as int] == *b);
                assert(o.take(i + 1) =~= o.take(i as int).push(o[i as int]));
                o.take(i as int).lemma_filter_push(o[i as int], f);
            }
            if b.project.same(project) && b.operation_kind == operation_kind && b.active {
                let ghost before = out@;
                out.push(b.provider_binding_id.clone());
                assert(out@.map_values(|s: String| s@) =~= before.map_values(|s: String| s@).push(b.provider_binding_id@));
                assert(o.take(i + 1).filter(f).map_values(|b: ProviderBindingRecord| b.provider_binding_id@) =~= o.take(i as int).filter(
                    f,
                ).map_values(|b: ProviderBindingRecord| b.provider_binding_id@).push(b.provider_binding_id@));
            }
            i = i + 1;
        }
        assert(o.take(n as int) =~= o);
        out
    }
}

} // verus!
