//! Identifiers shared by the services.
use vstd::prelude::*;

verus! {

/// Tenant / workspace / project triple that scopes project resources.
#[derive(Debug)]
pub struct ProjectKey {
    pub tenant_id: String,
    pub workspace_id: String,
    pub project_id: String,
}

impl View for ProjectKey {
    type V = (Seq<char>, Seq<char>, Seq<char>);

    open spec fn view(&self) -> (Seq<char>, Seq<char>, Seq<char>) {
        (self.tenant_id@, self.workspace_id@, self.project_id@)
    }
}

impl ProjectKey {
    pub fn new(tenant_id: &str, workspace_id: &str, project_id: &str) -> (r: Self)
        ensures
            r@ == (tenant_id@, workspace_id@, project_id@),
    {
        ProjectKey {
            tenant_id: tenant_id.to_owned(),
            workspace_id: workspace_id.to_owned(),
            project_id: project_id.to_owned(),
        }
    }

    /// A field-by-field copy.
    pub fn duplicate(&self) -> (r: Self)
        ensures
            r == *self,
    {
        ProjectKey {
            tenant_id: self.tenant_id.clone(),
            workspace_id: self.workspace_id.clone(),
            project_id: self.project_id.clone(),
        }
    }

    /// Whether both keys name the same project.
    pub fn same(&self, other: &ProjectKey) -> (r: bool)
        ensures
            r == (self@ == other@),
    {
        self.tenant_id == other.tenant_id && self.workspace_id == other.workspace_id && self.project_id
            == other.project_id
    }
}

/// Copies of a list of strings.
pub fn clone_strings(v: &Vec<String>) -> (r: Vec<String>)
    ensures
        r@.len() == v@.len(),
        forall|i: int| 0 <= i < v@.len() ==> #[trigger] r@[i] == v@[i],
{
    let mut r: Vec<String> = Vec::new();
    let mut i: usize = 0;
    while i < v.len()
        invariant
            i <= v@.len(),
            r@.len() == i,
            forall|k: int| 0 <= k < i ==> #[trigger] r@[k] == v@[k],
        decreases v@.len() - i,
    {
        r.push(v[i].clone());
        i = i + 1;
    }
    r
}

/// Copy of an optional list of strings.
pub fn clone_opt_strings(o: &Option<Vec<String>>) -> (r: Option<Vec<String>>)
    ensures
        r is Some == o is Some,
        r is Some ==> r->0@ == o->0@,
{
    match o {
        Some(v) => {
            let c = clone_strings(v);
            assert(c@ =~= v@);
            Some(c)
        },
        None => None,
    }
}

} // verus!
