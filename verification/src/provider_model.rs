//! The registry of model capabilities per provider connection. A model's
//! capabilities are held in their serialized form; registering a model again
//! replaces its entry.
use vstd::prelude::*;
use crate::text::str_eq;

verus! {

/// A registered model of a provider connection.
#[derive(Debug)]
pub struct ProviderModelRecord {
    pub tenant_id: String,
    pub connection_id: String,
    pub model_id: String,
    pub capabilities_json: String,
}

impl ProviderModelRecord {
    /// A field-by-field copy.
    pub fn duplicate(&self) -> (r: Self)
        ensures
            r == *self,
    {
        ProviderModelRecord {
            tenant_id: self.tenant_id.clone(),
            connection_id: self.connection_id.clone(),
            model_id: self.model_id.clone(),
            capabilities_json: self.capabilities_json.clone(),
        }
    }
}

/// The index of the entry of a model, if any.
pub open spec fn model_index(s: Seq<ProviderModelRecord>, model_id: Seq<char>) -> Option<int> {
    if exists|i: int| 0 <= i < s.len() && #[trigger] s[i].model_id@ == model_id {
        Some(choose|i: int| 0 <= i < s.len() && #[trigger] s[i].model_id@ == model_id)
    } else {
        None
    }
}

/// The registry after an entry is put: it replaces the entry of its model,
/// or is appended.
pub open spec fn put_model(s: Seq<ProviderModelRecord>, m: ProviderModelRecord) -> Seq<ProviderModelRecord> {
    match model_index(s, m.model_id@) {
        Some(i) => s.update(i, m),
        None => s.push(m),
    }
}

/// The capabilities of the models of a connection, in registry order.
pub open spec fn connection_models(s: Seq<ProviderModelRecord>, connection_id: Seq<char>) -> Seq<Seq<char>>
    decreases s.len(),
{
    if s.len() == 0 {
        Seq::empty()
    } else {
        let rest = connection_models(s.drop_last(), connection_id);
        if s.last().connection_id@ == connection_id {
            rest.push(s.last().capabilities_json@)
        } else {
            rest
        }
    }
}

/// Registered models, one entry per model id.
pub struct ProviderModelServiceImpl {
    models: Vec<ProviderModelRecord>,
}

impl ProviderModelServiceImpl {
    pub closed spec fn models(&self) -> Seq<ProviderModelRecord> {
        self.models@
    }

    /// No two entries share a model id.
    pub closed spec fn wf(&self) -> bool {
        forall|a: int, b: int|
            0 <= a < self.models@.len() && 0 <= b < self.models@.len() && a != b
                ==> #[trigger] self.models@[a].model_id@ != #[trigger] self.models@[b].model_id@
    }

    pub fn new() -> (r: Self)
        ensures
            r.wf(),
            r.models() == Seq::<ProviderModelRecord>::empty(),
    {
        ProviderModelServiceImpl { models: Vec::new() }
    }

    fn position(&self, model_id: &str) -> (r: Option<usize>)
        requires
            self.wf(),
        ensures
            match r {
                Some(i) => model_index(self.models@, model_id@) == Some(i as int),
                None => model_index(self.models@, model_id@) is None,
            },
    {
        let mut i: usize = 0;
        while i < self.models.len()
            invariant
                self.wf(),
                i <= self.models@.len(),
                forall|j: int| 0 <= j < i ==> #[trigger] self.models@[j].model_id@ != model_id@,
            decreases self.models@.len() - i,
        {
            if str_eq(self.models[i].model_id.as_str(), model_id) {
                proof {
                    let s = self.models@;
                    assert(exists|k: int| 0 <= k < s.len() && #[trigger] s[k].model_id@ == model_id@);
                    let c = choose|k: int| 0 <= k < s.len() && #[trigger] s[k].model_id@ == model_id@;
                    if c != i {
                        assert(s[c].model_id@ != s[i as int].model_id@);
                    }
                }
                return Some(i);
            }
            i = i + 1;
        }
        None
    }

    /// Registers a model's capabilities for a connection and gives them
    /// back; a model registered before has its entry replaced.
    pub fn register(&mut self, tenant_id: &str, connection_id: &str, model_id: &str, capabilities_json: String) -> (r: String)
        requires
            old(self).wf(),
        ensures
            final(self).wf(),
            r == capabilities_json,
            exists|e: ProviderModelRecord| #[trigger] put_model(old(self).models(), e) == final(self).models()
                && e.tenant_id@ == tenant_id@ && e.connection_id@ == connection_id@ && e.model_id@ == model_id@
                && e.capabilities_json@ == capabilities_json@,
    {
        let rec = ProviderModelRecord {
            tenant_id: tenant_id.to_owned(),
            connection_id: connection_id.to_owned(),
            model_id: model_id.to_owned(),
            capabilities_json: capabilities_json.clone(),
        };
        let ghost s0 = self.models@;
        let ghost r0 = rec;
        match self.position(model_id) {
            Some(i) => {
                self.models.set(i, rec);
                proof {
                    let s = self.models@;
                    assert forall|a: int, b: int| 0 <= a < s.len() && 0 <= b < s.len() && a != b implies #[trigger] s[a].model_id@
                        != #[trigger] s[b].model_id@ by {
                        if a != i && b != i {
                            assert(s0[a].model_id@ != s0[b].model_id@);
                        } else if a == i {
                            assert(s0[i as int].model_id@ != s0[b].model_id@);
                        } else {
                            assert(s0[a].model_id@ != s0[i as int].model_id@);
                        }
                    }
                    assert(s =~= put_model(s0, r0));
                }
            },
            None => {
                self.models.push(rec);
                proof {
                    let s = self.models@;
                    assert forall|a: int, b: int| 0 <= a < s.len() && 0 <= b < s.len() && a != b implies #[trigger] s[a].model_id@
                        != #[trigger] s[b].model_id@ by {
                        if a < s0.len() && b < s0.len() {
                            assert(s0[a].model_id@ != s0[b].model_id@);
                        } else if a < s0.len() {
                            assert(s[a] == s0[a]);
                            assert(!(s0[a].model_id@ == r0.model_id@));
                        } else {
                            assert(s[b] == s0[b]);
                            assert(!(s0[b].model_id@ == r0.model_id@));
                        }
                    }
                    assert(s =~= put_model(s0, r0));
                }
            },
        }
        assert(put_model(old(self).models(), r0) == self.models());
        capabilities_json
    }

    /// The capabilities of a model.
    pub fn get(&self, model_id: &str) -> (r: Option<String>)
        requires
            self.wf(),
        ensures
            match model_index(self.models(), model_id@) {
                Some(i) => r matches Some(c) && c@ == self.models()[i].capabilities_json@,
                None => r is None,
            },
    {
        match self.position(model_id) {
            Some(i) => Some(self.models[i].capabilities_json.clone()),
            None => None,
        }
    }

    /// The capabilities of a connection's models, in registry order.
    pub fn list(&self, connection_id: &str) -> (r: Vec<String>)
        ensures
            crate::text::string_views(r@) == connection_models(self.models(), connection_id@),
    {
        let mut out: Vec<String> = Vec::new();
        let mut i: usize = 0;
        while i < self.models.len()
            invariant
                i <= self.models@.len(),
                crate::text::string_views(out@) == connection_models(self.models@.take(i as int), connection_id@),
            decreases self.models@.len() - i,
        {
            proof {
                assert(self.models@.take(i + 1).drop_last() =~= self.models@.take(i as int));
            }
            if str_eq(self.models[i].connection_id.as_str(), connection_id) {
                out.push(self.models[i].capabilities_json.clone());
                proof {
                    assert(crate::text::string_views(out@) =~= connection_models(self.models@.take(i as int), connection_id@).push(
                        self.models@[i as int].capabilities_json@,
                    ));
                }
            }
            i = i + 1;
        }
        proof {
            assert(self.models@.take(self.models@.len() as int) =~= self.models@);
        }
        out
    }
}

} // verus!
