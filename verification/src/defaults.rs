//! Default settings in layers: a project's value for a key comes from the
//! most specific layer that sets it, project before workspace before
//! tenant before the system.
use vstd::prelude::*;
use crate::domain::ProjectKey;
use crate::json::{json_copy, json_copy_of, JsonValue};
use crate::text::str_eq;

verus! {

/// The layer a setting belongs to.
#[derive(Debug, Clone, Copy, PartialEq, Eq, Structural)]
pub enum Scope {
    System,
    Tenant,
    Workspace,
    Project,
}

/// A default setting of one layer.
#[derive(Debug)]
pub struct DefaultSetting {
    pub scope: Scope,
    pub scope_id: String,
    pub key: String,
    pub value: JsonValue,
}

/// The id a layer is stored under: the system layer has the one id
/// `system`, whatever id it is given.
pub open spec fn normalized_id(scope: Scope, scope_id: Seq<char>) -> Seq<char> {
    match scope {
        Scope::System => "system"@,
        _ => scope_id,
    }
}

fn normalized_scope_id(scope: Scope, scope_id: &str) -> (r: String)
    ensures
        r@ == normalized_id(scope, scope_id@),
{
    match scope {
        Scope::System => "system".to_owned(),
        _ => scope_id.to_owned(),
    }
}

/// Whether a setting is the one of a layer and key.
pub open spec fn setting_is(s: DefaultSetting, scope: Scope, scope_id: Seq<char>, key: Seq<char>) -> bool {
    s.scope == scope && s.scope_id@ == scope_id && s.key@ == key
}

/// The value a layer sets for a key, if it sets one (its last setting).
pub open spec fn layer_value(settings: Seq<DefaultSetting>, scope: Scope, scope_id: Seq<char>, key: Seq<char>) -> Option<JsonValue>
    decreases settings.len(),
{
    if settings.len() == 0 {
        None
    } else if setting_is(settings.last(), scope, scope_id, key) {
        Some(settings.last().value)
    } else {
        layer_value(settings.drop_last(), scope, scope_id, key)
    }
}

/// A layer's value is that of its one setting.
proof fn lemma_layer_one(s: Seq<DefaultSetting>, sc: Scope, sid: Seq<char>, k: Seq<char>, i: int)
    requires
        0 <= i < s.len(),
        setting_is(s[i], sc, sid, k),
        forall|j: int| 0 <= j < s.len() && j != i ==> !setting_is(#[trigger] s[j], sc, sid, k),
    ensures
        layer_value(s, sc, sid, k) == Some(s[i].value),
    decreases s.len(),
{
    if i != s.len() - 1 {
        assert(!setting_is(s[s.len() - 1], sc, sid, k));
        assert forall|j: int| 0 <= j < s.drop_last().len() && j != i implies !setting_is(#[trigger] s.drop_last()[j], sc, sid, k) by {
            assert(s.drop_last()[j] == s[j]);
        }
        lemma_layer_one(s.drop_last(), sc, sid, k, i);
    }
}

/// A layer without settings has no value.
proof fn lemma_layer_none(s: Seq<DefaultSetting>, sc: Scope, sid: Seq<char>, k: Seq<char>)
    requires
        forall|j: int| 0 <= j < s.len() ==> !setting_is(#[trigger] s[j], sc, sid, k),
    ensures
        layer_value(s, sc, sid, k) is None,
    decreases s.len(),
{
    if s.len() > 0 {
        assert(!setting_is(s[s.len() - 1], sc, sid, k));
        assert forall|j: int| 0 <= j < s.drop_last().len() implies !setting_is(#[trigger] s.drop_last()[j], sc, sid, k) by {
            assert(s.drop_last()[j] == s[j]);
        }
        lemma_layer_none(s.drop_last(), sc, sid, k);
    }
}

/// With at most one setting per layer and key, a layer's value is that of
/// the setting it has, if any.
proof fn lemma_layer_value(s: Seq<DefaultSetting>, sc: Scope, sid: Seq<char>, k: Seq<char>)
    requires
        unique_settings(s),
    ensures
        match layer_value(s, sc, sid, k) {
            Some(v) => exists|i: int| 0 <= i < s.len() && setting_is(s[i], sc, sid, k) && s[i].value == v,
            None => forall|j: int| 0 <= j < s.len() ==> !setting_is(#[trigger] s[j], sc, sid, k),
        },
{
    if exists|i: int| 0 <= i < s.len() && setting_is(s[i], sc, sid, k) {
        let i = choose|i: int| 0 <= i < s.len() && setting_is(s[i], sc, sid, k);
        assert forall|j: int| 0 <= j < s.len() && j != i implies !setting_is(#[trigger] s[j], sc, sid, k) by {
            assert(!setting_is(s[j], s[i].scope, s[i].scope_id@, s[i].key@));
        }
        lemma_layer_one(s, sc, sid, k, i);
    } else {
        lemma_layer_none(s, sc, sid, k);
    }
}

/// At most one setting per layer and key.
pub open spec fn unique_settings(s: Seq<DefaultSetting>) -> bool {
    forall|a: int, b: int|
        0 <= a < s.len() && 0 <= b < s.len() && a != b ==> !setting_is(#[trigger] s[a], s[b].scope, s[b].scope_id@, (#[trigger] s[b]).key@)
}

/// The value that applies to a project: the first layer, from the most
/// specific, that sets the key.
pub open spec fn resolved(settings: Seq<DefaultSetting>, project: (Seq<char>, Seq<char>, Seq<char>), key: Seq<char>) -> Option<JsonValue> {
    let p = layer_value(settings, Scope::Project, project.2, key);
    let w = layer_value(settings, Scope::Workspace, project.1, key);
    let t = layer_value(settings, Scope::Tenant, project.0, key);
    let s = layer_value(settings, Scope::System, "system"@, key);
    if p is Some { p } else if w is Some { w } else if t is Some { t } else { s }
}

/// Default settings, at most one per layer and key.
pub struct DefaultsServiceImpl {
    settings: Vec<DefaultSetting>,
}

impl DefaultsServiceImpl {
    pub closed spec fn settings(&self) -> Seq<DefaultSetting> {
        self.settings@
    }

    pub closed spec fn wf(&self) -> bool {
        unique_settings(self.settings@)
    }

    pub fn new() -> (r: Self)
        ensures
            r.wf(),
            r.settings() == Seq::<DefaultSetting>::empty(),
    {
        DefaultsServiceImpl { settings: Vec::new() }
    }

    fn position(&self, scope: Scope, scope_id: &str, key: &str) -> (r: Option<usize>)
        requires
            self.wf(),
        ensures
            match r {
                Some(i) => i < self.settings().len() && setting_is(self.settings()[i as int], scope, scope_id@, key@)
                    && layer_value(self.settings(), scope, scope_id@, key@) == Some(self.settings()[i as int].value),
                None => layer_value(self.settings(), scope, scope_id@, key@) is None
                    && forall|j: int| 0 <= j < self.settings().len() ==> !setting_is(#[trigger] self.settings()[j], scope, scope_id@, key@),
            },
    {
        let mut i: usize = 0;
        while i < self.settings.len()
            invariant
                i <= self.settings@.len(),
                self.wf(),
                forall|j: int| 0 <= j < i ==> !setting_is(#[trigger] self.settings@[j], scope, scope_id@, key@),
            decreases self.settings@.len() - i,
        {
            let s = &self.settings[i];
            if s.scope == scope && str_eq(s.scope_id.as_str(), scope_id) && str_eq(s.key.as_str(), key) {
                proof {
                    self.lemma_unique_value(i as int);
                }
                return Some(i);
            }
            i = i + 1;
        }
        proof {
            lemma_layer_none(self.settings@, scope, scope_id@, key@);
        }
        None
    }

    /// Sets a layer's value for a key, replacing any earlier one. The
    /// system layer's id is `system` whatever id is given.
    pub fn set(&mut self, scope: Scope, scope_id: &str, key: &str, value: JsonValue) -> (r: DefaultSetting)
        requires
            old(self).wf(),
        ensures
            final(self).wf(),
            r.scope == scope,
            r.scope_id@ == normalized_id(scope, scope_id@),
            r.key@ == key@,
            json_copy_of(value, r.value),
            layer_value(final(self).settings(), scope, normalized_id(scope, scope_id@), key@) == Some(value),
            forall|sc: Scope, id: Seq<char>, k: Seq<char>| !(sc == scope && id == normalized_id(scope, scope_id@) && k == key@)
                ==> #[trigger] layer_value(final(self).settings(), sc, id, k) == layer_value(old(self).settings(), sc, id, k),
    {
        let id = normalized_scope_id(scope, scope_id);
        let ghost s0 = self.settings@;
        let out = DefaultSetting { scope, scope_id: id.clone(), key: key.to_owned(), value: json_copy(&value) };
        let setting = DefaultSetting { scope, scope_id: id.clone(), key: key.to_owned(), value };
        match self.position(scope, id.as_str(), key) {
            Some(i) => {
                self.settings.set(i, setting);
                proof {
                    assert forall|a: int, b: int| 0 <= a < self.settings@.len() && 0 <= b < self.settings@.len() && a != b implies !setting_is(
                        #[trigger] self.settings@[a],
                        self.settings@[b].scope,
                        self.settings@[b].scope_id@,
                        (#[trigger] self.settings@[b]).key@,
                    ) by {
                        assert(!setting_is(s0[a], s0[b].scope, s0[b].scope_id@, s0[b].key@));
                    }
                    self.lemma_unique_value(i as int);
                    assert forall|sc: Scope, sid: Seq<char>, k: Seq<char>| !(sc == scope && sid == id@ && k == key@)
                        implies #[trigger] layer_value(self.settings@, sc, sid, k) == layer_value(s0, sc, sid, k) by {
                        lemma_layer_value(s0, sc, sid, k);
                        lemma_layer_value(self.settings@, sc, sid, k);
                        if layer_value(s0, sc, sid, k) is Some {
                            let a = choose|a: int| 0 <= a < s0.len() && setting_is(s0[a], sc, sid, k) && s0[a].value == layer_value(s0, sc, sid, k)->0;
                            assert(self.settings@[a] == s0[a]);
                        }
                        if layer_value(self.settings@, sc, sid, k) is Some {
                            let a = choose|a: int| 0 <= a < self.settings@.len() && setting_is(self.settings@[a], sc, sid, k)
                                && self.settings@[a].value == layer_value(self.settings@, sc, sid, k)->0;
                            assert(self.settings@[a] == s0[a]);
                        }
                    }
                }
            },
            None => {
                self.settings.push(setting);
                proof {
                    let n = s0.len() as int;
                    assert forall|a: int, b: int| 0 <= a < self.settings@.len() && 0 <= b < self.settings@.len() && a != b implies !setting_is(
                        #[trigger] self.settings@[a],
                        self.settings@[b].scope,
                        self.settings@[b].scope_id@,
                        (#[trigger] self.settings@[b]).key@,
                    ) by {
                        if a < n && b < n {
                            assert(!setting_is(s0[a], s0[b].scope, s0[b].scope_id@, s0[b].key@));
                        } else if a < n {
                            assert(!setting_is(s0[a], scope, id@, key@));
                        } else {
                            assert(!setting_is(s0[b], scope, id@, key@));
                        }
                    }
                    self.lemma_unique_value(n);
                    assert forall|sc: Scope, sid: Seq<char>, k: Seq<char>| !(sc == scope && sid == id@ && k == key@)
                        implies #[trigger] layer_value(self.settings@, sc, sid, k) == layer_value(s0, sc, sid, k) by {
                        assert(self.settings@.drop_last() =~= s0);
                    }
                }
            },
        }
        out
    }

    proof fn lemma_unique_value(&self, i: int)
        requires
            self.wf(),
            0 <= i < self.settings().len(),
        ensures
            layer_value(self.settings(), self.settings()[i].scope, self.settings()[i].scope_id@, self.settings()[i].key@)
                == Some(self.settings()[i].value),
    {
        let s = self.settings@;
        assert forall|j: int| 0 <= j < s.len() && j != i implies !setting_is(#[trigger] s[j], s[i].scope, s[i].scope_id@, s[i].key@) by {
            assert(!setting_is(s[j], s[i].scope, s[i].scope_id@, s[i].key@));
        }
        lemma_layer_one(s, s[i].scope, s[i].scope_id@, s[i].key@, i);
    }

    /// Clears a layer's value for a key, if it has one.
    pub fn clear(&mut self, scope: Scope, scope_id: &str, key: &str)
        requires
            old(self).wf(),
        ensures
            final(self).wf(),
            layer_value(final(self).settings(), scope, normalized_id(scope, scope_id@), key@) is None,
            forall|sc: Scope, id: Seq<char>, k: Seq<char>| !(sc == scope && id == normalized_id(scope, scope_id@) && k == key@)
                ==> #[trigger] layer_value(final(self).settings(), sc, id, k) == layer_value(old(self).settings(), sc, id, k),
    {
        let id = normalized_scope_id(scope, scope_id);
        let ghost s0 = self.settings@;
        match self.position(scope, id.as_str(), key) {
            Some(i) => {
                self.settings.remove(i);
                proof {
                    let t = self.settings@;
                    assert forall|a: int| 0 <= a < t.len() implies #[trigger] t[a] == s0[if a < i { a } else { a + 1 }] by {}
                    assert forall|a: int, b: int| 0 <= a < t.len() && 0 <= b < t.len() && a != b implies !setting_is(
                        #[trigger] t[a],
                        t[b].scope,
                        t[b].scope_id@,
                        (#[trigger] t[b]).key@,
                    ) by {
                        let a0 = if a < i { a } else { a + 1 };
                        let b0 = if b < i { b } else { b + 1 };
                        assert(!setting_is(s0[a0], s0[b0].scope, s0[b0].scope_id@, s0[b0].key@));
                    }
                    assert forall|j: int| 0 <= j < t.len() implies !setting_is(#[trigger] t[j], scope, id@, key@) by {
                        let j0 = if j < i { j } else { j + 1 };
                        assert(!setting_is(s0[j0], s0[i as int].scope, s0[i as int].scope_id@, s0[i as int].key@));
                    }
                    lemma_layer_none(t, scope, id@, key@);
                    assert forall|sc: Scope, sid: Seq<char>, k: Seq<char>| !(sc == scope && sid == id@ && k == key@)
                        implies #[trigger] layer_value(t, sc, sid, k) == layer_value(s0, sc, sid, k) by {
                        lemma_layer_value(s0, sc, sid, k);
                        lemma_layer_value(t, sc, sid, k);
                        if layer_value(s0, sc, sid, k) is Some {
                            let a = choose|a: int| 0 <= a < s0.len() && setting_is(s0[a], sc, sid, k) && s0[a].value == layer_value(s0, sc, sid, k)->0;
                            assert(a != i);
                            let a1 = if a < i { a } else { a - 1 };
                            assert(t[a1] == s0[a]);
                        }
                        if layer_value(t, sc, sid, k) is Some {
                            let a = choose|a: int| 0 <= a < t.len() && setting_is(t[a], sc, sid, k) && t[a].value == layer_value(t, sc, sid, k)->0;
                            assert(t[a] == s0[if a < i { a } else { a + 1 }]);
                        }
                    }
                }
            },
            None => {},
        }
    }

    /// A layer's setting for a key, if any.
    pub fn get(&self, scope: Scope, scope_id: &str, key: &str) -> (r: Option<&DefaultSetting>)
        requires
            self.wf(),
        ensures
            match r {
                Some(s) => setting_is(*s, scope, scope_id@, key@) && layer_value(self.settings(), scope, scope_id@, key@) == Some(s.value),
                None => layer_value(self.settings(), scope, scope_id@, key@) is None,
            },
    {
        match self.position(scope, scope_id, key) {
            Some(i) => Some(&self.settings[i]),
            None => None,
        }
    }

    /// The value that applies to a project for a key.
    pub fn resolve(&self, project: &ProjectKey, key: &str) -> (r: Option<&JsonValue>)
        requires
            self.wf(),
        ensures
            match r {
                Some(v) => resolved(self.settings(), project@, key@) == Some(*v),
                None => resolved(self.settings(), project@, key@) is None,
            },
    {
        match self.get(Scope::Project, project.project_id.as_str(), key) {
            Some(s) => return Some(&s.value),
            None => {},
        }
        match self.get(Scope::Workspace, project.workspace_id.as_str(), key) {
            Some(s) => return Some(&s.value),
            None => {},
        }
        match self.get(Scope::Tenant, project.tenant_id.as_str(), key) {
            Some(s) => return Some(&s.value),
            None => {},
        }
        match self.get(Scope::System, "system", key) {
            Some(s) => Some(&s.value),
            None => None,
        }
    }
}

} // verus!
