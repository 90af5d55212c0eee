//! Prompt assets and their versions. An asset belongs to the workspace of
//! the project that created it; a version of an asset from another
//! workspace needs a share that grants the `version` permission.
use vstd::prelude::*;
use crate::clock::{at_time, now_ms};
use crate::domain::ProjectKey;
use crate::resource_sharing::{admit_prompt_version, version_admissible, ResourceSharingServiceImpl};
use crate::runtime_error::{conflict, fails_conflict, RuntimeError};
use crate::tenancy::page;
use crate::text::str_eq;

verus! {

/// A prompt asset.
#[derive(Debug)]
pub struct PromptAssetRecord {
    pub prompt_asset_id: String,
    pub project: ProjectKey,
    pub workspace_id: String,
    pub name: String,
    pub kind: String,
    pub created_at_ms: u64,
}

impl PromptAssetRecord {
    /// A field-by-field copy.
    pub fn duplicate(&self) -> (r: Self)
        ensures
            r == *self,
    {
        PromptAssetRecord {
            prompt_asset_id: self.prompt_asset_id.clone(),
            project: self.project.duplicate(),
            workspace_id: self.workspace_id.clone(),
            name: self.name.clone(),
            kind: self.kind.clone(),
            created_at_ms: self.created_at_ms,
        }
    }
}

/// Some asset has the id.
pub open spec fn has_asset(s: Seq<PromptAssetRecord>, id: Seq<char>) -> bool {
    exists|i: int| 0 <= i < s.len() && #[trigger] s[i].prompt_asset_id@ == id
}

/// The workspace of the asset with an id, if there is one.
pub open spec fn asset_workspace(s: Seq<PromptAssetRecord>, id: Seq<char>) -> Option<Seq<char>> {
    if has_asset(s, id) {
        Some(s[choose|i: int| 0 <= i < s.len() && #[trigger] s[i].prompt_asset_id@ == id].workspace_id@)
    } else {
        None
    }
}

/// Prompt assets in the order they were created.
pub struct PromptAssetServiceImpl {
    assets: Vec<PromptAssetRecord>,
}

impl PromptAssetServiceImpl {
    pub closed spec fn assets(&self) -> Seq<PromptAssetRecord> {
        self.assets@
    }

    /// No two assets share an id.
    pub closed spec fn wf(&self) -> bool {
        forall|a: int, b: int|
            0 <= a < self.assets@.len() && 0 <= b < self.assets@.len() && a != b
                ==> #[trigger] self.assets@[a].prompt_asset_id@ != #[trigger] self.assets@[b].prompt_asset_id@
    }

    /// With ids unique, the asset with an id is the one whose workspace
    /// [`asset_workspace`] names.
    pub proof fn lemma_asset_workspace(&self, id: Seq<char>)
        requires
            self.wf(),
        ensures
            forall|i: int| 0 <= i < self.assets().len() && #[trigger] self.assets()[i].prompt_asset_id@ == id
                ==> asset_workspace(self.assets(), id) == Some(self.assets()[i].workspace_id@),
    {
        assert forall|i: int| 0 <= i < self.assets().len() && #[trigger] self.assets()[i].prompt_asset_id@ == id
            implies asset_workspace(self.assets(), id) == Some(self.assets()[i].workspace_id@) by {
            let k = choose|k: int| 0 <= k < self.assets@.len() && #[trigger] self.assets@[k].prompt_asset_id@ == id;
            if k != i {
                assert(self.assets@[k].prompt_asset_id@ != self.assets@[i].prompt_asset_id@);
            }
        }
    }

    pub fn new() -> (r: Self)
        ensures
            r.wf(),
            r.assets() == Seq::<PromptAssetRecord>::empty(),
    {
        PromptAssetServiceImpl { assets: Vec::new() }
    }

    fn position(&self, id: &str) -> (r: Option<usize>)
        ensures
            match r {
                Some(i) => i < self.assets@.len() && self.assets@[i as int].prompt_asset_id@ == id@,
                None => !has_asset(self.assets@, id@),
            },
    {
        let mut i: usize = 0;
        while i < self.assets.len()
            invariant
                i <= self.assets@.len(),
                forall|j: int| 0 <= j < i ==> #[trigger] self.assets@[j].prompt_asset_id@ != id@,
            decreases self.assets@.len() - i,
        {
            if str_eq(self.assets[i].prompt_asset_id.as_str(), id) {
                return Some(i);
            }
            i = i + 1;
        }
        None
    }

    /// Creates an asset at `now` in the project's workspace; refused with
    /// `Conflict` if the id is taken.
    pub fn create_at(&mut self, project: &ProjectKey, prompt_asset_id: &str, name: String, kind: String, now: u64) -> (r: Result<
        PromptAssetRecord,
        RuntimeError,
    >)
        requires
            old(self).wf(),
        ensures
            final(self).wf(),
            has_asset(old(self).assets(), prompt_asset_id@) ==> fails_conflict(r, "prompt_asset"@, prompt_asset_id@)
                && final(self).assets() == old(self).assets(),
            !has_asset(old(self).assets(), prompt_asset_id@) ==> (r matches Ok(a) && a.prompt_asset_id@ == prompt_asset_id@
                && a.project == *project && a.workspace_id@ == project.workspace_id@ && a.name == name && a.kind == kind
                && a.created_at_ms == now && final(self).assets() == old(self).assets().push(a)),
    {
        if self.position(prompt_asset_id).is_some() {
            return Err(conflict("prompt_asset", prompt_asset_id));
        }
        let rec = PromptAssetRecord {
            prompt_asset_id: prompt_asset_id.to_owned(),
            project: project.duplicate(),
            workspace_id: project.workspace_id.clone(),
            name,
            kind,
            created_at_ms: now,
        };
        let out = rec.duplicate();
        self.assets.push(rec);
        proof {
            let s = self.assets@;
            assert forall|a: int, b: int| 0 <= a < s.len() && 0 <= b < s.len() && a != b implies #[trigger] s[a].prompt_asset_id@
                != #[trigger] s[b].prompt_asset_id@ by {
                if a < s.len() - 1 && b < s.len() - 1 {
                    assert(old(self).assets@[a].prompt_asset_id@ != old(self).assets@[b].prompt_asset_id@);
                } else if a < s.len() - 1 {
                    assert(s[a] == old(self).assets@[a]);
                } else {
                    assert(s[b] == old(self).assets@[b]);
                }
            }
        }
        Ok(out)
    }

    /// Creates an asset, stamped with the current time.
    pub fn create(&mut self, project: &ProjectKey, prompt_asset_id: &str, name: String, kind: String) -> (r: Result<
        PromptAssetRecord,
        RuntimeError,
    >)
        requires
            old(self).wf(),
        ensures
            final(self).wf(),
            has_asset(old(self).assets(), prompt_asset_id@) ==> fails_conflict(r, "prompt_asset"@, prompt_asset_id@)
                && final(self).assets() == old(self).assets(),
            !has_asset(old(self).assets(), prompt_asset_id@) ==> (r matches Ok(a) && a.prompt_asset_id@ == prompt_asset_id@
                && a.project == *project && a.workspace_id@ == project.workspace_id@ && a.name == name && a.kind == kind
                && final(self).assets() == old(self).assets().push(a)),
            exists|tm: u64| #[trigger] at_time(tm)
                && (!has_asset(old(self).assets(), prompt_asset_id@) ==> (r matches Ok(a) && a.prompt_asset_id@ == prompt_asset_id@
                    && a.project == *project && a.workspace_id@ == project.workspace_id@ && a.name == name && a.kind == kind
                    && a.created_at_ms == tm && final(self).assets() == old(self).assets().push(a))),
    {
        let now = now_ms();
        let r = self.create_at(project, prompt_asset_id, name, kind, now);
        assert(at_time(now));
        r
    }

    /// The asset with an id.
    pub fn get(&self, prompt_asset_id: &str) -> (r: Option<&PromptAssetRecord>)
        ensures
            match r {
                Some(a) => self.assets().contains(*a) && a.prompt_asset_id@ == prompt_asset_id@,
                None => !has_asset(self.assets(), prompt_asset_id@),
            },
    {
        match self.position(prompt_asset_id) {
            Some(i) => Some(&self.assets[i]),
            None => None,
        }
    }

    /// A project's assets in creation order, skipping the first `offset`
    /// and keeping at most `limit`.
    pub fn list_by_project(&self, project: &ProjectKey, limit: usize, offset: usize) -> (r: Vec<PromptAssetRecord>)
        ensures
            r@ == page(self.assets().filter(|a: PromptAssetRecord| a.project@ == project@), limit, offset),
    {
        let ghost f = |a: PromptAssetRecord| a.project@ == project@;
        let mut all: Vec<PromptAssetRecord> = Vec::new();
        let mut i: usize = 0;
        while i < self.assets.len()
            invariant
                i <= self.assets@.len(),
                f == (|a: PromptAssetRecord| a.project@ == project@),
                all@ == self.assets@.take(i as int).filter(f),
            decreases self.assets@.len() - i,
        {
            proof {
                assert(self.assets@.take(i + 1) =~= self.assets@.take(i as int).push(self.assets@[i as int]));
                self.assets@.take(i as int).lemma_filter_push(self.assets@[i as int], f);
            }
            if self.assets[i].project.same(project) {
                all.push(self.assets[i].duplicate());
            }
            i = i + 1;
        }
        assert(self.assets@.take(self.assets@.len() as int) =~= self.assets@);
        let start = if offset < all.len() { offset } else { all.len() };
        let end = if limit < all.len() - start { start + limit } else { all.len() };
        let mut out: Vec<PromptAssetRecord> = Vec::new();
        let mut j: usize = start;
        while j < end
            invariant
                start <= j <= end <= all@.len(),
                out@ == all@.subrange(start as int, j as int),
            decreases end - j,
        {
            out.push(all[j].duplicate());
            assert(out@ =~= all@.subrange(start as int, j + 1));
            j = j + 1;
        }
        out
    }

    /// Assets listed by workspace: there is no such listing yet, so it is
    /// always empty.
    pub fn list_by_workspace(&self, tenant_id: &str, workspace_id: &str, limit: usize, offset: usize) -> (r: Vec<PromptAssetRecord>)
        ensures
            r@.len() == 0,
    {
        Vec::new()
    }
}

/// A version of a prompt asset.
#[derive(Debug)]
pub struct PromptVersionRecord {
    pub prompt_version_id: String,
    pub project: ProjectKey,
    pub prompt_asset_id: String,
    pub content_hash: String,
    pub workspace_id: String,
    pub created_at_ms: u64,
}

impl PromptVersionRecord {
    /// A field-by-field copy.
    pub fn duplicate(&self) -> (r: Self)
        ensures
            r == *self,
    {
        PromptVersionRecord {
            prompt_version_id: self.prompt_version_id.clone(),
            project: self.project.duplicate(),
            prompt_asset_id: self.prompt_asset_id.clone(),
            content_hash: self.content_hash.clone(),
            workspace_id: self.workspace_id.clone(),
            created_at_ms: self.created_at_ms,
        }
    }
}

/// Some version has the id.
pub open spec fn has_version(s: Seq<PromptVersionRecord>, id: Seq<char>) -> bool {
    exists|i: int| 0 <= i < s.len() && #[trigger] s[i].prompt_version_id@ == id
}

/// Prompt versions in the order they were created.
pub struct PromptVersionServiceImpl {
    versions: Vec<PromptVersionRecord>,
}

impl PromptVersionServiceImpl {
    pub closed spec fn versions(&self) -> Seq<PromptVersionRecord> {
        self.versions@
    }

    /// No two versions share an id.
    pub closed spec fn wf(&self) -> bool {
        forall|a: int, b: int|
            0 <= a < self.versions@.len() && 0 <= b < self.versions@.len() && a != b
                ==> #[trigger] self.versions@[a].prompt_version_id@ != #[trigger] self.versions@[b].prompt_version_id@
    }

    pub fn new() -> (r: Self)
        ensures
            r.wf(),
            r.versions() == Seq::<PromptVersionRecord>::empty(),
    {
        PromptVersionServiceImpl { versions: Vec::new() }
    }

    fn position(&self, id: &str) -> (r: Option<usize>)
        ensures
            match r {
                Some(i) => i < self.versions@.len() && self.versions@[i as int].prompt_version_id@ == id@,
                None => !has_version(self.versions@, id@),
            },
    {
        let mut i: usize = 0;
        while i < self.versions.len()
            invariant
                i <= self.versions@.len(),
                forall|j: int| 0 <= j < i ==> #[trigger] self.versions@[j].prompt_version_id@ != id@,
            decreases self.versions@.len() - i,
        {
            if str_eq(self.versions[i].prompt_version_id.as_str(), id) {
                return Some(i);
            }
            i = i + 1;
        }
        None
    }

    /// Creates a version of an asset at `now`, in the project's workspace.
    /// Refused as [`admit_prompt_version`] refuses: `Conflict` for a taken
    /// id, `PolicyDenied` for an asset of another workspace without a share
    /// that grants `version`. Otherwise the version is added, last.
    pub fn create_at(
        &mut self,
        project: &ProjectKey,
        prompt_version_id: &str,
        prompt_asset_id: &str,
        content_hash: String,
        assets: &PromptAssetServiceImpl,
        sharing: &ResourceSharingServiceImpl,
        now: u64,
    ) -> (r: Result<PromptVersionRecord, RuntimeError>)
        requires
            old(self).wf(),
            assets.wf(),
        ensures
            final(self).wf(),
            (r is Ok) == (!has_version(old(self).versions(), prompt_version_id@) && version_admissible(
                asset_workspace(assets.assets(), prompt_asset_id@),
                project@,
                prompt_asset_id@,
                sharing.shares(),
            )),
            has_version(old(self).versions(), prompt_version_id@) ==> fails_conflict(r, "prompt_version"@, prompt_version_id@),
            !has_version(old(self).versions(), prompt_version_id@) ==> !(r matches Err(RuntimeError::Conflict { .. })),
            r is Err ==> final(self).versions() == old(self).versions(),
            r matches Ok(v) ==> v.prompt_version_id@ == prompt_version_id@ && v.project == *project && v.prompt_asset_id@
                == prompt_asset_id@ && v.content_hash == content_hash && v.workspace_id@ == project.workspace_id@
                && v.created_at_ms == now && final(self).versions() == old(self).versions().push(v),
    {
        let exists = self.position(prompt_version_id).is_some();
        let asset = assets.get(prompt_asset_id);
        let ws = match asset {
            Some(a) => Some(a.workspace_id.as_str()),
            None => None,
        };
        proof {
            assets.lemma_asset_workspace(prompt_asset_id@);
        }
        match admit_prompt_version(exists, project, prompt_version_id, prompt_asset_id, ws, sharing) {
            Err(e) => Err(e),
            Ok(()) => {
                let rec = PromptVersionRecord {
                    prompt_version_id: prompt_version_id.to_owned(),
                    project: project.duplicate(),
                    prompt_asset_id: prompt_asset_id.to_owned(),
                    content_hash,
                    workspace_id: project.workspace_id.clone(),
                    created_at_ms: now,
                };
                let out = rec.duplicate();
                self.versions.push(rec);
                proof {
                    let s = self.versions@;
                    assert forall|a: int, b: int| 0 <= a < s.len() && 0 <= b < s.len() && a != b implies #[trigger] s[a].prompt_version_id@
                        != #[trigger] s[b].prompt_version_id@ by {
                        if a < s.len() - 1 && b < s.len() - 1 {
                            assert(old(self).versions@[a].prompt_version_id@ != old(self).versions@[b].prompt_version_id@);
                        } else if a < s.len() - 1 {
                            assert(s[a] == old(self).versions@[a]);
                        } else {
                            assert(s[b] == old(self).versions@[b]);
                        }
                    }
                }
                Ok(out)
            },
        }
    }

    /// Creates a version of an asset, stamped with the current time.
    pub fn create(
        &mut self,
        project: &ProjectKey,
        prompt_version_id: &str,
        prompt_asset_id: &str,
        content_hash: String,
        assets: &PromptAssetServiceImpl,
        sharing: &ResourceSharingServiceImpl,
    ) -> (r: Result<PromptVersionRecord, RuntimeError>)
        requires
            old(self).wf(),
            assets.wf(),
        ensures
            final(self).wf(),
            (r is Ok) == (!has_version(old(self).versions(), prompt_version_id@) && version_admissible(
                asset_workspace(assets.assets(), prompt_asset_id@),
                project@,
                prompt_asset_id@,
                sharing.shares(),
            )),
            has_version(old(self).versions(), prompt_version_id@) ==> fails_conflict(r, "prompt_version"@, prompt_version_id@),
            r is Err ==> final(self).versions() == old(self).versions(),
            r matches Ok(v) ==> v.prompt_version_id@ == prompt_version_id@ && v.project == *project && v.prompt_asset_id@
                == prompt_asset_id@ && v.content_hash == content_hash && final(self).versions() == old(self).versions().push(v),
            !has_version(old(self).versions(), prompt_version_id@) ==> !(r matches Err(RuntimeError::Conflict { .. })),
            exists|tm: u64| #[trigger] at_time(tm)
                && (r matches Ok(v) ==> v.prompt_version_id@ == prompt_version_id@ && v.project == *project && v.prompt_asset_id@
                    == prompt_asset_id@ && v.content_hash == content_hash && v.workspace_id@ == project.workspace_id@
                    && v.created_at_ms == tm && final(self).versions() == old(self).versions().push(v)),
    {
        let now = now_ms();
        let r = self.create_at(project, prompt_version_id, prompt_asset_id, content_hash, assets, sharing, now);
        assert(at_time(now));
        r
    }

    /// The version with an id.
    pub fn get(&self, prompt_version_id: &str) -> (r: Option<&PromptVersionRecord>)
        ensures
            match r {
                Some(v) => self.versions().contains(*v) && v.prompt_version_id@ == prompt_version_id@,
                None => !has_version(self.versions(), prompt_version_id@),
            },
    {
        match self.position(prompt_version_id) {
            Some(i) => Some(&self.versions[i]),
            None => None,
        }
    }

    /// An asset's versions in creation order, skipping the first `offset`
    /// and keeping at most `limit`.
    pub fn list_by_asset(&self, prompt_asset_id: &str, limit: usize, offset: usize) -> (r: Vec<PromptVersionRecord>)
        ensures
            r@ == page(self.versions().filter(|v: PromptVersionRecord| v.prompt_asset_id@ == prompt_asset_id@), limit, offset),
    {
        let ghost f = |v: PromptVersionRecord| v.prompt_asset_id@ == prompt_asset_id@;
        let mut all: Vec<PromptVersionRecord> = Vec::new();
        let mut i: usize = 0;
        while i < self.versions.len()
            invariant
                i <= self.versions@.len(),
                f == (|v: PromptVersionRecord| v.prompt_asset_id@ == prompt_asset_id@),
                all@ == self.versions@.take(i as int).filter(f),
            decreases self.versions@.len() - i,
        {
            proof {
                assert(self.versions@.take(i + 1) =~= self.versions@.take(i as int).push(self.versions@[i as int]));
                self.versions@.take(i as int).lemma_filter_push(self.versions@[i as int], f);
            }
            if str_eq(self.versions[i].prompt_asset_id.as_str(), prompt_asset_id) {
                all.push(self.versions[i].duplicate());
            }
            i = i + 1;
        }
        assert(self.versions@.take(self.versions@.len() as int) =~= self.versions@);
        let start = if offset < all.len() { offset } else { all.len() };
        let end = if limit < all.len() - start { start + limit } else { all.len() };
        let mut out: Vec<PromptVersionRecord> = Vec::new();
        let mut j: usize = start;
        while j < end
            invariant
                start <= j <= end <= all@.len(),
                out@ == all@.subrange(start as int, j as int),
            decreases end - j,
        {
            out.push(all[j].duplicate());
            assert(out@ =~= all@.subrange(start as int, j + 1));
            j = j + 1;
        }
        out
    }
}

} // verus!
