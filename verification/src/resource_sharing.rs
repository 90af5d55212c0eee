//! Sharing resources across workspaces of a tenant, and the access check
//! that a prompt version created from another workspace must pass.
use vstd::prelude::*;
use crate::clock::now_ms;
use crate::domain::ProjectKey;
use crate::runtime_error::{conflict, fails_conflict, fails_denied, fails_not_found, not_found, RuntimeError};
use crate::text::{concat3, contains_string, decimal, decimal_string, str_eq, string_views};
use crate::domain::clone_strings;

verus! {

/// A grant of access to a resource of one workspace for another workspace.
#[derive(Debug)]
pub struct SharedResource {
    pub share_id: String,
    pub tenant_id: String,
    pub source_workspace_id: String,
    pub target_workspace_id: String,
    pub resource_type: String,
    pub resource_id: String,
    pub permissions: Vec<String>,
    pub shared_at_ms: u64,
}

impl SharedResource {
    pub fn duplicate(&self) -> (r: Self)
        ensures
            r.share_id == self.share_id,
            r.tenant_id == self.tenant_id,
            r.source_workspace_id == self.source_workspace_id,
            r.target_workspace_id == self.target_workspace_id,
            r.resource_type == self.resource_type,
            r.resource_id == self.resource_id,
            r.permissions@ == self.permissions@,
            r.shared_at_ms == self.shared_at_ms,
    {
        let permissions = clone_strings(&self.permissions);
        assert(permissions@ =~= self.permissions@);
        SharedResource {
            share_id: self.share_id.clone(),
            tenant_id: self.tenant_id.clone(),
            source_workspace_id: self.source_workspace_id.clone(),
            target_workspace_id: self.target_workspace_id.clone(),
            resource_type: self.resource_type.clone(),
            resource_id: self.resource_id.clone(),
            permissions,
            shared_at_ms: self.shared_at_ms,
        }
    }
}

/// A share as plain values: id, tenant, source and target workspace,
/// resource type and id, permissions.
pub open spec fn share_view(s: SharedResource) -> (Seq<char>, Seq<char>, Seq<char>, Seq<char>, Seq<char>, Seq<char>, Seq<Seq<char>>) {
    (s.share_id@, s.tenant_id@, s.source_workspace_id@, s.target_workspace_id@, s.resource_type@, s.resource_id@, string_views(s.permissions@))
}

/// Whether a share grants a workspace of a tenant access to a resource.
pub open spec fn grants(s: SharedResource, tenant_id: Seq<char>, workspace_id: Seq<char>, resource_type: Seq<char>, resource_id: Seq<char>) -> bool {
    s.tenant_id@ == tenant_id && s.target_workspace_id@ == workspace_id && s.resource_type@ == resource_type && s.resource_id@ == resource_id
}

/// The id of the share made when the counter stands at `n`.
pub open spec fn share_id_spec(n: nat) -> Seq<char> {
    "share_"@ + decimal(n)
}

/// The shares in force, in the order they were made.
pub struct ResourceSharingServiceImpl {
    shares: Vec<SharedResource>,
    next_share: u64,
}

impl ResourceSharingServiceImpl {
    pub closed spec fn shares(&self) -> Seq<SharedResource> {
        self.shares@
    }

    /// The number the next share id will carry.
    pub closed spec fn counter(&self) -> u64 {
        self.next_share
    }

    pub fn new() -> (r: Self)
        ensures
            r.shares() == Seq::<SharedResource>::empty(),
            r.counter() == 1,
    {
        ResourceSharingServiceImpl { shares: Vec::new(), next_share: 1 }
    }

    /// Shares a resource of one workspace with another; the share's id is
    /// `share_<n>` for the counter's value.
    pub fn share(
        &mut self,
        tenant_id: &str,
        source_workspace_id: &str,
        target_workspace_id: &str,
        resource_type: &str,
        resource_id: &str,
        permissions: Vec<String>,
    ) -> (r: SharedResource)
        requires
            old(self).counter() < u64::MAX,
        ensures
            share_view(r) == (
                share_id_spec(old(self).counter() as nat),
                tenant_id@,
                source_workspace_id@,
                target_workspace_id@,
                resource_type@,
                resource_id@,
                string_views(permissions@),
            ),
            final(self).counter() == old(self).counter() + 1,
            final(self).shares().len() == old(self).shares().len() + 1,
            final(self).shares().drop_last() == old(self).shares(),
            share_view(final(self).shares().last()) == share_view(r),
    {
        let digits = decimal_string(self.next_share);
        let id = concat3("share_", digits.as_str(), "");
        proof {
            reveal_strlit("");
            assert(id@ =~= share_id_spec(old(self).counter() as nat));
        }
        self.next_share = self.next_share + 1;
        let s = SharedResource {
            share_id: id,
            tenant_id: tenant_id.to_owned(),
            source_workspace_id: source_workspace_id.to_owned(),
            target_workspace_id: target_workspace_id.to_owned(),
            resource_type: resource_type.to_owned(),
            resource_id: resource_id.to_owned(),
            permissions,
            shared_at_ms: now_ms(),
        };
        let out = s.duplicate();
        self.shares.push(s);
        assert(self.shares@.drop_last() =~= old(self).shares@);
        out
    }

    /// Revokes a share; refused with `NotFound` when no share has the id.
    pub fn revoke(&mut self, share_id: &str) -> (r: Result<(), RuntimeError>)
        ensures
            final(self).counter() == old(self).counter(),
            (exists|i: int| 0 <= i < old(self).shares().len() && old(self).shares()[i].share_id@ == share_id@) ==> r is Ok
                && final(self).shares().len() == old(self).shares().filter(|s: SharedResource| s.share_id@ != share_id@).len()
                && forall|j: int| 0 <= j < final(self).shares().len() ==> share_view(#[trigger] final(self).shares()[j]) == share_view(
                    old(self).shares().filter(|s: SharedResource| s.share_id@ != share_id@)[j],
                ),
            !(exists|i: int| 0 <= i < old(self).shares().len() && old(self).shares()[i].share_id@ == share_id@)
                ==> fails_not_found(r, "resource_share"@, share_id@) && final(self).shares() == old(self).shares(),
    {
        let ghost f = |s: SharedResource| s.share_id@ != share_id@;
        let id = share_id.to_owned();
        let mut kept: Vec<SharedResource> = Vec::new();
        let mut found = false;
        let ghost s0 = self.shares@;
        let mut i: usize = 0;
        while i < self.shares.len()
            invariant
                i <= self.shares@.len(),
                s0 == self.shares@,
                s0 == old(self).shares@,
                id@ == share_id@,
                f == (|s: SharedResource| s.share_id@ != share_id@),
                kept@.len() <= i,
                forall|j: int| 0 <= j < kept@.len() ==> share_view(#[trigger] kept@[j]) == share_view(self.shares@.take(i as int).filter(f)[j])
                    && kept@[j].shared_at_ms == self.shares@.take(i as int).filter(f)[j].shared_at_ms,
                kept@.len() == self.shares@.take(i as int).filter(f).len(),
                found == exists|j: int| 0 <= j < i && self.shares@[j].share_id@ == share_id@,
            decreases self.shares@.len() - i,
        {
            proof {
                assert(self.shares@.take(i + 1) =~= self.shares@.take(i as int).push(self.shares@[i as int]));
                self.shares@.take(i as int).lemma_filter_push(self.shares@[i as int], f);
            }
            if self.shares[i].share_id == id {
                found = true;
            } else {
                let ghost before = kept@;
                kept.push(self.shares[i].duplicate());
                proof {
                    assert forall|j: int| 0 <= j < kept@.len() implies share_view(#[trigger] kept@[j]) == share_view(self.shares@.take(i + 1).filter(f)[j])
                        && kept@[j].shared_at_ms == self.shares@.take(i + 1).filter(f)[j].shared_at_ms by {
                        if j < before.len() {
                            assert(kept@[j] == before[j]);
                        }
                    }
                }
            }
            i = i + 1;
        }
        assert(self.shares@.take(self.shares@.len() as int) =~= self.shares@);
        if !found {
            proof {
                assert(!(exists|j: int| 0 <= j < old(self).shares().len() && old(self).shares()[j].share_id@ == share_id@));
            }
            return Err(not_found("resource_share", share_id));
        }
        proof {
            let j = choose|j: int| 0 <= j < i && self.shares@[j].share_id@ == share_id@;
            assert(old(self).shares()[j].share_id@ == share_id@);
        }
        self.shares = kept;
        Ok(())
    }

    /// The shares granting access to a workspace of a tenant, in the order
    /// they were made.
    pub fn list_shares(&self, tenant_id: &str, workspace_id: &str) -> (r: Vec<SharedResource>)
        ensures
            r@.len() == self.shares().filter(|s: SharedResource| s.tenant_id@ == tenant_id@ && s.target_workspace_id@ == workspace_id@).len(),
            forall|j: int| 0 <= j < r@.len() ==> share_view(#[trigger] r@[j]) == share_view(
                self.shares().filter(|s: SharedResource| s.tenant_id@ == tenant_id@ && s.target_workspace_id@ == workspace_id@)[j],
            ),
    {
        let ghost f = |s: SharedResource| s.tenant_id@ == tenant_id@ && s.target_workspace_id@ == workspace_id@;
        let t = tenant_id.to_owned();
        let w = workspace_id.to_owned();
        let mut out: Vec<SharedResource> = Vec::new();
        let mut i: usize = 0;
        while i < self.shares.len()
            invariant
                i <= self.shares@.len(),
                t@ == tenant_id@,
                w@ == workspace_id@,
                f == (|s: SharedResource| s.tenant_id@ == tenant_id@ && s.target_workspace_id@ == workspace_id@),
                out@.len() == self.shares@.take(i as int).filter(f).len(),
                forall|j: int| 0 <= j < out@.len() ==> share_view(#[trigger] out@[j]) == share_view(self.shares@.take(i as int).filter(f)[j]),
            decreases self.shares@.len() - i,
        {
            proof {
                assert(self.shares@.take(i + 1) =~= self.shares@.take(i as int).push(self.shares@[i as int]));
                self.shares@.take(i as int).lemma_filter_push(self.shares@[i as int], f);
            }
            if self.shares[i].tenant_id == t && self.shares[i].target_workspace_id == w {
                let ghost before = out@;
                out.push(self.shares[i].duplicate());
                proof {
                    assert forall|j: int| 0 <= j < out@.len() implies share_view(#[trigger] out@[j]) == share_view(self.shares@.take(i + 1).filter(f)[j]) by {
                        if j < before.len() {
                            assert(out@[j] == before[j]);
                        }
                    }
                }
            }
            i = i + 1;
        }
        assert(self.shares@.take(self.shares@.len() as int) =~= self.shares@);
        out
    }

    /// A share by id, if one is in force.
    pub fn get_share(&self, share_id: &str) -> (r: Option<SharedResource>)
        ensures
            match r {
                Some(s) => exists|i: int| 0 <= i < self.shares().len() && self.shares()[i].share_id@ == share_id@
                    && share_view(s) == share_view(self.shares()[i]),
                None => forall|i: int| 0 <= i < self.shares().len() ==> (#[trigger] self.shares()[i]).share_id@ != share_id@,
            },
    {
        let id = share_id.to_owned();
        let mut i: usize = 0;
        while i < self.shares.len()
            invariant
                i <= self.shares@.len(),
                id@ == share_id@,
                forall|j: int| 0 <= j < i ==> (#[trigger] self.shares@[j]).share_id@ != share_id@,
            decreases self.shares@.len() - i,
        {
            if self.shares[i].share_id == id {
                let out = self.shares[i].duplicate();
                assert(share_view(out) == share_view(self.shares()[i as int]) && self.shares()[i as int].share_id@ == share_id@);
                return Some(out);
            }
            i = i + 1;
        }
        None
    }

    /// The first share in force that grants a workspace of a tenant access to
    /// a resource.
    pub fn get_share_for_resource(&self, tenant_id: &str, workspace_id: &str, resource_type: &str, resource_id: &str) -> (r: Option<SharedResource>)
        ensures
            match r {
                Some(s) => exists|i: int| 0 <= i < self.shares().len()
                    && grants(self.shares()[i], tenant_id@, workspace_id@, resource_type@, resource_id@)
                    && (forall|j: int| 0 <= j < i ==> !grants(#[trigger] self.shares()[j], tenant_id@, workspace_id@, resource_type@, resource_id@))
                    && share_view(s) == share_view(self.shares()[i]),
                None => forall|i: int| 0 <= i < self.shares().len() ==> !grants(#[trigger] self.shares()[i], tenant_id@, workspace_id@, resource_type@, resource_id@),
            },
    {
        let mut i: usize = 0;
        while i < self.shares.len()
            invariant
                i <= self.shares@.len(),
                forall|j: int| 0 <= j < i ==> !grants(#[trigger] self.shares@[j], tenant_id@, workspace_id@, resource_type@, resource_id@),
            decreases self.shares@.len() - i,
        {
            let s = &self.shares[i];
            if str_eq(s.tenant_id.as_str(), tenant_id) && str_eq(s.target_workspace_id.as_str(), workspace_id)
                && str_eq(s.resource_type.as_str(), resource_type) && str_eq(s.resource_id.as_str(), resource_id) {
                let out = s.duplicate();
                assert(share_view(out) == share_view(self.shares()[i as int]));
                assert(grants(self.shares()[i as int], tenant_id@, workspace_id@, resource_type@, resource_id@));
                return Some(out);
            }
            i = i + 1;
        }
        None
    }
}

/// The reason a version is refused when no share reaches the caller's
/// workspace.
pub open spec fn unshared_reason(asset_id: Seq<char>, asset_workspace: Seq<char>, caller_workspace: Seq<char>) -> Seq<char> {
    "prompt asset '"@ + asset_id + "' belongs to workspace '"@ + asset_workspace + "'; no resource share grants workspace '"@
        + caller_workspace + "' access"@
}

/// The reason a version is refused when the share lacks `version`.
pub open spec fn no_version_permission_reason(asset_id: Seq<char>) -> Seq<char> {
    "resource share for asset '"@ + asset_id + "' does not grant 'version' permission"@
}

/// Whether the first share that grants a workspace an asset carries the
/// `version` permission.
pub open spec fn version_granted(shares: Seq<SharedResource>, tenant_id: Seq<char>, workspace_id: Seq<char>, asset_id: Seq<char>) -> bool {
    exists|i: int|
        0 <= i < shares.len() && grants(shares[i], tenant_id, workspace_id, "prompt_asset"@, asset_id)
            && (forall|j: int| 0 <= j < i ==> !grants(#[trigger] shares[j], tenant_id, workspace_id, "prompt_asset"@, asset_id))
            && string_views(shares[i].permissions@).contains("version"@)
}

/// Whether a version of an asset may be made from a project, its id being
/// free: an unknown asset, an asset of the project's workspace, or one that
/// a share grants with the `version` permission.
pub open spec fn version_admissible(
    asset_workspace: Option<Seq<char>>,
    project: (Seq<char>, Seq<char>, Seq<char>),
    asset_id: Seq<char>,
    shares: Seq<SharedResource>,
) -> bool {
    match asset_workspace {
        None => true,
        Some(w) => w == project.1 || version_granted(shares, project.0, project.1, asset_id),
    }
}

/// Whether a prompt version may be created from a project: refused with
/// `Conflict` when the version id is taken; when the asset lives in another
/// workspace, refused with `PolicyDenied` unless a share grants the caller's
/// workspace the asset with the `version` permission. An asset that does not
/// exist (`asset_workspace` is `None`) is no reason to refuse.
pub fn admit_prompt_version(
    version_exists: bool,
    project: &ProjectKey,
    prompt_version_id: &str,
    prompt_asset_id: &str,
    asset_workspace: Option<&str>,
    sharing: &ResourceSharingServiceImpl,
) -> (r: Result<(), RuntimeError>)
    ensures
        (r is Ok) == (!version_exists && version_admissible(
            match asset_workspace {
                Some(w) => Some(w@),
                None => None,
            },
            project@,
            prompt_asset_id@,
            sharing.shares(),
        )),
        !version_exists ==> !(r matches Err(RuntimeError::Conflict { .. })),
        version_exists ==> fails_conflict(r, "prompt_version"@, prompt_version_id@),
        !version_exists ==> match asset_workspace {
            None => r is Ok,
            Some(w) => if w@ == project.workspace_id@ {
                r is Ok
            } else if forall|i: int| 0 <= i < sharing.shares().len() ==> !grants(
                #[trigger] sharing.shares()[i],
                project.tenant_id@,
                project.workspace_id@,
                "prompt_asset"@,
                prompt_asset_id@,
            ) {
                fails_denied(r, unshared_reason(prompt_asset_id@, w@, project.workspace_id@))
            } else {
                exists|i: int| 0 <= i < sharing.shares().len()
                    && grants(sharing.shares()[i], project.tenant_id@, project.workspace_id@, "prompt_asset"@, prompt_asset_id@)
                    && (forall|j: int| 0 <= j < i ==> !grants(#[trigger] sharing.shares()[j], project.tenant_id@, project.workspace_id@, "prompt_asset"@, prompt_asset_id@))
                    && (if string_views(sharing.shares()[i].permissions@).contains("version"@) {
                        r is Ok
                    } else {
                        fails_denied(r, no_version_permission_reason(prompt_asset_id@))
                    })
            },
        },
{
    if version_exists {
        return Err(conflict("prompt_version", prompt_version_id));
    }
    let w = match asset_workspace {
        None => return Ok(()),
        Some(w) => w,
    };
    if str_eq(w, project.workspace_id.as_str()) {
        return Ok(());
    }
    match sharing.get_share_for_resource(project.tenant_id.as_str(), project.workspace_id.as_str(), "prompt_asset", prompt_asset_id) {
        None => {
            let a = concat3("prompt asset '", prompt_asset_id, "' belongs to workspace '");
            let b = concat3(a.as_str(), w, "'; no resource share grants workspace '");
            let reason = concat3(b.as_str(), project.workspace_id.as_str(), "' access");
            assert(reason@ =~= unshared_reason(prompt_asset_id@, w@, project.workspace_id@));
            Err(RuntimeError::PolicyDenied { reason })
        },
        Some(s) => {
            let version = "version".to_owned();
            if contains_string(&s.permissions, &version) {
                Ok(())
            } else {
                let reason = concat3("resource share for asset '", prompt_asset_id, "' does not grant 'version' permission");
                Err(RuntimeError::PolicyDenied { reason })
            }
        },
    }
}

} // verus!
