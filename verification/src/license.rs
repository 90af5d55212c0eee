//! Licenses and entitlement overrides per tenant, and the feature check
//! that an override decides before the product's feature gate does.
use vstd::prelude::*;
use crate::alist::TextMap;
use crate::clock::{at_time, now_ms};
use crate::text::{concat3, decimal, decimal_string, str_eq};

verus! {

/// The answer of a feature check.
#[derive(Debug, PartialEq, Eq)]
pub enum FeatureGateResult {
    Allowed,
    Denied { reason: String },
}

/// A tenant's license.
#[derive(Debug)]
pub struct LicenseRecord {
    pub tenant_id: String,
    pub license_id: String,
    /// The name of the product tier.
    pub tier: String,
    pub valid_from_ms: u64,
    pub valid_until_ms: Option<u64>,
}

/// An override of one feature for a tenant.
#[derive(Debug)]
pub struct EntitlementOverrideRecord {
    pub tenant_id: String,
    pub feature: String,
    pub allowed: bool,
    pub reason: Option<String>,
    pub set_at_ms: u64,
}

/// The id of a license issued to a tenant at `issued_at`.
pub open spec fn license_id_spec(tenant_id: Seq<char>, issued_at: u64) -> Seq<char> {
    "lic_"@ + tenant_id + "_"@ + decimal(issued_at as nat)
}

/// The reason a tenant without a license is denied.
pub open spec fn no_license_reason(tenant_id: Seq<char>) -> Seq<char> {
    "no active license for tenant '"@ + tenant_id + "'"@
}

/// The reason an override that gives none denies a feature.
pub open spec fn override_reason(feature: Seq<char>) -> Seq<char> {
    "feature '"@ + feature + "' disabled by override"@
}

/// Whether a result is a denial for a reason.
pub open spec fn denied_for(r: FeatureGateResult, reason: Seq<char>) -> bool {
    r matches FeatureGateResult::Denied { reason: x } && x@ == reason
}

/// A copy of a feature check's answer.
pub fn copy_result(r: &FeatureGateResult) -> (c: FeatureGateResult)
    ensures
        c == *r,
{
    match r {
        FeatureGateResult::Allowed => FeatureGateResult::Allowed,
        FeatureGateResult::Denied { reason } => FeatureGateResult::Denied { reason: reason.clone() },
    }
}

/// The answer for a feature: denied without a license; otherwise an
/// override of the feature decides (its reason, or a default one, when it
/// denies); otherwise the product's feature gate (`base`) does.
pub fn decide_feature(
    has_license: bool,
    tenant_id: &str,
    feature: &str,
    base: FeatureGateResult,
    override_record: Option<&EntitlementOverrideRecord>,
) -> (r: FeatureGateResult)
    ensures
        !has_license ==> denied_for(r, no_license_reason(tenant_id@)),
        has_license ==> match override_record {
            Some(o) => if o.allowed {
                r == FeatureGateResult::Allowed
            } else {
                match o.reason {
                    Some(x) => denied_for(r, x@),
                    None => denied_for(r, override_reason(feature@)),
                }
            },
            None => r == base,
        },
{
    if !has_license {
        return FeatureGateResult::Denied { reason: concat3("no active license for tenant '", tenant_id, "'") };
    }
    match override_record {
        Some(o) => {
            if o.allowed {
                FeatureGateResult::Allowed
            } else {
                match &o.reason {
                    Some(x) => FeatureGateResult::Denied { reason: x.clone() },
                    None => FeatureGateResult::Denied { reason: concat3("feature '", feature, "' disabled by override") },
                }
            }
        },
        None => base,
    }
}

/// Licenses by tenant (the last one activated is the active one), and the
/// overrides in the order they were first set.
pub struct LicenseServiceImpl {
    licenses: TextMap<LicenseRecord>,
    overrides: Vec<EntitlementOverrideRecord>,
}

/// Some override is for the tenant and feature.
pub open spec fn has_override(s: Seq<EntitlementOverrideRecord>, tenant_id: Seq<char>, feature: Seq<char>) -> bool {
    exists|i: int| 0 <= i < s.len() && (#[trigger] s[i]).tenant_id@ == tenant_id && s[i].feature@ == feature
}

impl LicenseServiceImpl {
    /// The active license of each tenant, by tenant id.
    pub closed spec fn licenses(&self) -> Map<Seq<char>, LicenseRecord> {
        self.licenses@
    }

    pub closed spec fn overrides(&self) -> Seq<EntitlementOverrideRecord> {
        self.overrides@
    }

    /// Licenses are keyed by their tenant, and no two overrides are for the
    /// same tenant and feature.
    pub closed spec fn wf(&self) -> bool {
        &&& self.licenses.wf()
        &&& forall|t: Seq<char>| #[trigger] self.licenses@.contains_key(t) ==> self.licenses@[t].tenant_id@ == t
        &&& forall|a: int, b: int|
            0 <= a < self.overrides@.len() && 0 <= b < self.overrides@.len() && a != b ==> !(#[trigger] self.overrides@[a].tenant_id@
                == #[trigger] self.overrides@[b].tenant_id@ && self.overrides@[a].feature@ == self.overrides@[b].feature@)
    }

    pub fn new() -> (r: Self)
        ensures
            r.wf(),
            r.licenses() == Map::<Seq<char>, LicenseRecord>::empty(),
            r.overrides() == Seq::<EntitlementOverrideRecord>::empty(),
    {
        LicenseServiceImpl { licenses: TextMap::new(), overrides: Vec::new() }
    }

    /// Activates a license for a tenant at `now`; its id is
    /// `lic_<tenant>_<now>` and it replaces the tenant's earlier license.
    pub fn activate_at(&mut self, tenant_id: &str, tier: String, valid_until_ms: Option<u64>, now: u64) -> (r: LicenseRecord)
        requires
            old(self).wf(),
        ensures
            final(self).wf(),
            r.tenant_id@ == tenant_id@,
            r.license_id@ == license_id_spec(tenant_id@, now),
            r.tier == tier,
            r.valid_from_ms == now,
            r.valid_until_ms == valid_until_ms,
            final(self).licenses() == old(self).licenses().insert(tenant_id@, r),
            final(self).overrides() == old(self).overrides(),
    {
        let digits = decimal_string(now);
        let head = concat3("lic_", tenant_id, "_");
        let id = concat3(head.as_str(), digits.as_str(), "");
        proof {
            reveal_strlit("");
            assert(id@ =~= license_id_spec(tenant_id@, now));
        }
        let rec = LicenseRecord { tenant_id: tenant_id.to_owned(), license_id: id, tier, valid_from_ms: now, valid_until_ms };
        let out = LicenseRecord {
            tenant_id: rec.tenant_id.clone(),
            license_id: rec.license_id.clone(),
            tier: rec.tier.clone(),
            valid_from_ms: now,
            valid_until_ms,
        };
        let key = tenant_id.to_owned();
        self.licenses.insert(key, rec);
        out
    }

    /// Activates a license for a tenant, issued at the current time.
    pub fn activate(&mut self, tenant_id: &str, tier: String, valid_until_ms: Option<u64>) -> (r: LicenseRecord)
        requires
            old(self).wf(),
        ensures
            final(self).wf(),
            r.tenant_id@ == tenant_id@,
            r.tier == tier,
            r.valid_until_ms == valid_until_ms,
            r.license_id@ == license_id_spec(tenant_id@, r.valid_from_ms),
            final(self).licenses() == old(self).licenses().insert(tenant_id@, r),
            final(self).overrides() == old(self).overrides(),
            exists|tm: u64| #[trigger] at_time(tm)
                && (r.license_id@ == license_id_spec(tenant_id@, tm))
                && (r.valid_from_ms == tm),
    {
        let now = now_ms();
        let r = self.activate_at(tenant_id, tier, valid_until_ms, now);
        assert(at_time(now));
        r
    }

    /// The tenant's active license.
    pub fn get_active(&self, tenant_id: &str) -> (r: Option<&LicenseRecord>)
        requires
            self.wf(),
        ensures
            match r {
                Some(l) => self.licenses().contains_key(tenant_id@) && *l == self.licenses()[tenant_id@],
                None => !self.licenses().contains_key(tenant_id@),
            },
    {
        self.licenses.get(&tenant_id.to_owned())
    }

    fn override_position(&self, tenant_id: &str, feature: &str) -> (r: Option<usize>)
        requires
            self.wf(),
        ensures
            match r {
                Some(i) => i < self.overrides@.len() && self.overrides@[i as int].tenant_id@ == tenant_id@
                    && self.overrides@[i as int].feature@ == feature@,
                None => !has_override(self.overrides@, tenant_id@, feature@),
            },
    {
        let mut i: usize = 0;
        while i < self.overrides.len()
            invariant
                i <= self.overrides@.len(),
                forall|j: int| 0 <= j < i ==> !((#[trigger] self.overrides@[j]).tenant_id@ == tenant_id@ && self.overrides@[j].feature@ == feature@),
            decreases self.overrides@.len() - i,
        {
            let o = &self.overrides[i];
            if str_eq(o.tenant_id.as_str(), tenant_id) && str_eq(o.feature.as_str(), feature) {
                return Some(i);
            }
            i = i + 1;
        }
        None
    }

    /// The override of a feature for a tenant.
    pub fn get_override(&self, tenant_id: &str, feature: &str) -> (r: Option<&EntitlementOverrideRecord>)
        requires
            self.wf(),
        ensures
            match r {
                Some(o) => self.overrides().contains(*o) && o.tenant_id@ == tenant_id@ && o.feature@ == feature@,
                None => !has_override(self.overrides(), tenant_id@, feature@),
            },
    {
        match self.override_position(tenant_id, feature) {
            Some(i) => Some(&self.overrides[i]),
            None => None,
        }
    }

    /// Sets at `now` whether a feature is allowed for a tenant, replacing
    /// the tenant's earlier override of the feature.
    pub fn set_override_at(&mut self, tenant_id: &str, feature: &str, allowed: bool, reason: Option<String>, now: u64) -> (r:
        EntitlementOverrideRecord)
        requires
            old(self).wf(),
        ensures
            final(self).wf(),
            r.tenant_id@ == tenant_id@,
            r.feature@ == feature@,
            r.allowed == allowed,
            r.reason == reason,
            r.set_at_ms == now,
            final(self).licenses() == old(self).licenses(),
            has_override(old(self).overrides(), tenant_id@, feature@) ==> exists|i: int|
                0 <= i < old(self).overrides().len() && (#[trigger] old(self).overrides()[i]).tenant_id@ == tenant_id@
                    && old(self).overrides()[i].feature@ == feature@ && final(self).overrides() == old(self).overrides().update(i, r),
            !has_override(old(self).overrides(), tenant_id@, feature@) ==> final(self).overrides() == old(self).overrides().push(r),
    {
        let rec = EntitlementOverrideRecord {
            tenant_id: tenant_id.to_owned(),
            feature: feature.to_owned(),
            allowed,
            reason,
            set_at_ms: now,
        };
        let out = EntitlementOverrideRecord {
            tenant_id: rec.tenant_id.clone(),
            feature: rec.feature.clone(),
            allowed,
            reason: match &rec.reason {
                Some(x) => Some(x.clone()),
                None => None,
            },
            set_at_ms: now,
        };
        let ghost s0 = self.overrides@;
        match self.override_position(tenant_id, feature) {
            Some(i) => {
                self.overrides.set(i, rec);
                proof {
                    let s = self.overrides@;
                    assert forall|a: int, b: int| 0 <= a < s.len() && 0 <= b < s.len() && a != b implies !(#[trigger] s[a].tenant_id@
                        == #[trigger] s[b].tenant_id@ && s[a].feature@ == s[b].feature@) by {
                        if a == i as int {
                            assert(!(s0[a].tenant_id@ == s0[b].tenant_id@ && s0[a].feature@ == s0[b].feature@));
                        } else if b == i as int {
                            assert(!(s0[a].tenant_id@ == s0[b].tenant_id@ && s0[a].feature@ == s0[b].feature@));
                        } else {
                            assert(!(s0[a].tenant_id@ == s0[b].tenant_id@ && s0[a].feature@ == s0[b].feature@));
                        }
                    }
                    assert(s == s0.update(i as int, out));
                }
            },
            None => {
                self.overrides.push(rec);
                proof {
                    let s = self.overrides@;
                    assert forall|a: int, b: int| 0 <= a < s.len() && 0 <= b < s.len() && a != b implies !(#[trigger] s[a].tenant_id@
                        == #[trigger] s[b].tenant_id@ && s[a].feature@ == s[b].feature@) by {
                        if a < s0.len() && b < s0.len() {
                            assert(!(s0[a].tenant_id@ == s0[b].tenant_id@ && s0[a].feature@ == s0[b].feature@));
                        } else if a < s0.len() {
                            assert(s[a] == s0[a]);
                        } else {
                            assert(s[b] == s0[b]);
                        }
                    }
                }
            },
        }
        out
    }

    /// Sets whether a feature is allowed for a tenant, stamped with the
    /// current time.
    pub fn set_override(&mut self, tenant_id: &str, feature: &str, allowed: bool, reason: Option<String>) -> (r:
        EntitlementOverrideRecord)
        requires
            old(self).wf(),
        ensures
            final(self).wf(),
            r.tenant_id@ == tenant_id@,
            r.feature@ == feature@,
            r.allowed == allowed,
            r.reason == reason,
            final(self).licenses() == old(self).licenses(),
            has_override(old(self).overrides(), tenant_id@, feature@) ==> exists|i: int|
                0 <= i < old(self).overrides().len() && (#[trigger] old(self).overrides()[i]).tenant_id@ == tenant_id@
                    && old(self).overrides()[i].feature@ == feature@ && final(self).overrides() == old(self).overrides().update(i, r),
            !has_override(old(self).overrides(), tenant_id@, feature@) ==> final(self).overrides() == old(self).overrides().push(r),
            exists|tm: u64| #[trigger] at_time(tm)
                && (r.set_at_ms == tm),
    {
        let now = now_ms();
        let r = self.set_override_at(tenant_id, feature, allowed, reason, now);
        assert(at_time(now));
        r
    }

    /// Whether a tenant may use a feature: denied without an active
    /// license; otherwise the tenant's override of the feature decides, and
    /// without one `base`, the product feature gate's answer for the
    /// tenant's license.
    pub fn check_feature(&self, tenant_id: &str, feature: &str, base: FeatureGateResult) -> (r: FeatureGateResult)
        requires
            self.wf(),
        ensures
            !self.licenses().contains_key(tenant_id@) ==> denied_for(r, no_license_reason(tenant_id@)),
            self.licenses().contains_key(tenant_id@) && !has_override(self.overrides(), tenant_id@, feature@) ==> r == base,
            self.licenses().contains_key(tenant_id@) ==> forall|i: int|
                0 <= i < self.overrides().len() && (#[trigger] self.overrides()[i]).tenant_id@ == tenant_id@
                    && self.overrides()[i].feature@ == feature@ ==> {
                    let o = self.overrides()[i];
                    if o.allowed {
                        r == FeatureGateResult::Allowed
                    } else {
                        match o.reason {
                            Some(x) => denied_for(r, x@),
                            None => denied_for(r, override_reason(feature@)),
                        }
                    }
                },
    {
        let has_license = self.get_active(tenant_id).is_some();
        let o = self.get_override(tenant_id, feature);
        proof {
            if let Some(o) = o {
                assert forall|i: int|
                    0 <= i < self.overrides().len() && (#[trigger] self.overrides()[i]).tenant_id@ == tenant_id@
                        && self.overrides()[i].feature@ == feature@ implies self.overrides()[i] == *o by {
                    let k = choose|k: int| 0 <= k < self.overrides@.len() && self.overrides@[k] == *o;
                    if k != i {
                        assert(!(self.overrides@[k].tenant_id@ == self.overrides@[i].tenant_id@
                            && self.overrides@[k].feature@ == self.overrides@[i].feature@));
                    }
                }
            }
        }
        decide_feature(has_license, tenant_id, feature, base, o)
    }
}

} // verus!
