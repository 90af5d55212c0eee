//! Plugin marketplace: the discover → install → credentials → enable →
//! disable → uninstall lifecycle above the plugin host.
//!
//! A plugin's marketplace record moves through `Listed → Installing →
//! Installed → Uninstalled` (or `InstallationFailed`); enablement is kept
//! per project, with tool and signal allowlists.
use vstd::prelude::*;
use std::sync::Arc;
use crate::alist::TextMap;
use crate::clock::{at_time, now_ms};
use crate::domain::{clone_opt_strings, clone_strings, ProjectKey};
use crate::text::{clone_opt_string, opt_str_view};
use crate::text::{chars_of, push_str, string_from_chars};

verus! {

/// Lifecycle state of a plugin in the marketplace.
#[derive(Debug)]
pub enum MarketplaceState {
    Listed,
    Installing,
    Installed,
    InstallationFailed { reason: String },
    Uninstalled,
}

/// Where a plugin descriptor came from.
#[derive(Debug)]
pub enum DescriptorSource {
    BundledCatalog,
    LocalFile { path: String },
    RemoteUrl { url: String },
}

impl DescriptorSource {
    pub fn duplicate(&self) -> (r: Self)
        ensures
            r == *self,
    {
        match self {
            DescriptorSource::BundledCatalog => DescriptorSource::BundledCatalog,
            DescriptorSource::LocalFile { path } => DescriptorSource::LocalFile { path: path.clone() },
            DescriptorSource::RemoteUrl { url } => DescriptorSource::RemoteUrl { url: url.clone() },
        }
    }
}

/// Credential scope key, derived from the credentials bound to an enablement.
#[derive(Debug)]
pub struct CredentialScopeKey(pub String);

/// Reason a process instance became ready.
#[derive(Debug)]
pub enum InstanceReadyReason {
    EagerSignalSource,
    LazyFirstInvocation,
    Restart,
}

/// Reason a process instance stopped.
#[derive(Debug)]
pub enum InstanceStoppedReason {
    Drained,
    Failed { details: String },
    Uninstalled,
}

/// Outcome of an ephemeral credential verification.
#[derive(Debug)]
pub enum VerificationOutcome {
    Verified,
    Failed { reason: String },
}

/// Commands handled by the marketplace service.
#[derive(Debug)]
pub enum MarketplaceCommand {
    InstallPlugin { plugin_id: String, initiated_by: String },
    ProvidePluginCredentials { plugin_id: String, credentials: Vec<(String, String)>, provided_by: String },
    VerifyPluginCredentials { plugin_id: String, credential_scope_key: Option<CredentialScopeKey>, verified_by: String },
    EnablePluginForProject {
        plugin_id: String,
        project: ProjectKey,
        tool_allowlist: Option<Vec<String>>,
        signal_allowlist: Option<Vec<String>>,
        /// Signal capture override, by its JSON text.
        signal_capture_override: Option<String>,
        enabled_by: String,
    },
    DisablePluginForProject { plugin_id: String, project: ProjectKey, disabled_by: String },
    UninstallPlugin { plugin_id: String, uninstalled_by: String },
}

/// Events emitted by the marketplace service.
#[derive(Debug)]
pub enum MarketplaceEvent {
    PluginListed { plugin_id: String, source: DescriptorSource, listed_at: u64 },
    PluginInstallationStarted { plugin_id: String, initiated_by: String, started_at: u64 },
    PluginInstalled { plugin_id: String, manifest_hash: String, at: u64 },
    PluginInstallationFailed { plugin_id: String, reason: String, at: u64 },
    PluginCredentialsProvided { plugin_id: String, credential_ids: Vec<String>, provided_by: String, at: u64 },
    PluginInstanceReady { plugin_id: String, credential_scope_key: CredentialScopeKey, reason: InstanceReadyReason, at: u64 },
    PluginInstanceStopped { plugin_id: String, credential_scope_key: CredentialScopeKey, reason: InstanceStoppedReason, at: u64 },
    PluginCredentialsVerified {
        plugin_id: String,
        credential_scope_key: CredentialScopeKey,
        outcome: VerificationOutcome,
        verified_by: String,
        at: u64,
    },
    PluginEnabledForProject {
        plugin_id: String,
        project: ProjectKey,
        enabled_by: String,
        tool_allowlist: Option<Vec<String>>,
        signal_allowlist: Option<Vec<String>>,
        signal_capture_override: Option<String>,
        at: u64,
    },
    PluginDisabledForProject { plugin_id: String, project: ProjectKey, disabled_by: String, at: u64 },
    PluginUninstalled { plugin_id: String, uninstalled_by: String, credentials_revoked: Vec<String>, at: u64 },
    SignalProjectedToGraph { signal_id: String, plugin_id: String, project: ProjectKey, node_id: String, at: u64 },
    SignalIngestedToMemory {
        signal_id: String,
        plugin_id: String,
        project: ProjectKey,
        source_id: String,
        chunks_created: u32,
        at: u64,
    },
}

/// In-memory projection of a plugin's marketplace state.
#[derive(Debug)]
pub struct MarketplaceRecord {
    pub plugin_id: String,
    pub state: MarketplaceState,
    pub source: DescriptorSource,
    pub manifest_hash: Option<String>,
    pub credential_ids: Vec<String>,
    pub listed_at: u64,
    pub installed_at: Option<u64>,
}

/// Per-project plugin enablement record.
#[derive(Debug)]
pub struct PluginEnablement {
    pub plugin_id: String,
    pub project: ProjectKey,
    pub enabled: bool,
    pub enabled_at: u64,
    pub enabled_by: String,
    pub tool_allowlist: Option<Vec<String>>,
    pub signal_allowlist: Option<Vec<String>>,
    pub signal_capture_override: Option<String>,
}

/// Mathematical reading of a [`MarketplaceRecord`].
pub struct RecordView {
    pub plugin_id: Seq<char>,
    pub state: MarketplaceState,
    pub source: DescriptorSource,
    pub manifest_hash: Option<Seq<char>>,
    pub credential_ids: Seq<String>,
    pub listed_at: u64,
    pub installed_at: Option<u64>,
}

impl View for MarketplaceRecord {
    type V = RecordView;

    open spec fn view(&self) -> RecordView {
        RecordView {
            plugin_id: self.plugin_id@,
            state: self.state,
            source: self.source,
            manifest_hash: opt_str_view(self.manifest_hash),
            credential_ids: self.credential_ids@,
            listed_at: self.listed_at,
            installed_at: self.installed_at,
        }
    }
}

pub open spec fn opt_strings_view(o: Option<Vec<String>>) -> Option<Seq<String>> {
    match o {
        Some(v) => Some(v@),
        None => None,
    }
}

/// Mathematical reading of a [`PluginEnablement`].
pub struct EnablementView {
    pub plugin_id: Seq<char>,
    pub project: (Seq<char>, Seq<char>, Seq<char>),
    pub enabled: bool,
    pub enabled_at: u64,
    pub enabled_by: Seq<char>,
    pub tool_allowlist: Option<Seq<String>>,
    pub signal_allowlist: Option<Seq<String>>,
    pub signal_capture_override: Option<Seq<char>>,
}

impl View for PluginEnablement {
    type V = EnablementView;

    open spec fn view(&self) -> EnablementView {
        EnablementView {
            plugin_id: self.plugin_id@,
            project: self.project@,
            enabled: self.enabled,
            enabled_at: self.enabled_at,
            enabled_by: self.enabled_by@,
            tool_allowlist: opt_strings_view(self.tool_allowlist),
            signal_allowlist: opt_strings_view(self.signal_allowlist),
            signal_capture_override: opt_str_view(self.signal_capture_override),
        }
    }
}

pub open spec fn enablement_views(s: Seq<PluginEnablement>) -> Seq<EnablementView> {
    s.map_values(|e: PluginEnablement| e@)
}

/// Marketplace-specific errors.
#[derive(Debug)]
pub enum MarketplaceError {
    PluginNotFound(String),
    PluginNotInstalled(String),
    InvalidTransition { plugin_id: String, from: String, to: String },
    NotEnabledForProject { plugin_id: String, project: ProjectKey },
    EvalScorerReserved,
}

/// `Debug` rendering of a string slice (quoted and escaped).
pub uninterp spec fn str_debug_text(s: Seq<char>) -> Seq<char>;

/// `format!("{:?}", s)`: the quoted, escaped `Debug` form of a string,
/// named [`str_debug_text`].
#[verifier::external_body]
fn str_debug(s: &str) -> (r: String)
    ensures
        r@ == str_debug_text(s@),
{
    format!("{:?}", s)
}

/// `Debug` rendering of a marketplace state.
pub open spec fn state_debug(s: MarketplaceState) -> Seq<char> {
    match s {
        MarketplaceState::Listed => "Listed"@,
        MarketplaceState::Installing => "Installing"@,
        MarketplaceState::Installed => "Installed"@,
        MarketplaceState::InstallationFailed { reason } => "InstallationFailed { reason: "@ + str_debug_text(reason@) + " }"@,
        MarketplaceState::Uninstalled => "Uninstalled"@,
    }
}

fn state_debug_string(s: &MarketplaceState) -> (r: String)
    ensures
        r@ == state_debug(*s),
{
    match s {
        MarketplaceState::Listed => "Listed".to_owned(),
        MarketplaceState::Installing => "Installing".to_owned(),
        MarketplaceState::Installed => "Installed".to_owned(),
        MarketplaceState::InstallationFailed { reason } => {
            let mut out: Vec<char> = Vec::new();
            push_str(&mut out, "InstallationFailed { reason: ");
            let d = str_debug(reason.as_str());
            push_str(&mut out, d.as_str());
            push_str(&mut out, " }");
            string_from_chars(out.as_slice())
        },
        MarketplaceState::Uninstalled => "Uninstalled".to_owned(),
    }
}

/// Position of the enablement of `plugin` for `project` in `s`, if any.
pub open spec fn find_enablement(s: Seq<EnablementView>, plugin: Seq<char>, project: (Seq<char>, Seq<char>, Seq<char>)) -> Option<int> {
    if exists|i: int| 0 <= i < s.len() && s[i].plugin_id == plugin && s[i].project == project {
        Some(choose|i: int| 0 <= i < s.len() && s[i].plugin_id == plugin && s[i].project == project)
    } else {
        None
    }
}

/// No plugin is enabled twice for one project.
pub open spec fn enablements_unique(s: Seq<EnablementView>) -> bool {
    forall|i: int, j: int|
        0 <= i < s.len() && 0 <= j < s.len() && i != j ==> !(#[trigger] s[i].plugin_id == #[trigger] s[j].plugin_id
            && s[i].project == s[j].project)
}

pub proof fn lemma_unique_update(s: Seq<EnablementView>, i: int, e: EnablementView)
    requires
        enablements_unique(s),
        0 <= i < s.len(),
        e.plugin_id == s[i].plugin_id,
        e.project == s[i].project,
    ensures
        enablements_unique(s.update(i, e)),
{
    let t = s.update(i, e);
    assert forall|a: int, b: int| 0 <= a < t.len() && 0 <= b < t.len() && a != b implies !(#[trigger] t[a].plugin_id == #[trigger] t[b].plugin_id && t[a].project == t[b].project) by {
        assert(t[a].plugin_id == s[a].plugin_id && t[a].project == s[a].project);
        assert(t[b].plugin_id == s[b].plugin_id && t[b].project == s[b].project);
    }
}

pub proof fn lemma_unique_push(s: Seq<EnablementView>, e: EnablementView)
    requires
        enablements_unique(s),
        find_enablement(s, e.plugin_id, e.project) is None,
    ensures
        enablements_unique(s.push(e)),
{
    let t = s.push(e);
    assert forall|a: int, b: int| 0 <= a < t.len() && 0 <= b < t.len() && a != b implies !(#[trigger] t[a].plugin_id == #[trigger] t[b].plugin_id && t[a].project == t[b].project) by {
        if a < s.len() && b < s.len() {
            assert(t[a] == s[a]);
            assert(t[b] == s[b]);
        } else if a < s.len() {
            assert(t[a] == s[a]);
            if s[a].plugin_id == e.plugin_id && s[a].project == e.project {
                assert(exists|c: int| 0 <= c < s.len() && s[c].plugin_id == e.plugin_id && s[c].project == e.project);
            }
        } else {
            assert(t[b] == s[b]);
            if s[b].plugin_id == e.plugin_id && s[b].project == e.project {
                assert(exists|c: int| 0 <= c < s.len() && s[c].plugin_id == e.plugin_id && s[c].project == e.project);
            }
        }
    }
}

/// `s` without the enablements of `plugin`, order kept.
pub open spec fn drop_plugin(s: Seq<EnablementView>, plugin: Seq<char>) -> Seq<EnablementView>
    decreases s.len(),
{
    if s.len() == 0 {
        s
    } else {
        let p = drop_plugin(s.drop_last(), plugin);
        if s.last().plugin_id == plugin {
            p
        } else {
            p.push(s.last())
        }
    }
}

pub proof fn lemma_drop_plugin(s: Seq<EnablementView>, plugin: Seq<char>)
    requires
        enablements_unique(s),
    ensures
        enablements_unique(drop_plugin(s, plugin)),
        forall|i: int| 0 <= i < drop_plugin(s, plugin).len() ==> s.contains(#[trigger] drop_plugin(s, plugin)[i])
            && drop_plugin(s, plugin)[i].plugin_id != plugin,
        forall|i: int| 0 <= i < s.len() && #[trigger] s[i].plugin_id != plugin ==> drop_plugin(s, plugin).contains(s[i]),
    decreases s.len(),
{
    if s.len() > 0 {
        let t = s.drop_last();
        assert(enablements_unique(t)) by {
            assert forall|i: int, j: int| 0 <= i < t.len() && 0 <= j < t.len() && i != j implies !(#[trigger] t[i].plugin_id == #[trigger] t[j].plugin_id && t[i].project == t[j].project) by {
                assert(t[i] == s[i]);
                assert(t[j] == s[j]);
            }
        }
        lemma_drop_plugin(t, plugin);
        let p = drop_plugin(t, plugin);
        let x = s.last();
        if x.plugin_id != plugin {
            let q = p.push(x);
            assert forall|i: int, j: int| 0 <= i < q.len() && 0 <= j < q.len() && i != j implies !(#[trigger] q[i].plugin_id == #[trigger] q[j].plugin_id && q[i].project == q[j].project) by {
                if i < p.len() && j < p.len() {
                    assert(q[i] == p[i]);
                    assert(q[j] == p[j]);
                } else if i < p.len() {
                    assert(q[i] == p[i]);
                    assert(t.contains(p[i]));
                    let k = choose|k: int| 0 <= k < t.len() && t[k] == p[i];
                    assert(s[k] == t[k]);
                    assert(s[s.len() - 1] == x);
                } else {
                    assert(q[j] == p[j]);
                    assert(t.contains(p[j]));
                    let k = choose|k: int| 0 <= k < t.len() && t[k] == p[j];
                    assert(s[k] == t[k]);
                    assert(s[s.len() - 1] == x);
                }
            }
            assert forall|i: int| 0 <= i < q.len() implies s.contains(#[trigger] q[i]) && q[i].plugin_id != plugin by {
                if i < p.len() {
                    assert(q[i] == p[i]);
                    let k = choose|k: int| 0 <= k < t.len() && t[k] == p[i];
                    assert(s[k] == t[k]);
                } else {
                    assert(s[s.len() - 1] == x);
                }
            }
            assert forall|i: int| 0 <= i < s.len() && #[trigger] s[i].plugin_id != plugin implies q.contains(s[i]) by {
                if i < s.len() - 1 {
                    assert(s[i] == t[i]);
                    let k = choose|k: int| 0 <= k < p.len() && p[k] == t[i];
                    assert(q[k] == p[k]);
                } else {
                    assert(q[q.len() - 1] == x);
                }
            }
        } else {
            assert forall|i: int| 0 <= i < p.len() implies s.contains(#[trigger] p[i]) && p[i].plugin_id != plugin by {
                let k = choose|k: int| 0 <= k < t.len() && t[k] == p[i];
                assert(s[k] == t[k]);
            }
            assert forall|i: int| 0 <= i < s.len() && #[trigger] s[i].plugin_id != plugin implies p.contains(s[i]) by {
                assert(i < s.len() - 1);
                assert(s[i] == t[i]);
            }
        }
    }
}

/// What a command does, by kind (see each kind's own statement).
pub open spec fn command_ok<S>(o: MarketplaceService<S>, n: MarketplaceService<S>, command: MarketplaceCommand, now: u64, r: Result<Vec<MarketplaceEvent>, MarketplaceError>) -> bool {
    match command {
        MarketplaceCommand::InstallPlugin { plugin_id, initiated_by } => install_ok(o, n, plugin_id@, initiated_by@, now, r),
        MarketplaceCommand::ProvidePluginCredentials { plugin_id, provided_by, .. } => credentials_ok(o, n, plugin_id@, provided_by@, now, r),
        MarketplaceCommand::VerifyPluginCredentials { plugin_id, credential_scope_key, verified_by } => verify_ok(o, n, plugin_id@, credential_scope_key, verified_by@, now, r),
        MarketplaceCommand::EnablePluginForProject { plugin_id, project, tool_allowlist, signal_allowlist, signal_capture_override, enabled_by } => enable_ok(o, n, plugin_id@, project@, tool_allowlist, signal_allowlist, signal_capture_override, enabled_by@, now, r),
        MarketplaceCommand::DisablePluginForProject { plugin_id, project, disabled_by } => disable_ok(o, n, plugin_id@, project@, disabled_by@, now, r),
        MarketplaceCommand::UninstallPlugin { plugin_id, uninstalled_by } => uninstall_ok(o, n, plugin_id@, uninstalled_by@, now, r),
    }
}

/// The outcome of a command that changed nothing and failed with `e`.
pub open spec fn refused<S>(o: MarketplaceService<S>, n: MarketplaceService<S>, r: Result<Vec<MarketplaceEvent>, MarketplaceError>) -> bool {
    &&& n.records() == o.records()
    &&& n.enablements() == o.enablements()
    &&& r is Err
}

pub open spec fn not_found<S>(o: MarketplaceService<S>, n: MarketplaceService<S>, pid: Seq<char>, r: Result<Vec<MarketplaceEvent>, MarketplaceError>) -> bool {
    refused(o, n, r) && (r matches Err(MarketplaceError::PluginNotFound(p)) && p@ == pid)
}

pub open spec fn not_installed<S>(o: MarketplaceService<S>, n: MarketplaceService<S>, pid: Seq<char>, r: Result<Vec<MarketplaceEvent>, MarketplaceError>) -> bool {
    refused(o, n, r) && (r matches Err(MarketplaceError::PluginNotInstalled(p)) && p@ == pid)
}

pub open spec fn bad_transition<S>(o: MarketplaceService<S>, n: MarketplaceService<S>, pid: Seq<char>, from: Seq<char>, to: Seq<char>, r: Result<Vec<MarketplaceEvent>, MarketplaceError>) -> bool {
    refused(o, n, r) && (r matches Err(MarketplaceError::InvalidTransition { plugin_id, from: f, to: t }) && plugin_id@ == pid && f@ == from && t@ == to)
}

/// Install: a listed, failed or uninstalled plugin becomes installed at
/// `now`, announcing the start and the end of installation.
pub open spec fn install_ok<S>(o: MarketplaceService<S>, n: MarketplaceService<S>, pid: Seq<char>, by: Seq<char>, now: u64, r: Result<Vec<MarketplaceEvent>, MarketplaceError>) -> bool {
    if !o.records().contains_key(pid) {
        not_found(o, n, pid, r)
    } else {
        let rec = o.records()[pid];
        if rec.state is Installing || rec.state is Installed {
            bad_transition(o, n, pid, state_debug(rec.state), "Installing"@, r)
        } else {
            &&& n.enablements() == o.enablements()
            &&& n.records().dom() == o.records().dom()
            &&& forall|k: Seq<char>| k != pid && #[trigger] o.records().contains_key(k) ==> n.records()[k] == o.records()[k]
            &&& n.records()[pid] == (RecordView { state: MarketplaceState::Installed, installed_at: Some(now), ..rec })
            &&& r matches Ok(evs) && evs@.len() == 2
                && (evs@[0] matches MarketplaceEvent::PluginInstallationStarted { plugin_id, initiated_by, started_at } && plugin_id@ == pid && initiated_by@ == by && started_at == now)
                && (evs@[1] matches MarketplaceEvent::PluginInstalled { plugin_id, manifest_hash, at } && plugin_id@ == pid && manifest_hash@.len() == 0 && at == now)
        }
    }
}

/// Credentials may be provided only to an installed plugin.
pub open spec fn credentials_ok<S>(o: MarketplaceService<S>, n: MarketplaceService<S>, pid: Seq<char>, by: Seq<char>, now: u64, r: Result<Vec<MarketplaceEvent>, MarketplaceError>) -> bool {
    if !o.records().contains_key(pid) {
        not_found(o, n, pid, r)
    } else if !(o.records()[pid].state is Installed) {
        bad_transition(o, n, pid, state_debug(o.records()[pid].state), "CredentialsProvided"@, r)
    } else {
        &&& n.records() == o.records()
        &&& n.enablements() == o.enablements()
        &&& r matches Ok(evs) && evs@.len() == 1
            && (evs@[0] matches MarketplaceEvent::PluginCredentialsProvided { plugin_id, credential_ids, provided_by, at } && plugin_id@ == pid && credential_ids@.len() == 0 && provided_by@ == by && at == now)
    }
}

/// Verification is ephemeral: only an installed plugin is verified, under
/// the given scope or `tenant-default`.
pub open spec fn verify_ok<S>(o: MarketplaceService<S>, n: MarketplaceService<S>, pid: Seq<char>, scope: Option<CredentialScopeKey>, by: Seq<char>, now: u64, r: Result<Vec<MarketplaceEvent>, MarketplaceError>) -> bool {
    if !o.records().contains_key(pid) {
        not_found(o, n, pid, r)
    } else if !(o.records()[pid].state is Installed) {
        not_installed(o, n, pid, r)
    } else {
        &&& n.records() == o.records()
        &&& n.enablements() == o.enablements()
        &&& r matches Ok(evs) && evs@.len() == 1
            && (evs@[0] matches MarketplaceEvent::PluginCredentialsVerified { plugin_id, credential_scope_key, outcome, verified_by, at }
                && plugin_id@ == pid && credential_scope_key.0@ == (match scope { Some(k) => k.0@, None => "tenant-default"@ })
                && outcome is Verified && verified_by@ == by && at == now)
    }
}

/// The enablement recorded by an enable command.
pub open spec fn new_enablement(pid: Seq<char>, project: (Seq<char>, Seq<char>, Seq<char>), tools: Option<Vec<String>>, signals: Option<Vec<String>>, ov: Option<String>, by: Seq<char>, now: u64) -> EnablementView {
    EnablementView {
        plugin_id: pid,
        project,
        enabled: true,
        enabled_at: now,
        enabled_by: by,
        tool_allowlist: opt_strings_view(tools),
        signal_allowlist: opt_strings_view(signals),
        signal_capture_override: opt_str_view(ov),
    }
}

/// Enable: an installed plugin gets (or replaces) its enablement for the project.
pub open spec fn enable_ok<S>(o: MarketplaceService<S>, n: MarketplaceService<S>, pid: Seq<char>, project: (Seq<char>, Seq<char>, Seq<char>), tools: Option<Vec<String>>, signals: Option<Vec<String>>, ov: Option<String>, by: Seq<char>, now: u64, r: Result<Vec<MarketplaceEvent>, MarketplaceError>) -> bool {
    if !o.records().contains_key(pid) {
        not_found(o, n, pid, r)
    } else if !(o.records()[pid].state is Installed) {
        not_installed(o, n, pid, r)
    } else {
        let e = new_enablement(pid, project, tools, signals, ov, by, now);
        &&& n.records() == o.records()
        &&& n.enablements() == match find_enablement(o.enablements(), pid, project) {
            Some(i) => o.enablements().update(i, e),
            None => o.enablements().push(e),
        }
        &&& r matches Ok(evs) && evs@.len() == 1
            && (evs@[0] matches MarketplaceEvent::PluginEnabledForProject { plugin_id, project: p, enabled_by, tool_allowlist, signal_allowlist, signal_capture_override, at }
                && plugin_id@ == pid && p@ == project && enabled_by@ == by && tool_allowlist == tools && signal_allowlist == signals && signal_capture_override == ov && at == now)
    }
}

/// Disable: an existing enablement is switched off (kept, not removed).
pub open spec fn disable_ok<S>(o: MarketplaceService<S>, n: MarketplaceService<S>, pid: Seq<char>, project: (Seq<char>, Seq<char>, Seq<char>), by: Seq<char>, now: u64, r: Result<Vec<MarketplaceEvent>, MarketplaceError>) -> bool {
    match find_enablement(o.enablements(), pid, project) {
        None => refused(o, n, r) && (r matches Err(MarketplaceError::NotEnabledForProject { plugin_id, project: p }) && plugin_id@ == pid && p@ == project),
        Some(i) => {
            &&& n.records() == o.records()
            &&& n.enablements() == o.enablements().update(i, EnablementView { enabled: false, ..o.enablements()[i] })
            &&& r matches Ok(evs) && evs@.len() == 1
                && (evs@[0] matches MarketplaceEvent::PluginDisabledForProject { plugin_id, project: p, disabled_by, at }
                    && plugin_id@ == pid && p@ == project && disabled_by@ == by && at == now)
        },
    }
}

/// Uninstall: any plugin but a merely listed one becomes uninstalled, every
/// enablement of it (in every project) is dropped, and its credentials are
/// reported revoked.
pub open spec fn uninstall_ok<S>(o: MarketplaceService<S>, n: MarketplaceService<S>, pid: Seq<char>, by: Seq<char>, now: u64, r: Result<Vec<MarketplaceEvent>, MarketplaceError>) -> bool {
    if !o.records().contains_key(pid) {
        not_found(o, n, pid, r)
    } else {
        let rec = o.records()[pid];
        if rec.state is Listed {
            bad_transition(o, n, pid, "Listed"@, "Uninstalled"@, r)
        } else {
            &&& n.records().dom() == o.records().dom()
            &&& forall|k: Seq<char>| k != pid && #[trigger] o.records().contains_key(k) ==> n.records()[k] == o.records()[k]
            &&& n.records()[pid] == (RecordView { state: MarketplaceState::Uninstalled, ..rec })
            &&& n.enablements() == drop_plugin(o.enablements(), pid)
            &&& r matches Ok(evs) && evs@.len() == 1
                && (evs@[0] matches MarketplaceEvent::PluginUninstalled { plugin_id, uninstalled_by, credentials_revoked, at }
                    && plugin_id@ == pid && uninstalled_by@ == by && credentials_revoked@ == rec.credential_ids && at == now)
        }
    }
}

/// The marketplace service.
pub struct MarketplaceService<S> {
    store: Arc<S>,
    records: TextMap<MarketplaceRecord>,
    enablements: Vec<PluginEnablement>,
}

impl<S> MarketplaceService<S> {
    /// Marketplace records by plugin ID.
    pub closed spec fn records(&self) -> Map<Seq<char>, RecordView> {
        self.records@.map_values(|r: MarketplaceRecord| r@)
    }

    /// Project enablements.
    pub closed spec fn enablements(&self) -> Seq<EnablementView> {
        enablement_views(self.enablements@)
    }

    pub closed spec fn wf(&self) -> bool {
        &&& self.records.wf()
        &&& enablements_unique(enablement_views(self.enablements@))
    }

    /// Replaces the record at position `i` of the record list.
    fn put_record(&mut self, i: usize, rec: MarketplaceRecord)
        requires
            old(self).wf(),
            i < old(self).records.entry_seq().len(),
        ensures
            final(self).wf(),
            final(self).enablements() == old(self).enablements(),
            final(self).records() == old(self).records().insert(old(self).records.entry_seq()[i as int].0, rec@),
    {
        let ghost k = self.records.entry_seq()[i as int].0;
        let ghost v = rec@;
        self.records.set_at(i, rec);
        assert(self.records() =~= old(self).records().insert(k, v));
    }

    /// A marketplace with no plugins.
    pub fn new(store: Arc<S>) -> (r: Self)
        ensures
            r.wf(),
            r.records() == Map::<Seq<char>, RecordView>::empty(),
            r.enablements() == Seq::<EnablementView>::empty(),
    {
        let r = MarketplaceService { store, records: TextMap::new(), enablements: Vec::new() };
        assert(r.records() =~= Map::<Seq<char>, RecordView>::empty());
        assert(r.enablements() =~= Seq::<EnablementView>::empty());
        r
    }

    /// Lists a plugin from a catalog (replacing any earlier record).
    pub fn list_plugin_at(&mut self, plugin_id: String, source: DescriptorSource, now: u64) -> (r: MarketplaceEvent)
        requires
            old(self).wf(),
        ensures
            final(self).wf(),
            final(self).enablements() == old(self).enablements(),
            final(self).records() == old(self).records().insert(
                plugin_id@,
                RecordView {
                    plugin_id: plugin_id@,
                    state: MarketplaceState::Listed,
                    source: source,
                    manifest_hash: None,
                    credential_ids: Seq::empty(),
                    listed_at: now,
                    installed_at: None,
                },
            ),
            r matches MarketplaceEvent::PluginListed { plugin_id: p, source: s, listed_at } && p@ == plugin_id@ && s == source && listed_at == now,
    {
        let record = MarketplaceRecord {
            plugin_id: plugin_id.clone(),
            state: MarketplaceState::Listed,
            source: source.duplicate(),
            manifest_hash: None,
            credential_ids: Vec::new(),
            listed_at: now,
            installed_at: None,
        };
        let key = plugin_id.clone();
        let ghost v = record@;
        self.records.insert(key, record);
        assert(v.credential_ids =~= Seq::<String>::empty());
        assert(self.records() =~= old(self).records().insert(plugin_id@, v));
        MarketplaceEvent::PluginListed { plugin_id, source, listed_at: now }
    }

    /// Lists a plugin now.
    pub fn list_plugin(&mut self, plugin_id: String, source: DescriptorSource) -> (r: MarketplaceEvent)
        requires
            old(self).wf(),
        ensures
            final(self).wf(),
            final(self).records().contains_key(plugin_id@),
            final(self).records()[plugin_id@].state is Listed,
            r is PluginListed,
            final(self).enablements() == old(self).enablements(),
            exists|tm: u64| #[trigger] at_time(tm)
                && (final(self).records() == old(self).records().insert(
                    plugin_id@,
                    RecordView {
                        plugin_id: plugin_id@,
                        state: MarketplaceState::Listed,
                        source: source,
                        manifest_hash: None,
                        credential_ids: Seq::empty(),
                        listed_at: tm,
                        installed_at: None,
                    },
                ))
                && (r matches MarketplaceEvent::PluginListed { plugin_id: p, source: s, listed_at } && p@ == plugin_id@ && s == source && listed_at == tm),
    {
        let now = now_ms();
        let r = self.list_plugin_at(plugin_id, source, now);
        assert(at_time(now));
        r
    }

    /// The marketplace record of a plugin.
    pub fn get_record(&self, plugin_id: &str) -> (r: Option<&MarketplaceRecord>)
        requires
            self.wf(),
        ensures
            match r {
                Some(rec) => self.records().contains_key(plugin_id@) && rec@ == self.records()[plugin_id@],
                None => !self.records().contains_key(plugin_id@),
            },
    {
        let k = plugin_id.to_owned();
        self.records.get(&k)
    }

    fn enablement_index(&self, plugin_id: &String, project: &ProjectKey) -> (r: Option<usize>)
        requires
            self.wf(),
        ensures
            match r {
                Some(i) => find_enablement(self.enablements(), plugin_id@, project@) == Some(i as int)
                    && i < self.enablements@.len(),
                None => find_enablement(self.enablements(), plugin_id@, project@) is None,
            },
    {
        let mut i: usize = 0;
        while i < self.enablements.len()
            invariant
                i <= self.enablements@.len(),
                self.wf(),
                forall|j: int| 0 <= j < i ==> !(#[trigger] self.enablements@[j].plugin_id@ == plugin_id@ && self.enablements@[j].project@ == project@),
            decreases self.enablements@.len() - i,
        {
            let e = &self.enablements[i];
            if e.plugin_id == *plugin_id && e.project.same(project) {
                proof {
                    let s = self.enablements();
                    assert(s[i as int] == e@);
                    let c = choose|c: int| 0 <= c < s.len() && s[c].plugin_id == plugin_id@ && s[c].project == project@;
                    if c != i {
                        assert(enablements_unique(s));
                        assert(s[c].plugin_id == s[i as int].plugin_id);
                    }
                }
                return Some(i);
            }
            i = i + 1;
        }
        proof {
            let s = self.enablements();
            if exists|c: int| 0 <= c < s.len() && s[c].plugin_id == plugin_id@ && s[c].project == project@ {
                let c = choose|c: int| 0 <= c < s.len() && s[c].plugin_id == plugin_id@ && s[c].project == project@;
                assert(s[c] == self.enablements@[c]@);
            }
        }
        None
    }

    /// The enablement of a plugin for a project.
    pub fn get_enablement(&self, plugin_id: &str, project: &ProjectKey) -> (r: Option<&PluginEnablement>)
        requires
            self.wf(),
        ensures
            match r {
                Some(e) => find_enablement(self.enablements(), plugin_id@, project@) matches Some(i) && e@ == self.enablements()[i],
                None => find_enablement(self.enablements(), plugin_id@, project@) is None,
            },
    {
        let k = plugin_id.to_owned();
        match self.enablement_index(&k, project) {
            Some(i) => Some(&self.enablements[i]),
            None => None,
        }
    }

    /// Enabled plugins of a project, in list order.
    pub fn enablements_for_project(&self, project: &ProjectKey) -> (r: Vec<&PluginEnablement>)
        requires
            self.wf(),
        ensures
            forall|a: int| 0 <= a < r@.len() ==> (#[trigger] r@[a])@.project == project@ && r@[a]@.enabled
                && self.enablements().contains(r@[a]@),
            forall|j: int| 0 <= j < self.enablements().len() && (#[trigger] self.enablements()[j]).project == project@
                && self.enablements()[j].enabled ==> exists|a: int| 0 <= a < r@.len() && r@[a]@ == self.enablements()[j],
    {
        let mut r: Vec<&PluginEnablement> = Vec::new();
        let mut i: usize = 0;
        while i < self.enablements.len()
            invariant
                i <= self.enablements@.len(),
                forall|a: int| 0 <= a < r@.len() ==> (#[trigger] r@[a])@.project == project@ && r@[a]@.enabled
                    && enablement_views(self.enablements@).contains(r@[a]@),
                forall|j: int| 0 <= j < i && (#[trigger] self.enablements@[j])@.project == project@
                    && self.enablements@[j]@.enabled ==> exists|a: int| 0 <= a < r@.len() && r@[a]@ == self.enablements@[j]@,
            decreases self.enablements@.len() - i,
        {
            let e = &self.enablements[i];
            let ghost old_r = r@;
            if e.project.same(project) && e.enabled {
                r.push(e);
                proof {
                    assert(enablement_views(self.enablements@)[i as int] == e@);
                }
            }
            proof {
                assert forall|j: int| 0 <= j < i + 1 && (#[trigger] self.enablements@[j])@.project == project@
                    && self.enablements@[j]@.enabled implies exists|a: int| 0 <= a < r@.len() && r@[a]@ == self.enablements@[j]@ by {
                    if j < i {
                        let a = choose|a: int| 0 <= a < old_r.len() && old_r[a]@ == self.enablements@[j]@;
                        assert(r@[a] == old_r[a]);
                    } else {
                        assert(r@[r@.len() - 1] == e);
                    }
                }
            }
            i = i + 1;
        }
        proof {
            assert forall|j: int| 0 <= j < self.enablements().len() && (#[trigger] self.enablements()[j]).project == project@
                && self.enablements()[j].enabled implies exists|a: int| 0 <= a < r@.len() && r@[a]@ == self.enablements()[j] by {
                assert(self.enablements()[j] == self.enablements@[j]@);
            }
        }
        r
    }

    /// Handles a command at time `now`, returning the events it produced.
    pub fn handle_command_at(&mut self, command: MarketplaceCommand, now: u64) -> (r: Result<Vec<MarketplaceEvent>, MarketplaceError>)
        requires
            old(self).wf(),
        ensures
            final(self).wf(),
            command_ok(*old(self), *final(self), command, now, r),
    {
        match command {
            MarketplaceCommand::InstallPlugin { plugin_id, initiated_by } => self.handle_install(plugin_id, initiated_by, now),
            MarketplaceCommand::ProvidePluginCredentials { plugin_id, credentials, provided_by } => self.handle_provide_credentials(plugin_id, provided_by, now),
            MarketplaceCommand::VerifyPluginCredentials { plugin_id, credential_scope_key, verified_by } => self.handle_verify_credentials(plugin_id, credential_scope_key, verified_by, now),
            MarketplaceCommand::EnablePluginForProject { plugin_id, project, tool_allowlist, signal_allowlist, signal_capture_override, enabled_by } =>
                self.handle_enable(plugin_id, project, tool_allowlist, signal_allowlist, signal_capture_override, enabled_by, now),
            MarketplaceCommand::DisablePluginForProject { plugin_id, project, disabled_by } => self.handle_disable(plugin_id, project, disabled_by, now),
            MarketplaceCommand::UninstallPlugin { plugin_id, uninstalled_by } => self.handle_uninstall(plugin_id, uninstalled_by, now),
        }
    }

    /// Handles a command now.
    pub fn handle_command(&mut self, command: MarketplaceCommand) -> (r: Result<Vec<MarketplaceEvent>, MarketplaceError>)
        requires
            old(self).wf(),
        ensures
            final(self).wf(),
            exists|now: u64| #[trigger] command_ok(*old(self), *final(self), command, now, r),
            exists|tm: u64| #[trigger] at_time(tm)
                && (command_ok(*old(self), *final(self), command, tm, r)),
    {
        let now = now_ms();
        let r = self.handle_command_at(command, now);
        assert(at_time(now));
        r
    }

    fn handle_install(&mut self, plugin_id: String, initiated_by: String, now: u64) -> (r: Result<Vec<MarketplaceEvent>, MarketplaceError>)
        requires
            old(self).wf(),
        ensures
            final(self).wf(),
            install_ok(*old(self), *final(self), plugin_id@, initiated_by@, now, r),
    {
        let i = match self.records.index_of(&plugin_id) {
            Some(i) => i,
            None => return Err(MarketplaceError::PluginNotFound(plugin_id)),
        };
        let (_, rec) = self.records.entry_at(i);
        match &rec.state {
            MarketplaceState::Installing => {
                return Err(MarketplaceError::InvalidTransition { plugin_id, from: "Installing".to_owned(), to: "Installing".to_owned() });
            },
            MarketplaceState::Installed => {
                return Err(MarketplaceError::InvalidTransition { plugin_id, from: "Installed".to_owned(), to: "Installing".to_owned() });
            },
            _ => {},
        }
        let updated = MarketplaceRecord {
            plugin_id: rec.plugin_id.clone(),
            state: MarketplaceState::Installed,
            source: rec.source.duplicate(),
            manifest_hash: clone_opt_string(&rec.manifest_hash),
            credential_ids: clone_strings(&rec.credential_ids),
            listed_at: rec.listed_at,
            installed_at: Some(now),
        };
        assert(updated.credential_ids@ =~= rec.credential_ids@);
        let ghost uv = updated@;
        self.put_record(i, updated);
        proof {
            assert(self.records().dom() =~= old(self).records().dom());
        }
        let started = MarketplaceEvent::PluginInstallationStarted { plugin_id: plugin_id.clone(), initiated_by, started_at: now };
        let installed = MarketplaceEvent::PluginInstalled { plugin_id, manifest_hash: String::new(), at: now };
        let mut events: Vec<MarketplaceEvent> = Vec::new();
        events.push(started);
        events.push(installed);
        Ok(events)
    }

    fn handle_provide_credentials(&mut self, plugin_id: String, provided_by: String, now: u64) -> (r: Result<Vec<MarketplaceEvent>, MarketplaceError>)
        requires
            old(self).wf(),
        ensures
            final(self).wf(),
            credentials_ok(*old(self), *final(self), plugin_id@, provided_by@, now, r),
    {
        let rec = match self.records.get(&plugin_id) {
            Some(rec) => rec,
            None => return Err(MarketplaceError::PluginNotFound(plugin_id)),
        };
        match &rec.state {
            MarketplaceState::Installed => {},
            other => {
                let from = state_debug_string(other);
                return Err(MarketplaceError::InvalidTransition { plugin_id, from, to: "CredentialsProvided".to_owned() });
            },
        }
        let mut events: Vec<MarketplaceEvent> = Vec::new();
        events.push(MarketplaceEvent::PluginCredentialsProvided { plugin_id, credential_ids: Vec::new(), provided_by, at: now });
        Ok(events)
    }

    fn handle_verify_credentials(&mut self, plugin_id: String, credential_scope_key: Option<CredentialScopeKey>, verified_by: String, now: u64) -> (r: Result<Vec<MarketplaceEvent>, MarketplaceError>)
        requires
            old(self).wf(),
        ensures
            final(self).wf(),
            verify_ok(*old(self), *final(self), plugin_id@, credential_scope_key, verified_by@, now, r),
    {
        let rec = match self.records.get(&plugin_id) {
            Some(rec) => rec,
            None => return Err(MarketplaceError::PluginNotFound(plugin_id)),
        };
        match &rec.state {
            MarketplaceState::Installed => {},
            _ => return Err(MarketplaceError::PluginNotInstalled(plugin_id)),
        }
        let scope_key = match credential_scope_key {
            Some(k) => k,
            None => CredentialScopeKey("tenant-default".to_owned()),
        };
        let mut events: Vec<MarketplaceEvent> = Vec::new();
        events.push(MarketplaceEvent::PluginCredentialsVerified {
            plugin_id,
            credential_scope_key: scope_key,
            outcome: VerificationOutcome::Verified,
            verified_by,
            at: now,
        });
        Ok(events)
    }

    fn handle_enable(
        &mut self,
        plugin_id: String,
        project: ProjectKey,
        tool_allowlist: Option<Vec<String>>,
        signal_allowlist: Option<Vec<String>>,
        signal_capture_override: Option<String>,
        enabled_by: String,
        now: u64,
    ) -> (r: Result<Vec<MarketplaceEvent>, MarketplaceError>)
        requires
            old(self).wf(),
        ensures
            final(self).wf(),
            enable_ok(*old(self), *final(self), plugin_id@, project@, tool_allowlist, signal_allowlist, signal_capture_override, enabled_by@, now, r),
    {
        let rec = match self.records.get(&plugin_id) {
            Some(rec) => rec,
            None => return Err(MarketplaceError::PluginNotFound(plugin_id)),
        };
        match &rec.state {
            MarketplaceState::Installed => {},
            _ => return Err(MarketplaceError::PluginNotInstalled(plugin_id)),
        }
        let enablement = PluginEnablement {
            plugin_id: plugin_id.clone(),
            project: project.duplicate(),
            enabled: true,
            enabled_at: now,
            enabled_by: enabled_by.clone(),
            tool_allowlist: clone_opt_strings(&tool_allowlist),
            signal_allowlist: clone_opt_strings(&signal_allowlist),
            signal_capture_override: clone_opt_string(&signal_capture_override),
        };
        let ghost ov = enablement_views(self.enablements@);
        let ghost ev = enablement@;
        assert(ev == new_enablement(plugin_id@, project@, tool_allowlist, signal_allowlist, signal_capture_override, enabled_by@, now));
        match self.enablement_index(&plugin_id, &project) {
            Some(i) => {
                self.enablements.set(i, enablement);
                proof {
                    let k = find_enablement(ov, plugin_id@, project@).unwrap();
                    lemma_unique_update(ov, i as int, ev);
                    assert(enablement_views(self.enablements@) =~= ov.update(i as int, ev));
                }
            },
            None => {
                self.enablements.push(enablement);
                proof {
                    lemma_unique_push(ov, ev);
                    assert(enablement_views(self.enablements@) =~= ov.push(ev));
                }
            },
        }
        let mut events: Vec<MarketplaceEvent> = Vec::new();
        events.push(MarketplaceEvent::PluginEnabledForProject {
            plugin_id,
            project,
            enabled_by,
            tool_allowlist,
            signal_allowlist,
            signal_capture_override,
            at: now,
        });
        Ok(events)
    }

    fn handle_disable(&mut self, plugin_id: String, project: ProjectKey, disabled_by: String, now: u64) -> (r: Result<Vec<MarketplaceEvent>, MarketplaceError>)
        requires
            old(self).wf(),
        ensures
            final(self).wf(),
            disable_ok(*old(self), *final(self), plugin_id@, project@, disabled_by@, now, r),
    {
        let i = match self.enablement_index(&plugin_id, &project) {
            Some(i) => i,
            None => return Err(MarketplaceError::NotEnabledForProject { plugin_id, project }),
        };
        let ghost ov = enablement_views(self.enablements@);
        let e = &self.enablements[i];
        let updated = PluginEnablement {
            plugin_id: e.plugin_id.clone(),
            project: e.project.duplicate(),
            enabled: false,
            enabled_at: e.enabled_at,
            enabled_by: e.enabled_by.clone(),
            tool_allowlist: clone_opt_strings(&e.tool_allowlist),
            signal_allowlist: clone_opt_strings(&e.signal_allowlist),
            signal_capture_override: clone_opt_string(&e.signal_capture_override),
        };
        let ghost uv = updated@;
        assert(uv == EnablementView { enabled: false, ..ov[i as int] });
        self.enablements.set(i, updated);
        proof {
            lemma_unique_update(ov, i as int, uv);
            assert(enablement_views(self.enablements@) =~= ov.update(i as int, uv));
        }
        let mut events: Vec<MarketplaceEvent> = Vec::new();
        events.push(MarketplaceEvent::PluginDisabledForProject { plugin_id, project, disabled_by, at: now });
        Ok(events)
    }

    fn handle_uninstall(&mut self, plugin_id: String, uninstalled_by: String, now: u64) -> (r: Result<Vec<MarketplaceEvent>, MarketplaceError>)
        requires
            old(self).wf(),
        ensures
            final(self).wf(),
            uninstall_ok(*old(self), *final(self), plugin_id@, uninstalled_by@, now, r),
    {
        let i = match self.records.index_of(&plugin_id) {
            Some(i) => i,
            None => return Err(MarketplaceError::PluginNotFound(plugin_id)),
        };
        let (_, rec) = self.records.entry_at(i);
        match &rec.state {
            MarketplaceState::Listed => {
                return Err(MarketplaceError::InvalidTransition { plugin_id, from: "Listed".to_owned(), to: "Uninstalled".to_owned() });
            },
            _ => {},
        }
        let credentials_revoked = clone_strings(&rec.credential_ids);
        assert(credentials_revoked@ =~= rec.credential_ids@);
        let updated = MarketplaceRecord {
            plugin_id: rec.plugin_id.clone(),
            state: MarketplaceState::Uninstalled,
            source: rec.source.duplicate(),
            manifest_hash: clone_opt_string(&rec.manifest_hash),
            credential_ids: clone_strings(&rec.credential_ids),
            listed_at: rec.listed_at,
            installed_at: rec.installed_at,
        };
        assert(updated.credential_ids@ =~= rec.credential_ids@);
        self.put_record(i, updated);
        // Drop every enablement of the plugin, in every project.
        proof {
            assert(self.records().dom() =~= old(self).records().dom());
        }
        let ghost o_en = enablement_views(self.enablements@);
        let mut old_list: Vec<PluginEnablement> = Vec::new();
        std::mem::swap(&mut old_list, &mut self.enablements);
        let mut kept: Vec<PluginEnablement> = Vec::new();
        let ghost mut j: int = 0;
        while old_list.len() > 0
            invariant
                0 <= j <= o_en.len(),
                old_list@.len() == o_en.len() - j,
                enablement_views(old_list@) == o_en.skip(j),
                enablement_views(kept@) == drop_plugin(o_en.take(j), plugin_id@),
            decreases old_list@.len(),
        {
            let ghost before_old = old_list@;
            let ghost before_kept = kept@;
            let e = old_list.remove(0);
            proof {
                assert(enablement_views(before_old)[0] == e@);
                assert(o_en.skip(j)[0] == o_en[j]);
                assert forall|k: int| 0 <= k < old_list@.len() implies enablement_views(old_list@)[k] == o_en.skip(j + 1)[k] by {
                    assert(old_list@[k] == before_old[k + 1]);
                    assert(enablement_views(before_old)[k + 1] == o_en.skip(j)[k + 1]);
                }
                assert(enablement_views(old_list@) =~= o_en.skip(j + 1));
                assert(o_en.take(j + 1).drop_last() =~= o_en.take(j));
                assert(o_en.take(j + 1).last() == e@);
            }
            if e.plugin_id != plugin_id {
                kept.push(e);
                proof {
                    assert(enablement_views(kept@) =~= enablement_views(before_kept).push(kept@.last()@));
                }
            }
            proof {
                j = j + 1;
            }
        }
        proof {
            assert(o_en.skip(j).len() == 0);
            assert(o_en.take(j) =~= o_en);
            lemma_drop_plugin(o_en, plugin_id@);
        }
        self.enablements = kept;
        let mut events: Vec<MarketplaceEvent> = Vec::new();
        events.push(MarketplaceEvent::PluginUninstalled { plugin_id, uninstalled_by, credentials_revoked, at: now });
        Ok(events)
    }
}

} // verus!
