//! Prompt release pipeline: version diffing, gradual rollout, A/B routing,
//! an approval gate before full release, and rollback.
//!
//! Every operation is stated over [`RolloutMap`], the map from release ID
//! to rollout state; the `*_at` forms take the current time explicitly.
use vstd::prelude::*;
use crate::alist::{alist_map, find_key, has_key, keys_unique, lemma_alist_absent, lemma_alist_get, lemma_alist_push, lemma_alist_update};
use crate::clock::{at_time, now_ms};
use crate::diff::{diff_versions as diff_contents, text_diff, count_kind, diff_views, DiffKind, VersionDiff};
use crate::text::{clone_opt_string, opt_str_view};
use crate::text::{lines, string_views};

verus! {

/// Rollout lifecycle state.
#[derive(Clone, Copy, Debug, PartialEq, Eq, Structural)]
pub enum RolloutStatus {
    /// Gradual rollout in progress at some percent.
    Active,
    /// Rolled out to 100% (fully live).
    Complete,
    /// Rolled back to 0%.
    RolledBack,
    /// Awaiting approval before going to 100%.
    PendingApproval,
}

/// Per-release rollout metadata.
#[derive(Debug)]
pub struct RolloutState {
    pub release_id: String,
    pub percent: u8,
    pub status: RolloutStatus,
    /// The stable release that serves the remaining traffic.
    pub stable_release_id: Option<String>,
    /// Approval ID if approval was requested.
    pub approval_id: Option<String>,
    pub updated_at_ms: u64,
}

/// Mathematical reading of a [`RolloutState`].
pub struct RolloutView {
    pub release_id: Seq<char>,
    pub percent: u8,
    pub status: RolloutStatus,
    pub stable_release_id: Option<Seq<char>>,
    pub approval_id: Option<Seq<char>>,
    pub updated_at_ms: u64,
}

impl View for RolloutState {
    type V = RolloutView;

    open spec fn view(&self) -> RolloutView {
        RolloutView {
            release_id: self.release_id@,
            percent: self.percent,
            status: self.status,
            stable_release_id: opt_str_view(self.stable_release_id),
            approval_id: opt_str_view(self.approval_id),
            updated_at_ms: self.updated_at_ms,
        }
    }
}

impl RolloutState {
    /// A field-by-field copy.
    pub fn duplicate(&self) -> (r: Self)
        ensures
            r@ == self@,
    {
        RolloutState {
            release_id: self.release_id.clone(),
            percent: self.percent,
            status: self.status,
            stable_release_id: clone_opt_string(&self.stable_release_id),
            approval_id: clone_opt_string(&self.approval_id),
            updated_at_ms: self.updated_at_ms,
        }
    }
}

/// Outcome of an A/B routing decision.
#[derive(Debug)]
pub enum RoutingDecision {
    /// Serve the new (candidate) release.
    Candidate { release_id: String },
    /// Serve the stable (current) release.
    Stable { release_id: String },
    /// No rollout active for this release; use default resolution.
    NoRollout,
}

/// Mathematical reading of a [`RoutingDecision`].
pub enum RoutingView {
    Candidate(Seq<char>),
    Stable(Seq<char>),
    NoRollout,
}

impl View for RoutingDecision {
    type V = RoutingView;

    open spec fn view(&self) -> RoutingView {
        match self {
            RoutingDecision::Candidate { release_id } => RoutingView::Candidate(release_id@),
            RoutingDecision::Stable { release_id } => RoutingView::Stable(release_id@),
            RoutingDecision::NoRollout => RoutingView::NoRollout,
        }
    }
}

/// Rollout states by release ID.
pub type RolloutMap = Map<Seq<char>, RolloutView>;

/// `percent` capped at 100.
pub open spec fn cap(percent: u8) -> u8 {
    if percent <= 100 {
        percent
    } else {
        100
    }
}

/// The status a rollout at `percent` takes: complete at 100, active below.
pub open spec fn status_for(percent: u8) -> RolloutStatus {
    if percent >= 100 {
        RolloutStatus::Complete
    } else {
        RolloutStatus::Active
    }
}

/// A state's percent agrees with its status: at most 100; a complete
/// rollout is at 100, an active one below 100, a rolled-back one at 0.
pub open spec fn consistent(v: RolloutView) -> bool {
    &&& v.percent <= 100
    &&& v.status == RolloutStatus::Complete ==> v.percent == 100
    &&& v.status == RolloutStatus::Active ==> v.percent < 100
    &&& v.status == RolloutStatus::RolledBack ==> v.percent == 0
}

/// Every state of the map is consistent and filed under its own release ID.
pub open spec fn map_consistent(m: RolloutMap) -> bool {
    forall|k: Seq<char>| #[trigger] m.contains_key(k) ==> consistent(m[k]) && m[k].release_id == k
}

/// The state a new rollout starts in.
pub open spec fn started(release_id: Seq<char>, percent: u8, stable: Option<Seq<char>>, now: u64) -> RolloutView {
    RolloutView {
        release_id,
        percent: cap(percent),
        status: status_for(cap(percent)),
        stable_release_id: stable,
        approval_id: None,
        updated_at_ms: now,
    }
}

/// Effect of changing the percent of a rollout: refused when missing or
/// rolled back.
pub open spec fn updated(m: RolloutMap, id: Seq<char>, percent: u8, now: u64) -> Option<RolloutView> {
    if !m.contains_key(id) || m[id].status == RolloutStatus::RolledBack {
        None
    } else {
        Some(RolloutView { percent: cap(percent), status: status_for(cap(percent)), updated_at_ms: now, ..m[id] })
    }
}

/// Effect of requesting approval for full release: refused when missing.
pub open spec fn requested(m: RolloutMap, id: Seq<char>, approval: Seq<char>, now: u64) -> Option<RolloutView> {
    if !m.contains_key(id) {
        None
    } else {
        Some(RolloutView {
            status: RolloutStatus::PendingApproval,
            approval_id: Some(approval),
            updated_at_ms: now,
            ..m[id]
        })
    }
}

/// Effect of approving full release: only a rollout pending approval is
/// promoted, to 100% and complete.
pub open spec fn approved(m: RolloutMap, id: Seq<char>, now: u64) -> Option<RolloutView> {
    if !m.contains_key(id) || m[id].status != RolloutStatus::PendingApproval {
        None
    } else {
        Some(RolloutView { percent: 100, status: RolloutStatus::Complete, updated_at_ms: now, ..m[id] })
    }
}

/// Effect of rolling back: 0% and rolled back; refused when missing.
pub open spec fn rolled_back(m: RolloutMap, id: Seq<char>, now: u64) -> Option<RolloutView> {
    if !m.contains_key(id) {
        None
    } else {
        Some(RolloutView { percent: 0, status: RolloutStatus::RolledBack, updated_at_ms: now, ..m[id] })
    }
}

/// The map after an operation with result `r` on release `id`.
pub open spec fn apply(m: RolloutMap, id: Seq<char>, r: Option<RolloutView>) -> RolloutMap {
    match r {
        Some(v) => m.insert(id, v),
        None => m,
    }
}

/// The stable release, or no rollout when there is none.
pub open spec fn stable_or_none(v: RolloutView) -> RoutingView {
    match v.stable_release_id {
        Some(s) => RoutingView::Stable(s),
        None => RoutingView::NoRollout,
    }
}

/// Routing of one request for release `id`, given a draw in ten-thousandths
/// (`draw / 10000` uniform in [0, 1)): a rolled-back release serves the
/// stable one, a complete one the candidate, and otherwise the candidate
/// serves the draws below `percent`%.
pub open spec fn routed(m: RolloutMap, id: Seq<char>, draw: u32) -> RoutingView {
    if !m.contains_key(id) {
        RoutingView::NoRollout
    } else {
        let v = m[id];
        match v.status {
            RolloutStatus::RolledBack => stable_or_none(v),
            RolloutStatus::Complete => RoutingView::Candidate(id),
            _ => if draw < v.percent * 100 {
                RoutingView::Candidate(id)
            } else {
                stable_or_none(v)
            },
        }
    }
}

/// Whether a rollout counts as active (in progress or awaiting approval).
pub open spec fn is_active(v: RolloutView) -> bool {
    v.status == RolloutStatus::Active || v.status == RolloutStatus::PendingApproval
}

/// In-memory rollout state manager.
pub struct PromptReleasePipeline {
    rollouts: Vec<(String, RolloutState)>,
    version_content: Vec<(String, String)>,
}

pub open spec fn rollout_entries(s: Seq<(String, RolloutState)>) -> Seq<(Seq<char>, RolloutView)> {
    s.map_values(|e: (String, RolloutState)| (e.0@, e.1@))
}

pub open spec fn content_entries(s: Seq<(String, String)>) -> Seq<(Seq<char>, Seq<char>)> {
    s.map_values(|e: (String, String)| (e.0@, e.1@))
}

impl PromptReleasePipeline {
    /// Rollout states by release ID.
    pub closed spec fn rollouts(&self) -> RolloutMap {
        alist_map(rollout_entries(self.rollouts@))
    }

    /// Stored version contents by version ID.
    pub closed spec fn contents(&self) -> Map<Seq<char>, Seq<char>> {
        alist_map(content_entries(self.version_content@))
    }

    pub closed spec fn wf(&self) -> bool {
        &&& keys_unique(rollout_entries(self.rollouts@))
        &&& keys_unique(content_entries(self.version_content@))
        &&& map_consistent(self.rollouts())
    }

    /// An empty pipeline.
    pub fn new() -> (r: Self)
        ensures
            r.wf(),
            r.rollouts() == RolloutMap::empty(),
            r.contents() == Map::<Seq<char>, Seq<char>>::empty(),
    {
        let r = PromptReleasePipeline { rollouts: Vec::new(), version_content: Vec::new() };
        assert(r.rollouts() =~= RolloutMap::empty());
        assert(r.contents() =~= Map::<Seq<char>, Seq<char>>::empty());
        r
    }

    /// Stores a version's template content (needed for diffing).
    pub fn store_version_content(&mut self, version_id: &str, content: String)
        requires
            old(self).wf(),
        ensures
            final(self).wf(),
            final(self).rollouts() == old(self).rollouts(),
            final(self).contents() == old(self).contents().insert(version_id@, content@),
    {
        let key = version_id.to_owned();
        let ghost s = content_entries(self.version_content@);
        let ghost v = content@;
        match find_key(&self.version_content, &key) {
            Some(i) => {
                self.version_content.set(i, (key, content));
                proof {
                    lemma_alist_update(s, i as int, v);
                    assert(content_entries(self.version_content@) =~= s.update(i as int, (s[i as int].0, v)));
                }
            },
            None => {
                proof {
                    if has_key(s, key@) {
                        let j = choose|j: int| 0 <= j < s.len() && s[j].0 == key@;
                        assert(s[j].0 == self.version_content@[j].0@);
                    }
                }
                let ghost k = key@;
                self.version_content.push((key, content));
                proof {
                    lemma_alist_push(s, k, v);
                    assert(content_entries(self.version_content@) =~= s.push((k, v)));
                }
            },
        }
    }

    fn content_index(&self, version_id: &String) -> (r: Option<usize>)
        requires
            self.wf(),
        ensures
            match r {
                Some(i) => i < self.version_content@.len() && self.contents().contains_key(version_id@)
                    && self.contents()[version_id@] == self.version_content@[i as int].1@,
                None => !self.contents().contains_key(version_id@),
            },
    {
        let r = find_key(&self.version_content, version_id);
        proof {
            let s = content_entries(self.version_content@);
            match r {
                Some(i) => lemma_alist_get(s, i as int),
                None => {
                    assert forall|j: int| 0 <= j < s.len() implies #[trigger] s[j].0 != version_id@ by {
                        assert(s[j].0 == self.version_content@[j].0@);
                    }
                    lemma_alist_absent(s, version_id@);
                },
            }
        }
        r
    }

    /// Stored content of a version.
    pub fn get_version_content(&self, version_id: &str) -> (r: Option<String>)
        requires
            self.wf(),
        ensures
            match r {
                Some(c) => self.contents().contains_key(version_id@) && c@ == self.contents()[version_id@],
                None => !self.contents().contains_key(version_id@),
            },
    {
        let key = version_id.to_owned();
        match self.content_index(&key) {
            Some(i) => Some(self.version_content[i].1.clone()),
            None => None,
        }
    }

    /// Diff of two stored versions; `None` unless both are stored.
    pub fn diff_versions(&self, old_version_id: &str, new_version_id: &str) -> (r: Option<VersionDiff>)
        requires
            self.wf(),
            self.contents().contains_key(old_version_id@) ==> lines(self.contents()[old_version_id@]).len() < usize::MAX,
            self.contents().contains_key(new_version_id@) ==> lines(self.contents()[new_version_id@]).len() < usize::MAX,
        ensures
            match r {
                Some(d) => {
                    &&& self.contents().contains_key(old_version_id@)
                    &&& self.contents().contains_key(new_version_id@)
                    &&& d.old_version_id@ == old_version_id@
                    &&& d.new_version_id@ == new_version_id@
                    &&& diff_views(d.lines@) == text_diff(self.contents()[old_version_id@], self.contents()[new_version_id@])
                    &&& d.additions == count_kind(diff_views(d.lines@), DiffKind::Added)
                    &&& d.deletions == count_kind(diff_views(d.lines@), DiffKind::Removed)
                },
                None => !self.contents().contains_key(old_version_id@) || !self.contents().contains_key(new_version_id@),
            },
    {
        let ok = old_version_id.to_owned();
        let nk = new_version_id.to_owned();
        let oi = match self.content_index(&ok) {
            Some(i) => i,
            None => return None,
        };
        let ni = match self.content_index(&nk) {
            Some(i) => i,
            None => return None,
        };
        Some(diff_contents(old_version_id, self.version_content[oi].1.as_str(), new_version_id, self.version_content[ni].1.as_str()))
    }

    fn rollout_index(&self, release_id: &String) -> (r: Option<usize>)
        requires
            self.wf(),
        ensures
            match r {
                Some(i) => i < self.rollouts@.len() && self.rollouts@[i as int].0@ == release_id@
                    && self.rollouts().contains_key(release_id@)
                    && self.rollouts()[release_id@] == self.rollouts@[i as int].1@,
                None => !self.rollouts().contains_key(release_id@),
            },
    {
        let r = find_key(&self.rollouts, release_id);
        proof {
            let s = rollout_entries(self.rollouts@);
            match r {
                Some(i) => lemma_alist_get(s, i as int),
                None => {
                    assert forall|j: int| 0 <= j < s.len() implies #[trigger] s[j].0 != release_id@ by {
                        assert(s[j].0 == self.rollouts@[j].0@);
                    }
                    lemma_alist_absent(s, release_id@);
                },
            }
        }
        r
    }

    fn put_rollout(&mut self, key: String, st: RolloutState)
        requires
            old(self).wf(),
            consistent(st@),
            st@.release_id == key@,
        ensures
            final(self).wf(),
            final(self).contents() == old(self).contents(),
            final(self).rollouts() == old(self).rollouts().insert(key@, st@),
    {
        let ghost s = rollout_entries(self.rollouts@);
        let ghost k = key@;
        let ghost v = st@;
        match self.rollout_index(&key) {
            Some(i) => {
                self.rollouts.set(i, (key, st));
                proof {
                    lemma_alist_update(s, i as int, v);
                    assert(rollout_entries(self.rollouts@) =~= s.update(i as int, (s[i as int].0, v)));
                }
            },
            None => {
                proof {
                    if has_key(s, k) {
                        let j = choose|j: int| 0 <= j < s.len() && s[j].0 == k;
                        lemma_alist_get(s, j);
                    }
                }
                self.rollouts.push((key, st));
                proof {
                    lemma_alist_push(s, k, v);
                    assert(rollout_entries(self.rollouts@) =~= s.push((k, v)));
                }
            },
        }
        proof {
            let m = self.rollouts();
            assert forall|q: Seq<char>| #[trigger] m.contains_key(q) implies consistent(m[q]) && m[q].release_id == q by {
                if q != k {
                    assert(old(self).rollouts().contains_key(q));
                }
            }
        }
    }

    /// Starts a gradual rollout at `percent` (capped at 100) at time `now`,
    /// replacing any earlier state of the release.
    pub fn start_rollout_at(&mut self, release_id: &str, percent: u8, stable_release_id: Option<String>, now: u64) -> (r: RolloutState)
        requires
            old(self).wf(),
        ensures
            final(self).wf(),
            final(self).contents() == old(self).contents(),
            r@ == started(release_id@, percent, opt_str_view(stable_release_id), now),
            final(self).rollouts() == old(self).rollouts().insert(release_id@, r@),
    {
        let p = if percent <= 100 {
            percent
        } else {
            100
        };
        let state = RolloutState {
            release_id: release_id.to_owned(),
            percent: p,
            status: if p >= 100 {
                RolloutStatus::Complete
            } else {
                RolloutStatus::Active
            },
            stable_release_id,
            approval_id: None,
            updated_at_ms: now,
        };
        let copy = state.duplicate();
        self.put_rollout(release_id.to_owned(), copy);
        state
    }

    /// Starts a gradual rollout now.
    pub fn start_rollout(&mut self, release_id: &str, percent: u8, stable_release_id: Option<String>) -> (r: RolloutState)
        requires
            old(self).wf(),
        ensures
            final(self).wf(),
            r@.release_id == release_id@,
            r@.percent == cap(percent),
            r@.status == status_for(cap(percent)),
            r@.stable_release_id == opt_str_view(stable_release_id),
            r@.approval_id == None::<Seq<char>>,
            final(self).rollouts() == old(self).rollouts().insert(release_id@, r@),
            final(self).contents() == old(self).contents(),
            exists|tm: u64| #[trigger] at_time(tm)
                && (r@ == started(release_id@, percent, opt_str_view(stable_release_id), tm)),
    {
        let now = now_ms();
        let r = self.start_rollout_at(release_id, percent, stable_release_id, now);
        assert(at_time(now));
        r
    }

    /// Applies a change computed from the stored state, returning the new state.
    fn change(&mut self, i: usize, new_state: RolloutState) -> (r: RolloutState)
        requires
            old(self).wf(),
            i < old(self).rollouts@.len(),
            consistent(new_state@),
            new_state@.release_id == old(self).rollouts@[i as int].0@,
        ensures
            final(self).wf(),
            final(self).contents() == old(self).contents(),
            r@ == new_state@,
            final(self).rollouts() == old(self).rollouts().insert(old(self).rollouts@[i as int].0@, new_state@),
    {
        let key = self.rollouts[i].0.clone();
        let copy = new_state.duplicate();
        self.put_rollout(key, copy);
        new_state
    }

    /// Sets the percent of a rollout (capped at 100) at time `now`; refused
    /// (`None`) for an unknown or rolled-back release.
    pub fn update_rollout_percent_at(&mut self, release_id: &str, percent: u8, now: u64) -> (r: Option<RolloutState>)
        requires
            old(self).wf(),
        ensures
            final(self).wf(),
            final(self).contents() == old(self).contents(),
            opt_rollout_view(r) == updated(old(self).rollouts(), release_id@, percent, now),
            final(self).rollouts() == apply(old(self).rollouts(), release_id@, opt_rollout_view(r)),
    {
        let key = release_id.to_owned();
        let i = match self.rollout_index(&key) {
            Some(i) => i,
            None => return None,
        };
        proof {
            self.lemma_consistent_at(i as int);
        }
        if self.rollouts[i].1.status == RolloutStatus::RolledBack {
            return None;
        }
        let p = if percent <= 100 {
            percent
        } else {
            100
        };
        let cur = &self.rollouts[i].1;
        let st = RolloutState {
            release_id: cur.release_id.clone(),
            percent: p,
            status: if p >= 100 {
                RolloutStatus::Complete
            } else {
                RolloutStatus::Active
            },
            stable_release_id: clone_opt_string(&cur.stable_release_id),
            approval_id: clone_opt_string(&cur.approval_id),
            updated_at_ms: now,
        };
        Some(self.change(i, st))
    }

    /// Sets the percent of a rollout now.
    pub fn update_rollout_percent(&mut self, release_id: &str, percent: u8) -> (r: Option<RolloutState>)
        requires
            old(self).wf(),
        ensures
            final(self).wf(),
            r is None <==> updated(old(self).rollouts(), release_id@, percent, 0) is None,
            match r {
                Some(st) => st@.percent == cap(percent) && st@.status == status_for(cap(percent))
                    && final(self).rollouts() == old(self).rollouts().insert(release_id@, st@),
                None => final(self).rollouts() == old(self).rollouts(),
            },
            final(self).contents() == old(self).contents(),
            exists|t: u64| opt_rollout_view(r) == updated(old(self).rollouts(), release_id@, percent, t) && final(self).rollouts() == apply(old(self).rollouts(), release_id@, opt_rollout_view(r)),
    {
        let now = now_ms();
        let r = self.update_rollout_percent_at(release_id, percent, now);
        assert(opt_rollout_view(r) == updated(old(self).rollouts(), release_id@, percent, now));
        r
    }

    proof fn lemma_consistent_at(&self, i: int)
        requires
            self.wf(),
            0 <= i < self.rollouts@.len(),
        ensures
            self.rollouts().contains_key(self.rollouts@[i].0@),
            self.rollouts()[self.rollouts@[i].0@] == self.rollouts@[i].1@,
            consistent(self.rollouts@[i].1@),
            self.rollouts@[i].1@.release_id == self.rollouts@[i].0@,
    {
        lemma_alist_get(rollout_entries(self.rollouts@), i);
    }

    /// Routing of one request, given a draw in ten-thousandths
    /// (`draw / 10000` uniform in [0, 1)).
    pub fn resolve_with_rollout(&self, release_id: &str, draw: u32) -> (r: RoutingDecision)
        requires
            self.wf(),
        ensures
            r@ == routed(self.rollouts(), release_id@, draw),
    {
        let key = release_id.to_owned();
        let i = match self.rollout_index(&key) {
            Some(i) => i,
            None => return RoutingDecision::NoRollout,
        };
        let st = &self.rollouts[i].1;
        match st.status {
            RolloutStatus::RolledBack => match &st.stable_release_id {
                Some(id) => RoutingDecision::Stable { release_id: id.clone() },
                None => RoutingDecision::NoRollout,
            },
            RolloutStatus::Complete => RoutingDecision::Candidate { release_id: key },
            _ => {
                if (draw as u64) < (st.percent as u64) * 100 {
                    RoutingDecision::Candidate { release_id: key }
                } else {
                    match &st.stable_release_id {
                        Some(id) => RoutingDecision::Stable { release_id: id.clone() },
                        None => RoutingDecision::NoRollout,
                    }
                }
            },
        }
    }

    /// Puts a rollout under an approval gate at time `now`; the percent is kept.
    pub fn request_full_release_at(&mut self, release_id: &str, approval_id: String, now: u64) -> (r: Option<RolloutState>)
        requires
            old(self).wf(),
        ensures
            final(self).wf(),
            final(self).contents() == old(self).contents(),
            opt_rollout_view(r) == requested(old(self).rollouts(), release_id@, approval_id@, now),
            final(self).rollouts() == apply(old(self).rollouts(), release_id@, opt_rollout_view(r)),
    {
        let key = release_id.to_owned();
        let i = match self.rollout_index(&key) {
            Some(i) => i,
            None => return None,
        };
        proof {
            self.lemma_consistent_at(i as int);
        }
        let cur = &self.rollouts[i].1;
        let st = RolloutState {
            release_id: cur.release_id.clone(),
            percent: cur.percent,
            status: RolloutStatus::PendingApproval,
            stable_release_id: clone_opt_string(&cur.stable_release_id),
            approval_id: Some(approval_id),
            updated_at_ms: now,
        };
        Some(self.change(i, st))
    }

    /// Puts a rollout under an approval gate now.
    pub fn request_full_release(&mut self, release_id: &str, approval_id: String) -> (r: Option<RolloutState>)
        requires
            old(self).wf(),
        ensures
            final(self).wf(),
            r is None <==> !old(self).rollouts().contains_key(release_id@),
            match r {
                Some(st) => st@.status == RolloutStatus::PendingApproval && st@.approval_id == Some(approval_id@)
                    && st@.percent == old(self).rollouts()[release_id@].percent
                    && final(self).rollouts() == old(self).rollouts().insert(release_id@, st@),
                None => final(self).rollouts() == old(self).rollouts(),
            },
            final(self).contents() == old(self).contents(),
            exists|t: u64| opt_rollout_view(r) == requested(old(self).rollouts(), release_id@, approval_id@, t) && final(self).rollouts() == apply(old(self).rollouts(), release_id@, opt_rollout_view(r)),
    {
        let now = now_ms();
        let ghost aid = approval_id@;
        let r = self.request_full_release_at(release_id, approval_id, now);
        assert(opt_rollout_view(r) == requested(old(self).rollouts(), release_id@, aid, now));
        r
    }

    /// Promotes a rollout awaiting approval to 100% at time `now`; any
    /// other state is refused.
    pub fn approve_full_release_at(&mut self, release_id: &str, now: u64) -> (r: Option<RolloutState>)
        requires
            old(self).wf(),
        ensures
            final(self).wf(),
            final(self).contents() == old(self).contents(),
            opt_rollout_view(r) == approved(old(self).rollouts(), release_id@, now),
            final(self).rollouts() == apply(old(self).rollouts(), release_id@, opt_rollout_view(r)),
    {
        let key = release_id.to_owned();
        let i = match self.rollout_index(&key) {
            Some(i) => i,
            None => return None,
        };
        proof {
            self.lemma_consistent_at(i as int);
        }
        if self.rollouts[i].1.status != RolloutStatus::PendingApproval {
            return None;
        }
        let cur = &self.rollouts[i].1;
        let st = RolloutState {
            release_id: cur.release_id.clone(),
            percent: 100,
            status: RolloutStatus::Complete,
            stable_release_id: clone_opt_string(&cur.stable_release_id),
            approval_id: clone_opt_string(&cur.approval_id),
            updated_at_ms: now,
        };
        Some(self.change(i, st))
    }

    /// Promotes a rollout awaiting approval now.
    pub fn approve_full_release(&mut self, release_id: &str) -> (r: Option<RolloutState>)
        requires
            old(self).wf(),
        ensures
            final(self).wf(),
            r is None <==> approved(old(self).rollouts(), release_id@, 0) is None,
            match r {
                Some(st) => st@.percent == 100 && st@.status == RolloutStatus::Complete
                    && final(self).rollouts() == old(self).rollouts().insert(release_id@, st@),
                None => final(self).rollouts() == old(self).rollouts(),
            },
            final(self).contents() == old(self).contents(),
            exists|t: u64| opt_rollout_view(r) == approved(old(self).rollouts(), release_id@, t) && final(self).rollouts() == apply(old(self).rollouts(), release_id@, opt_rollout_view(r)),
    {
        let now = now_ms();
        let r = self.approve_full_release_at(release_id, now);
        assert(opt_rollout_view(r) == approved(old(self).rollouts(), release_id@, now));
        r
    }

    /// Rolls a release back to 0% at time `now`.
    pub fn rollback_at(&mut self, release_id: &str, now: u64) -> (r: Option<RolloutState>)
        requires
            old(self).wf(),
        ensures
            final(self).wf(),
            final(self).contents() == old(self).contents(),
            opt_rollout_view(r) == rolled_back(old(self).rollouts(), release_id@, now),
            final(self).rollouts() == apply(old(self).rollouts(), release_id@, opt_rollout_view(r)),
    {
        let key = release_id.to_owned();
        let i = match self.rollout_index(&key) {
            Some(i) => i,
            None => return None,
        };
        proof {
            self.lemma_consistent_at(i as int);
        }
        let cur = &self.rollouts[i].1;
        let st = RolloutState {
            release_id: cur.release_id.clone(),
            percent: 0,
            status: RolloutStatus::RolledBack,
            stable_release_id: clone_opt_string(&cur.stable_release_id),
            approval_id: clone_opt_string(&cur.approval_id),
            updated_at_ms: now,
        };
        Some(self.change(i, st))
    }

    /// Rolls a release back now.
    pub fn rollback(&mut self, release_id: &str) -> (r: Option<RolloutState>)
        requires
            old(self).wf(),
        ensures
            final(self).wf(),
            r is None <==> !old(self).rollouts().contains_key(release_id@),
            match r {
                Some(st) => st@.percent == 0 && st@.status == RolloutStatus::RolledBack
                    && final(self).rollouts() == old(self).rollouts().insert(release_id@, st@),
                None => final(self).rollouts() == old(self).rollouts(),
            },
            final(self).contents() == old(self).contents(),
            exists|t: u64| opt_rollout_view(r) == rolled_back(old(self).rollouts(), release_id@, t) && final(self).rollouts() == apply(old(self).rollouts(), release_id@, opt_rollout_view(r)),
    {
        let now = now_ms();
        let r = self.rollback_at(release_id, now);
        assert(opt_rollout_view(r) == rolled_back(old(self).rollouts(), release_id@, now));
        r
    }

    /// Current rollout state of a release.
    pub fn get_rollout_state(&self, release_id: &str) -> (r: Option<RolloutState>)
        requires
            self.wf(),
        ensures
            opt_rollout_view(r) == if self.rollouts().contains_key(release_id@) {
                Some(self.rollouts()[release_id@])
            } else {
                None
            },
    {
        let key = release_id.to_owned();
        match self.rollout_index(&key) {
            Some(i) => Some(self.rollouts[i].1.duplicate()),
            None => None,
        }
    }

    /// All rollouts in progress or awaiting approval, each once.
    pub fn active_rollouts(&self) -> (r: Vec<RolloutState>)
        requires
            self.wf(),
        ensures
            forall|a: int, b: int| 0 <= a < b < r@.len() ==> #[trigger] r@[a]@.release_id != #[trigger] r@[b]@.release_id,
            forall|a: int| 0 <= a < r@.len() ==> {
                let v = #[trigger] r@[a]@;
                self.rollouts().contains_key(v.release_id) && self.rollouts()[v.release_id] == v && is_active(v)
            },
            forall|k: Seq<char>| #[trigger] self.rollouts().contains_key(k) && is_active(self.rollouts()[k])
                ==> exists|a: int| 0 <= a < r@.len() && r@[a]@.release_id == k,
    {
        let mut r: Vec<RolloutState> = Vec::new();
        let ghost mut idx: Seq<int> = Seq::empty();
        let mut i: usize = 0;
        while i < self.rollouts.len()
            invariant
                self.wf(),
                i <= self.rollouts@.len(),
                r@.len() == idx.len(),
                forall|a: int| 0 <= a < idx.len() ==> 0 <= #[trigger] idx[a] < i,
                forall|a: int| 0 <= a < idx.len() ==> #[trigger] r@[a]@ == self.rollouts@[idx[a]].1@,
                forall|a: int| 0 <= a < idx.len() ==> is_active(self.rollouts@[#[trigger] idx[a]].1@),
                forall|a: int, b: int| 0 <= a < b < idx.len() ==> #[trigger] idx[a] < #[trigger] idx[b],
                forall|j: int| 0 <= j < i && is_active(#[trigger] self.rollouts@[j].1@) ==> exists|a: int| 0 <= a < idx.len() && idx[a] == j,
            decreases self.rollouts@.len() - i,
        {
            let ghost old_idx = idx;
            let st = &self.rollouts[i].1;
            if st.status == RolloutStatus::Active || st.status == RolloutStatus::PendingApproval {
                r.push(st.duplicate());
                proof {
                    idx = idx.push(i as int);
                }
            }
            proof {
                assert forall|j: int| 0 <= j < i + 1 && is_active(#[trigger] self.rollouts@[j].1@) implies exists|a: int| 0 <= a < idx.len() && idx[a] == j by {
                    if j < i {
                        let a = choose|a: int| 0 <= a < old_idx.len() && old_idx[a] == j;
                        assert(idx[a] == old_idx[a]);
                    } else {
                        assert(idx[idx.len() - 1] == j);
                    }
                }
            }
            i = i + 1;
        }
        proof {
            assert forall|a: int, b: int| 0 <= a < b < r@.len() implies #[trigger] r@[a]@.release_id != #[trigger] r@[b]@.release_id by {
                let ja = idx[a];
                let jb = idx[b];
                self.lemma_consistent_at(ja);
                self.lemma_consistent_at(jb);
                let s = rollout_entries(self.rollouts@);
                assert(s[ja].0 == self.rollouts@[ja].0@);
                assert(s[jb].0 == self.rollouts@[jb].0@);
            }
            assert forall|a: int| 0 <= a < r@.len() implies {
                let v = #[trigger] r@[a]@;
                self.rollouts().contains_key(v.release_id) && self.rollouts()[v.release_id] == v && is_active(v)
            } by {
                self.lemma_consistent_at(idx[a]);
            }
            assert forall|k: Seq<char>| #[trigger] self.rollouts().contains_key(k) && is_active(self.rollouts()[k]) implies exists|a: int| 0 <= a < r@.len() && r@[a]@.release_id == k by {
                let s = rollout_entries(self.rollouts@);
                let j = choose|j: int| 0 <= j < s.len() && s[j].0 == k;
                assert(s[j].0 == self.rollouts@[j].0@);
                self.lemma_consistent_at(j);
                let a = choose|a: int| 0 <= a < idx.len() && idx[a] == j;
                assert(r@[a]@ == self.rollouts@[j].1@);
            }
        }
        r
    }

}

pub open spec fn opt_rollout_view(o: Option<RolloutState>) -> Option<RolloutView> {
    match o {
        Some(s) => Some(s@),
        None => None,
    }
}

/// A rolled-back release refuses any later change of percent.
pub proof fn law_rolled_back_cannot_update(m: RolloutMap, id: Seq<char>, now: u64, percent: u8, later: u64)
    requires
        m.contains_key(id),
    ensures
        updated(apply(m, id, rolled_back(m, id, now)), id, percent, later) is None,
{
}

/// Approval promotes only a rollout that awaits approval; once requested,
/// approval always completes it at 100%.
pub proof fn law_approval_gate(m: RolloutMap, id: Seq<char>, approval: Seq<char>, t1: u64, t2: u64)
    requires
        m.contains_key(id),
    ensures
        (m[id].status != RolloutStatus::PendingApproval) ==> approved(m, id, t2) is None,
        ({
            let m2 = apply(m, id, requested(m, id, approval, t1));
            &&& approved(m2, id, t2) is Some
            &&& approved(m2, id, t2).unwrap().percent == 100
            &&& approved(m2, id, t2).unwrap().status == RolloutStatus::Complete
        }),
{
}

/// Every operation keeps each stored state consistent (percent at most 100
/// and agreeing with the status).
pub proof fn law_operations_keep_consistency(m: RolloutMap, id: Seq<char>, percent: u8, approval: Seq<char>, stable: Option<Seq<char>>, now: u64)
    requires
        map_consistent(m),
    ensures
        map_consistent(m.insert(id, started(id, percent, stable, now))),
        map_consistent(apply(m, id, updated(m, id, percent, now))),
        map_consistent(apply(m, id, requested(m, id, approval, now))),
        map_consistent(apply(m, id, approved(m, id, now))),
        map_consistent(apply(m, id, rolled_back(m, id, now))),
{
    assert forall|k: Seq<char>| #[trigger] m.insert(id, started(id, percent, stable, now)).contains_key(k) implies consistent(m.insert(id, started(id, percent, stable, now))[k]) && m.insert(id, started(id, percent, stable, now))[k].release_id == k by {
        if k != id {
            assert(m.contains_key(k));
        }
    }
    let m1 = apply(m, id, updated(m, id, percent, now));
    assert forall|k: Seq<char>| #[trigger] m1.contains_key(k) implies consistent(m1[k]) && m1[k].release_id == k by {
        if k != id || updated(m, id, percent, now) is None {
            assert(m.contains_key(k));
        }
    }
    let m2 = apply(m, id, requested(m, id, approval, now));
    assert forall|k: Seq<char>| #[trigger] m2.contains_key(k) implies consistent(m2[k]) && m2[k].release_id == k by {
        assert(m.contains_key(k));
    }
    let m3 = apply(m, id, approved(m, id, now));
    assert forall|k: Seq<char>| #[trigger] m3.contains_key(k) implies consistent(m3[k]) && m3[k].release_id == k by {
        assert(m.contains_key(k));
    }
    let m4 = apply(m, id, rolled_back(m, id, now));
    assert forall|k: Seq<char>| #[trigger] m4.contains_key(k) implies consistent(m4[k]) && m4[k].release_id == k by {
        assert(m.contains_key(k));
    }
}

/// Routing extremes: a complete rollout always serves the candidate; a
/// rolled-back one never does; an active rollout at 0% never does.
pub proof fn law_routing_extremes(m: RolloutMap, id: Seq<char>, draw: u32)
    requires
        map_consistent(m),
        m.contains_key(id),
    ensures
        m[id].status == RolloutStatus::Complete ==> routed(m, id, draw) == RoutingView::Candidate(id),
        m[id].status == RolloutStatus::RolledBack ==> !(routed(m, id, draw) is Candidate),
        m[id].percent == 0 ==> !(routed(m, id, draw) is Candidate) || m[id].status == RolloutStatus::Complete,
        m[id].percent == 100 && draw < 10000 ==> routed(m, id, draw) is Candidate || m[id].status == RolloutStatus::RolledBack,
{
}

/// The rollouts after a sequence of rollout operations, each given by the
/// release it was called on and what it returned: a returned state is
/// stored, no state leaves the rollouts as they were.
pub open spec fn rollouts_after(m: RolloutMap, ops: Seq<(Seq<char>, Option<RolloutView>)>) -> RolloutMap
    decreases ops.len(),
{
    if ops.len() == 0 {
        m
    } else {
        apply(rollouts_after(m, ops.drop_last()), ops.last().0, ops.last().1)
    }
}

/// The state the last operation on `id` that returned one gave, or, when
/// none did, the state `m` held for `id`.
pub open spec fn last_rollout(m: RolloutMap, ops: Seq<(Seq<char>, Option<RolloutView>)>, id: Seq<char>) -> Option<RolloutView>
    decreases ops.len(),
{
    if ops.len() == 0 {
        if m.contains_key(id) {
            Some(m[id])
        } else {
            None
        }
    } else if ops.last().0 == id && ops.last().1 is Some {
        ops.last().1
    } else {
        last_rollout(m, ops.drop_last(), id)
    }
}

/// After any sequence of rollout operations, the rollout state of a release
/// is the one the last operation on it that returned a state gave; one
/// never rolled out has none.
pub proof fn law_rollout_state_is_last_returned(m: RolloutMap, ops: Seq<(Seq<char>, Option<RolloutView>)>, id: Seq<char>)
    ensures
        (if rollouts_after(m, ops).contains_key(id) {
            Some(rollouts_after(m, ops)[id])
        } else {
            None
        }) == last_rollout(m, ops, id),
    decreases ops.len(),
{
    if ops.len() > 0 {
        law_rollout_state_is_last_returned(m, ops.drop_last(), id);
    }
}

/// The stored contents after a sequence of stores, each a version id and
/// its content.
pub open spec fn contents_after(m: Map<Seq<char>, Seq<char>>, stores: Seq<(Seq<char>, Seq<char>)>) -> Map<Seq<char>, Seq<char>>
    decreases stores.len(),
{
    if stores.len() == 0 {
        m
    } else {
        contents_after(m, stores.drop_last()).insert(stores.last().0, stores.last().1)
    }
}

/// The content the last store under `id` gave, or what `m` held.
pub open spec fn last_content(m: Map<Seq<char>, Seq<char>>, stores: Seq<(Seq<char>, Seq<char>)>, id: Seq<char>) -> Option<Seq<char>>
    decreases stores.len(),
{
    if stores.len() == 0 {
        if m.contains_key(id) {
            Some(m[id])
        } else {
            None
        }
    } else if stores.last().0 == id {
        Some(stores.last().1)
    } else {
        last_content(m, stores.drop_last(), id)
    }
}

/// After any sequence of stores, the content of a version is the one its
/// last store gave; stores under other ids do not change it, and a version
/// never stored has none.
pub proof fn law_version_content_is_last_stored(m: Map<Seq<char>, Seq<char>>, stores: Seq<(Seq<char>, Seq<char>)>, id: Seq<char>)
    ensures
        (if contents_after(m, stores).contains_key(id) {
            Some(contents_after(m, stores)[id])
        } else {
            None
        }) == last_content(m, stores, id),
    decreases stores.len(),
{
    if stores.len() > 0 {
        law_version_content_is_last_stored(m, stores.drop_last(), id);
    }
}

/// Changing a rollout's percent is refused only for a release that has no
/// rollout or whose rollout was rolled back, whatever the current percent;
/// otherwise the rollout takes the requested percent (at most 100), is
/// complete at 100 and active below, keeps its release, stable release and
/// approval, and is stamped with the time of the change.
pub proof fn law_update_percent_refused_only_when_missing_or_rolled_back(m: RolloutMap, id: Seq<char>, percent: u8, now: u64)
    ensures
        updated(m, id, percent, now) is Some <==> (m.contains_key(id) && m[id].status != RolloutStatus::RolledBack),
        updated(m, id, percent, now) matches Some(v) ==> {
            &&& v.percent == if percent > 100 { 100 } else { percent }
            &&& v.status == if v.percent == 100 { RolloutStatus::Complete } else { RolloutStatus::Active }
            &&& v.release_id == m[id].release_id
            &&& v.stable_release_id == m[id].stable_release_id
            &&& v.approval_id == m[id].approval_id
            &&& v.updated_at_ms == now
        },
{
}

/// The other rollout operations: a new rollout starts at the requested
/// percent (at most 100) with no approval; asking for full release is
/// refused only without a rollout and leaves the rollout pending approval
/// under that approval; approving is refused unless the rollout is pending
/// approval and makes it complete at 100%; rolling back is refused only
/// without a rollout and puts it at 0%, rolled back, keeping its stable
/// release.
pub proof fn law_rollout_operations(m: RolloutMap, id: Seq<char>, percent: u8, stable: Option<Seq<char>>, approval: Seq<char>, now: u64)
    ensures
        started(id, percent, stable, now).percent == (if percent > 100 { 100 } else { percent }),
        started(id, percent, stable, now).stable_release_id == stable,
        started(id, percent, stable, now).approval_id is None,
        requested(m, id, approval, now) is Some <==> m.contains_key(id),
        requested(m, id, approval, now) matches Some(v) ==> v.status == RolloutStatus::PendingApproval && v.approval_id
            == Some(approval) && v.percent == m[id].percent && v.stable_release_id == m[id].stable_release_id,
        approved(m, id, now) is Some <==> (m.contains_key(id) && m[id].status == RolloutStatus::PendingApproval),
        approved(m, id, now) matches Some(v) ==> v.percent == 100 && v.status == RolloutStatus::Complete && v.stable_release_id
            == m[id].stable_release_id && v.approval_id == m[id].approval_id,
        rolled_back(m, id, now) is Some <==> m.contains_key(id),
        rolled_back(m, id, now) matches Some(v) ==> v.percent == 0 && v.status == RolloutStatus::RolledBack && v.stable_release_id
            == m[id].stable_release_id && v.release_id == m[id].release_id,
{
}

/// Routing under a rollout: with no rollout there is none; a rolled-back
/// rollout serves its stable release (or none); a complete one serves the
/// candidate; one in progress serves the candidate exactly when the draw (in
/// ten-thousandths) falls below its percent.
pub proof fn law_routing(m: RolloutMap, id: Seq<char>, draw: u32)
    ensures
        !m.contains_key(id) ==> routed(m, id, draw) == RoutingView::NoRollout,
        m.contains_key(id) && m[id].status == RolloutStatus::RolledBack ==> routed(m, id, draw) == match m[id].stable_release_id {
            Some(s) => RoutingView::Stable(s),
            None => RoutingView::NoRollout,
        },
        m.contains_key(id) && m[id].status == RolloutStatus::Complete ==> routed(m, id, draw) == RoutingView::Candidate(id),
        m.contains_key(id) && is_active(m[id]) ==> (routed(m, id, draw) == RoutingView::Candidate(id) <==> draw < m[id].percent * 100),
{
}

} // verus!
