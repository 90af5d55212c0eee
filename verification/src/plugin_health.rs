//! Per-plugin heartbeat tracking.
//!
//! Each plugin is expected to send periodic heartbeats. A plugin whose last
//! heartbeat is older than the monitor's timeout (30 seconds by default) is
//! unhealthy; a plugin that was never seen is unhealthy as well.
use vstd::prelude::*;
use crate::alist::{alist_map, find_key, has_key, keys_unique, lemma_alist_absent, lemma_alist_get, lemma_alist_len, lemma_alist_push, lemma_alist_remove, lemma_alist_update};
use crate::clock::{at_time, now_ms};
use crate::text::{clone_opt_string, opt_str_view, string_views};

verus! {

/// Default heartbeat timeout: 30 seconds.
pub const HEARTBEAT_TIMEOUT_MS: u64 = 30_000;

/// Per-plugin health snapshot.
#[derive(Debug)]
pub struct PluginHealthState {
    pub last_heartbeat_ms: u64,
    pub consecutive_missed: u32,
    pub last_error: Option<String>,
}

/// Mathematical reading of a [`PluginHealthState`].
pub struct PluginHealthView {
    pub last_heartbeat_ms: u64,
    pub consecutive_missed: u32,
    pub last_error: Option<Seq<char>>,
}

impl View for PluginHealthState {
    type V = PluginHealthView;

    open spec fn view(&self) -> PluginHealthView {
        PluginHealthView {
            last_heartbeat_ms: self.last_heartbeat_ms,
            consecutive_missed: self.consecutive_missed,
            last_error: opt_str_view(self.last_error),
        }
    }
}

impl PluginHealthState {
    /// A field-by-field copy.
    pub fn duplicate(&self) -> (r: Self)
        ensures
            r@ == self@,
    {
        PluginHealthState {
            last_heartbeat_ms: self.last_heartbeat_ms,
            consecutive_missed: self.consecutive_missed,
            last_error: clone_opt_string(&self.last_error),
        }
    }
}

/// Milliseconds elapsed since `last`, zero when `now` is earlier.
pub open spec fn elapsed(now: u64, last: u64) -> int {
    if now >= last {
        now - last
    } else {
        0
    }
}

/// A call that changes which plugins a monitor tracks (queries change
/// nothing).
pub enum HealthCall {
    Heartbeat(Seq<char>),
    Missed(Seq<char>),
    Error(Seq<char>),
    Remove(Seq<char>),
}

/// The plugins tracked after a call: a heartbeat or an error tracks its
/// plugin, a removal stops tracking it, a missed heartbeat changes nothing.
pub open spec fn step_tracked(d: Set<Seq<char>>, c: HealthCall) -> Set<Seq<char>> {
    match c {
        HealthCall::Heartbeat(id) => d.insert(id),
        HealthCall::Error(id) => d.insert(id),
        HealthCall::Remove(id) => d.remove(id),
        HealthCall::Missed(_) => d,
    }
}

/// The plugins tracked after a sequence of calls on a new monitor.
pub open spec fn tracked_after(calls: Seq<HealthCall>) -> Set<Seq<char>>
    decreases calls.len(),
{
    if calls.len() == 0 {
        Set::empty()
    } else {
        step_tracked(tracked_after(calls.drop_last()), calls.last())
    }
}

/// Whether call `i` tracks plugin `id`.
pub open spec fn tracks(calls: Seq<HealthCall>, i: int, id: Seq<char>) -> bool {
    calls[i] == HealthCall::Heartbeat(id) || calls[i] == HealthCall::Error(id)
}

/// The plugins with a heartbeat or an error recorded after their last
/// removal (if any).
pub open spec fn tracked_ids(calls: Seq<HealthCall>) -> Set<Seq<char>> {
    Set::new(
        |id: Seq<char>|
            exists|i: int|
                0 <= i < calls.len() && #[trigger] tracks(calls, i, id) && forall|j: int|
                    i < j < calls.len() ==> calls[j] != HealthCall::Remove(id),
    )
}

/// What a monitor tracks after a sequence of calls: exactly the plugins
/// with a heartbeat or an error recorded after their last removal; so its
/// tracked count is the number of such plugins.
pub proof fn law_tracked_count(calls: Seq<HealthCall>)
    ensures
        tracked_after(calls) == tracked_ids(calls),
        tracked_after(calls).finite(),
    decreases calls.len(),
{
    if calls.len() == 0 {
        assert(tracked_ids(calls) =~= Set::<Seq<char>>::empty());
    } else {
        let p = calls.drop_last();
        let n = calls.len() - 1;
        law_tracked_count(p);
        assert forall|id: Seq<char>| tracked_after(calls).contains(id) == tracked_ids(calls).contains(id) by {
            let before = tracked_ids(p).contains(id);
            let c = calls.last();
            if tracked_ids(calls).contains(id) {
                let i = choose|i: int|
                    0 <= i < calls.len() && #[trigger] tracks(calls, i, id) && forall|j: int|
                        i < j < calls.len() ==> calls[j] != HealthCall::Remove(id);
                if i < n {
                    assert(tracks(p, i, id));
                    assert forall|j: int| i < j < p.len() implies p[j] != HealthCall::Remove(id) by {
                        assert(p[j] == calls[j]);
                    }
                    assert(tracked_ids(p).contains(id));
                }
                assert(c != HealthCall::Remove(id));
            } else {
                if c == HealthCall::Heartbeat(id) || c == HealthCall::Error(id) {
                    assert(tracks(calls, n, id));
                }
                if tracked_ids(p).contains(id) && c != HealthCall::Remove(id) {
                    let i = choose|i: int|
                        0 <= i < p.len() && #[trigger] tracks(p, i, id) && forall|j: int| i < j < p.len() ==> p[j] != HealthCall::Remove(id);
                    assert(tracks(calls, i, id));
                    assert forall|j: int| i < j < calls.len() implies calls[j] != HealthCall::Remove(id) by {
                        if j < n {
                            assert(p[j] == calls[j]);
                        }
                    }
                }
            }
        }
        assert(tracked_after(calls) =~= tracked_ids(calls));
    }
}

/// In-memory heartbeat tracker, keyed by plugin ID.
pub struct PluginHealthMonitor {
    timeout_ms: u64,
    entries: Vec<(String, PluginHealthState)>,
}

pub open spec fn health_entries(s: Seq<(String, PluginHealthState)>) -> Seq<(Seq<char>, PluginHealthView)> {
    s.map_values(|e: (String, PluginHealthState)| (e.0@, e.1@))
}

impl View for PluginHealthMonitor {
    type V = Map<Seq<char>, PluginHealthView>;

    closed spec fn view(&self) -> Map<Seq<char>, PluginHealthView> {
        alist_map(health_entries(self.entries@))
    }
}

impl PluginHealthMonitor {
    /// The monitor's internal consistency: each plugin is tracked once.
    pub closed spec fn wf(&self) -> bool {
        keys_unique(health_entries(self.entries@))
    }

    /// The heartbeat timeout in milliseconds.
    pub closed spec fn timeout(&self) -> u64 {
        self.timeout_ms
    }

    /// Whether `plugin` is healthy at time `now`.
    pub open spec fn healthy_at(&self, plugin: Seq<char>, now: u64) -> bool {
        self@.contains_key(plugin) && elapsed(now, self@[plugin].last_heartbeat_ms)
            < self.timeout()
    }

    /// A monitor with the default 30 s timeout and no plugins.
    pub fn new() -> (r: Self)
        ensures
            r.wf(),
            r@ == Map::<Seq<char>, PluginHealthView>::empty(),
            r.timeout() == HEARTBEAT_TIMEOUT_MS,
    {
        Self::with_timeout_ms(HEARTBEAT_TIMEOUT_MS)
    }

    /// A monitor with a custom timeout and no plugins.
    pub fn with_timeout_ms(timeout_ms: u64) -> (r: Self)
        ensures
            r.wf(),
            r@ == Map::<Seq<char>, PluginHealthView>::empty(),
            r.timeout() == timeout_ms,
    {
        let r = PluginHealthMonitor { timeout_ms, entries: Vec::new() };
        assert(r@ =~= Map::<Seq<char>, PluginHealthView>::empty());
        r
    }

    proof fn lemma_index(&self, i: int)
        requires
            self.wf(),
            0 <= i < self.entries@.len(),
        ensures
            self@.contains_key(self.entries@[i].0@),
            self@[self.entries@[i].0@] == self.entries@[i].1@,
    {
        lemma_alist_get(health_entries(self.entries@), i);
    }

    fn locate(&self, plugin_id: &String) -> (r: Option<usize>)
        requires
            self.wf(),
        ensures
            match r {
                Some(i) => i < self.entries@.len() && self.entries@[i as int].0@ == plugin_id@
                    && self@.contains_key(plugin_id@) && self@[plugin_id@]
                    == self.entries@[i as int].1@,
                None => !self@.contains_key(plugin_id@),
            },
    {
        let r = find_key(&self.entries, plugin_id);
        proof {
            match r {
                Some(i) => self.lemma_index(i as int),
                None => {
                    let s = health_entries(self.entries@);
                    assert forall|j: int| 0 <= j < s.len() implies #[trigger] s[j].0 != plugin_id@ by {
                        assert(s[j].0 == self.entries@[j].0@);
                    }
                    lemma_alist_absent(s, plugin_id@);
                },
            }
        }
        r
    }

    fn set_entry(&mut self, i: usize, st: PluginHealthState)
        requires
            old(self).wf(),
            i < old(self).entries@.len(),
        ensures
            final(self).wf(),
            final(self).timeout() == old(self).timeout(),
            final(self).entries@.len() == old(self).entries@.len(),
            final(self)@ == old(self)@.insert(old(self).entries@[i as int].0@, st@),
    {
        let ghost s = health_entries(self.entries@);
        let ghost k = self.entries@[i as int].0@;
        let mut pair = (String::new(), PluginHealthState { last_heartbeat_ms: 0, consecutive_missed: 0, last_error: None });
        std::mem::swap(&mut pair, &mut self.entries[i]);
        let key = pair.0;
        self.entries.set(i, (key, st));
        proof {
            lemma_alist_update(s, i as int, st@);
            assert(health_entries(self.entries@) =~= s.update(i as int, (k, st@)));
        }
    }

    fn add_entry(&mut self, key: String, st: PluginHealthState)
        requires
            old(self).wf(),
            !old(self)@.contains_key(key@),
        ensures
            final(self).wf(),
            final(self).timeout() == old(self).timeout(),
            final(self)@ == old(self)@.insert(key@, st@),
    {
        let ghost s = health_entries(self.entries@);
        let ghost k = key@;
        let ghost v = st@;
        proof {
            if has_key(s, k) {
                let j = choose|j: int| 0 <= j < s.len() && s[j].0 == k;
                lemma_alist_get(s, j);
            }
        }
        self.entries.push((key, st));
        proof {
            lemma_alist_push(s, k, v);
            assert(health_entries(self.entries@) =~= s.push((k, v)));
        }
    }

    /// Records a heartbeat received at time `now`: the plugin becomes tracked,
    /// its heartbeat time is `now` and its missed counter is reset; a known
    /// last error is kept.
    pub fn record_heartbeat_at(&mut self, plugin_id: &str, now: u64)
        requires
            old(self).wf(),
        ensures
            final(self).wf(),
            final(self)@.dom() == step_tracked(old(self)@.dom(), HealthCall::Heartbeat(plugin_id@)),
            final(self).timeout() == old(self).timeout(),
            final(self)@ == old(self)@.insert(
                plugin_id@,
                PluginHealthView {
                    last_heartbeat_ms: now,
                    consecutive_missed: 0,
                    last_error: if old(self)@.contains_key(plugin_id@) {
                        old(self)@[plugin_id@].last_error
                    } else {
                        None
                    },
                },
            ),
    {
        let key = plugin_id.to_owned();
        match self.locate(&key) {
            Some(i) => {
                let st = PluginHealthState {
                    last_heartbeat_ms: now,
                    consecutive_missed: 0,
                    last_error: clone_opt_string(&self.entries[i].1.last_error),
                };
                self.set_entry(i, st);
            },
            None => {
                let st = PluginHealthState { last_heartbeat_ms: now, consecutive_missed: 0, last_error: None };
                self.add_entry(key, st);
            },
        }
    }

    /// Records a heartbeat received now.
    pub fn record_heartbeat(&mut self, plugin_id: &str)
        requires
            old(self).wf(),
        ensures
            final(self).wf(),
            final(self).timeout() == old(self).timeout(),
            final(self)@.dom() == old(self)@.dom().insert(plugin_id@),
            final(self)@.dom() == step_tracked(old(self)@.dom(), HealthCall::Heartbeat(plugin_id@)),
            final(self)@[plugin_id@].consecutive_missed == 0,
            forall|k: Seq<char>| k != plugin_id@ && #[trigger] old(self)@.contains_key(k) ==> final(self)@[k] == old(self)@[k],
            exists|tm: u64| #[trigger] at_time(tm) && final(self)@ == old(self)@.insert(
                plugin_id@,
                PluginHealthView {
                    last_heartbeat_ms: tm,
                    consecutive_missed: 0,
                    last_error: if old(self)@.contains_key(plugin_id@) {
                        old(self)@[plugin_id@].last_error
                    } else {
                        None
                    },
                },
            ),
    {
        let now = now_ms();
        self.record_heartbeat_at(plugin_id, now);
        assert(at_time(now));
    }

    /// Counts one missed heartbeat for a tracked plugin; an unknown plugin
    /// is left untracked.
    pub fn record_missed(&mut self, plugin_id: &str)
        requires
            old(self).wf(),
            old(self)@.contains_key(plugin_id@) ==> old(self)@[plugin_id@].consecutive_missed
                < u32::MAX,
        ensures
            final(self).wf(),
            final(self)@.dom() == step_tracked(old(self)@.dom(), HealthCall::Missed(plugin_id@)),
            final(self).timeout() == old(self).timeout(),
            final(self)@ == if old(self)@.contains_key(plugin_id@) {
                old(self)@.insert(
                    plugin_id@,
                    PluginHealthView {
                        consecutive_missed: (old(self)@[plugin_id@].consecutive_missed + 1) as u32,
                        ..old(self)@[plugin_id@]
                    },
                )
            } else {
                old(self)@
            },
    {
        let key = plugin_id.to_owned();
        match self.locate(&key) {
            Some(i) => {
                let old_st = &self.entries[i].1;
                let st = PluginHealthState {
                    last_heartbeat_ms: old_st.last_heartbeat_ms,
                    consecutive_missed: old_st.consecutive_missed + 1,
                    last_error: clone_opt_string(&old_st.last_error),
                };
                self.set_entry(i, st);
            },
            None => {},
        }
    }

    /// Stores the last error of a plugin, tracking it (with heartbeat time
    /// zero) if it was unknown.
    pub fn record_error(&mut self, plugin_id: &str, error: String)
        requires
            old(self).wf(),
        ensures
            final(self).wf(),
            final(self)@.dom() == step_tracked(old(self)@.dom(), HealthCall::Error(plugin_id@)),
            final(self).timeout() == old(self).timeout(),
            final(self)@ == old(self)@.insert(
                plugin_id@,
                if old(self)@.contains_key(plugin_id@) {
                    PluginHealthView { last_error: Some(error@), ..old(self)@[plugin_id@] }
                } else {
                    PluginHealthView {
                        last_heartbeat_ms: 0,
                        consecutive_missed: 0,
                        last_error: Some(error@),
                    }
                },
            ),
    {
        let key = plugin_id.to_owned();
        match self.locate(&key) {
            Some(i) => {
                let old_st = &self.entries[i].1;
                let st = PluginHealthState {
                    last_heartbeat_ms: old_st.last_heartbeat_ms,
                    consecutive_missed: old_st.consecutive_missed,
                    last_error: Some(error),
                };
                self.set_entry(i, st);
            },
            None => {
                let st = PluginHealthState {
                    last_heartbeat_ms: 0,
                    consecutive_missed: 0,
                    last_error: Some(error),
                };
                self.add_entry(key, st);
            },
        }
    }

    /// Whether the plugin's last heartbeat is within the timeout at `now`;
    /// an unknown plugin is unhealthy.
    pub fn is_healthy_at(&self, plugin_id: &str, now: u64) -> (r: bool)
        requires
            self.wf(),
        ensures
            r == self.healthy_at(plugin_id@, now),
    {
        let key = plugin_id.to_owned();
        match self.locate(&key) {
            None => false,
            Some(i) => {
                let last = self.entries[i].1.last_heartbeat_ms;
                let el = if now >= last {
                    now - last
                } else {
                    0
                };
                el < self.timeout_ms
            },
        }
    }

    /// Whether the plugin is healthy now.
    pub fn is_healthy(&self, plugin_id: &str) -> (r: bool)
        requires
            self.wf(),
        ensures
            !self@.contains_key(plugin_id@) ==> !r,
            r ==> exists|now: u64| self.healthy_at(plugin_id@, now),
            exists|tm: u64| #[trigger] at_time(tm)
                && (r == self.healthy_at(plugin_id@, tm)),
    {
        let now = now_ms();
        let r = self.is_healthy_at(plugin_id, now);
        assert(at_time(now));
        r
    }

    /// IDs of the tracked plugins whose last heartbeat is at least the
    /// timeout old at `now`, each once.
    pub fn unhealthy_plugins_at(&self, now: u64) -> (r: Vec<String>)
        requires
            self.wf(),
        ensures
            string_views(r@).no_duplicates(),
            forall|k: Seq<char>|
                #[trigger] string_views(r@).contains(k) <==> (self@.contains_key(k) && !self.healthy_at(k, now)),
    {
        let mut r: Vec<String> = Vec::new();
        let mut i: usize = 0;
        while i < self.entries.len()
            invariant
                self.wf(),
                i <= self.entries@.len(),
                forall|a: int| 0 <= a < r@.len() ==> exists|j: int| 0 <= j < i && #[trigger] r@[a]@ == self.entries@[j].0@,
                forall|a: int, b: int| 0 <= a < b < r@.len() ==> #[trigger] r@[a]@ != #[trigger] r@[b]@,
                forall|a: int| 0 <= a < r@.len() ==> !self.healthy_at(#[trigger] r@[a]@, now),
                forall|j: int| 0 <= j < i && !self.healthy_at(#[trigger] self.entries@[j].0@, now) ==> exists|a: int| 0 <= a < r@.len() && r@[a]@ == self.entries@[j].0@,
            decreases self.entries@.len() - i,
        {
            proof {
                self.lemma_index(i as int);
            }
            let ghost old_r = r@;
            let last = self.entries[i].1.last_heartbeat_ms;
            let el = if now >= last {
                now - last
            } else {
                0
            };
            if el >= self.timeout_ms {
                proof {
                    assert forall|a: int| 0 <= a < r@.len() implies #[trigger] r@[a]@ != self.entries@[i as int].0@ by {
                        let j = choose|j: int| 0 <= j < i && r@[a]@ == self.entries@[j].0@;
                        let s = health_entries(self.entries@);
                        assert(s[j].0 == self.entries@[j].0@);
                        assert(s[i as int].0 == self.entries@[i as int].0@);
                    }
                }
                r.push(self.entries[i].0.clone());
                proof {
                    let n = r@.len() - 1;
                    assert(r@[n]@ == self.entries@[i as int].0@);
                }
            }
            proof {
                assert forall|j: int| 0 <= j < i + 1 && !self.healthy_at(#[trigger] self.entries@[j].0@, now) implies exists|a: int| 0 <= a < r@.len() && r@[a]@ == self.entries@[j].0@ by {
                    if j == i {
                        let n = r@.len() - 1;
                        assert(r@[n]@ == self.entries@[j].0@);
                    } else {
                        let a = choose|a: int| 0 <= a < old_r.len() && old_r[a]@ == self.entries@[j].0@;
                        assert(r@[a] == old_r[a]);
                    }
                }
            }
            i = i + 1;
        }
        proof {
            let rv = string_views(r@);
            assert forall|a: int, b: int| 0 <= a < rv.len() && 0 <= b < rv.len() && a != b implies rv[a] != rv[b] by {
                if a < b {
                    assert(r@[a]@ != r@[b]@);
                } else {
                    assert(r@[b]@ != r@[a]@);
                }
            }
            assert forall|k: Seq<char>| rv.contains(k) <==> (self@.contains_key(k) && !self.healthy_at(k, now)) by {
                if rv.contains(k) {
                    let a = choose|a: int| 0 <= a < rv.len() && rv[a] == k;
                    assert(r@[a]@ == k);
                    let j = choose|j: int| 0 <= j < self.entries@.len() && #[trigger] r@[a]@ == self.entries@[j].0@;
                    self.lemma_index(j);
                }
                if self@.contains_key(k) && !self.healthy_at(k, now) {
                    let s = health_entries(self.entries@);
                    let j = choose|j: int| 0 <= j < s.len() && #[trigger] s[j].0 == k;
                    assert(s[j].0 == self.entries@[j].0@);
                    assert(!self.healthy_at(self.entries@[j].0@, now));
                    let a = choose|a: int| 0 <= a < r@.len() && r@[a]@ == self.entries@[j].0@;
                    assert(rv[a] == k);
                }
            }
        }
        r
    }

    /// IDs of the plugins that are unhealthy now.
    pub fn unhealthy_plugins(&self) -> (r: Vec<String>)
        requires
            self.wf(),
        ensures
            string_views(r@).no_duplicates(),
            forall|k: Seq<char>| #[trigger] string_views(r@).contains(k) ==> self@.contains_key(k),
            exists|tm: u64| #[trigger] at_time(tm)
                && (forall|k: Seq<char>|
                    #[trigger] string_views(r@).contains(k) <==> (self@.contains_key(k) && !self.healthy_at(k, tm))),
    {
        let now = now_ms();
        let r = self.unhealthy_plugins_at(now);
        assert(at_time(now));
        r
    }

    /// Snapshot of a plugin's state.
    pub fn get(&self, plugin_id: &str) -> (r: Option<PluginHealthState>)
        requires
            self.wf(),
        ensures
            match r {
                Some(st) => self@.contains_key(plugin_id@) && st@ == self@[plugin_id@],
                None => !self@.contains_key(plugin_id@),
            },
    {
        let key = plugin_id.to_owned();
        match self.locate(&key) {
            Some(i) => Some(self.entries[i].1.duplicate()),
            None => None,
        }
    }

    /// Stops tracking a plugin.
    pub fn remove(&mut self, plugin_id: &str)
        requires
            old(self).wf(),
        ensures
            final(self).wf(),
            final(self).timeout() == old(self).timeout(),
            final(self)@ == old(self)@.remove(plugin_id@),
            final(self)@.dom() == step_tracked(old(self)@.dom(), HealthCall::Remove(plugin_id@)),
    {
        let key = plugin_id.to_owned();
        match self.locate(&key) {
            Some(i) => {
                let ghost s = health_entries(self.entries@);
                self.entries.remove(i);
                proof {
                    lemma_alist_remove(s, i as int);
                    assert(health_entries(self.entries@) =~= s.remove(i as int));
                }
            },
            None => {
                assert(self@ =~= self@.remove(plugin_id@));
            },
        }
    }

    /// Number of tracked plugins.
    pub fn tracked_count(&self) -> (r: usize)
        requires
            self.wf(),
        ensures
            r == self@.len(),
            r == self@.dom().len(),
    {
        proof {
            lemma_alist_len(health_entries(self.entries@));
        }
        self.entries.len()
    }
}

/// When a plugin counts as healthy: it is tracked and less than the timeout
/// has passed since its last heartbeat (no time when the clock reads before
/// it); an untracked plugin is not healthy, and one whose heartbeat is at
/// least the timeout old is not either.
pub proof fn law_healthy_within_timeout(m: PluginHealthMonitor, plugin: Seq<char>, now: u64)
    ensures
        !m@.contains_key(plugin) ==> !m.healthy_at(plugin, now),
        m@.contains_key(plugin) && now >= m@[plugin].last_heartbeat_ms ==> (m.healthy_at(plugin, now) == (now
            - m@[plugin].last_heartbeat_ms < m.timeout())),
        m@.contains_key(plugin) && now < m@[plugin].last_heartbeat_ms ==> (m.healthy_at(plugin, now) == (0 < m.timeout())),
{
}

} // verus!
