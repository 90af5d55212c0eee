//! In-memory per-provider health statistics for routing.
//!
//! Tracks success and failure counts, a ring of recent latencies for
//! percentiles, consecutive failures and the last error of each provider
//! connection, so that routing can avoid unhealthy providers.
use vstd::prelude::*;
use vstd::seq_lib::to_multiset_update;
use crate::alist::{alist_map, find_key, has_key, keys_unique, lemma_alist_absent, lemma_alist_get, lemma_alist_push, lemma_alist_update};
use crate::clock::now_ms;
use crate::text::{clone_opt_string, opt_str_view};

verus! {

/// Maximum latency samples kept per provider for percentile calculations.
pub const LATENCY_RING_SIZE: usize = 100;

/// Whether `s` is in non-decreasing order.
pub open spec fn sorted_u64(s: Seq<u64>) -> bool {
    forall|i: int, j: int| 0 <= i <= j < s.len() ==> s[i] <= s[j]
}

/// Sorts `v` in place (insertion sort).
pub fn sort_u64(v: &mut Vec<u64>)
    ensures
        final(v)@.to_multiset() == old(v)@.to_multiset(),
        final(v)@.len() == old(v)@.len(),
        sorted_u64(final(v)@),
{
    broadcast use to_multiset_update;

    let n = v.len();
    let mut i: usize = 1;
    if n == 0 {
        return;
    }
    while i < n
        invariant
            1 <= i <= n,
            n == v@.len(),
            v@.to_multiset() == old(v)@.to_multiset(),
            forall|a: int, b: int| 0 <= a <= b < i ==> v@[a] <= v@[b],
        decreases n - i,
    {
        let mut j: usize = i;
        while j > 0 && v[j - 1] > v[j]
            invariant
                0 <= j <= i < n,
                n == v@.len(),
                v@.to_multiset() == old(v)@.to_multiset(),
                forall|a: int, b: int| 0 <= a <= b <= i && b != j && a != j ==> v@[a] <= v@[b],
                forall|a: int, b: int| 0 <= a < j && j < b <= i ==> v@[a] <= v@[b],
                forall|b: int| j < b <= i ==> v@[j as int] <= v@[b],
            decreases j,
        {
            let a = v[j - 1];
            let b = v[j];
            let ghost before = v@;
            v.set(j - 1, b);
            v.set(j, a);
            proof {
                let s1 = before.update(j - 1, b);
                assert(v@ == s1.update(j as int, a));
                assert(s1[j as int] == b);
                to_multiset_update(before, j - 1, b);
                to_multiset_update(s1, j as int, a);
                vstd::seq_lib::to_multiset_contains(before, a);
                vstd::seq_lib::to_multiset_contains(before, b);
                assert(before.contains(a)) by {
                    assert(before[j - 1] == a);
                }
                assert(before.contains(b)) by {
                    assert(before[j as int] == b);
                }
                let m = before.to_multiset();
                assert(m.insert(b).remove(a).insert(a).remove(b) =~= m);
            }
            j = j - 1;
        }
        i = i + 1;
    }
}

/// Index of the `p`-th percentile among `n` sorted samples:
/// `round(p / 100 * (n - 1))`, capped at the last index.
pub open spec fn percentile_index(p: u8, n: nat) -> int {
    let raw = (2 * p * (n - 1) + 100) / 200;
    if raw < n - 1 {
        raw
    } else {
        n - 1
    }
}

/// The `p`-th percentile of `samples`: the element at the percentile index
/// of their sorted order; zero without samples.
pub open spec fn percentile_of(samples: Seq<u64>, p: u8, r: u64) -> bool {
    if samples.len() == 0 {
        r == 0
    } else {
        exists|t: Seq<u64>|
            t.to_multiset() == samples.to_multiset() && t.len() == samples.len() && sorted_u64(t) && r
                == t[percentile_index(p, samples.len())]
    }
}

/// Per-provider health statistics.
pub struct ProviderHealthStats {
    pub success_count: u64,
    pub failure_count: u64,
    latencies_ms: Vec<u64>,
    latency_cursor: usize,
    pub consecutive_failures: u32,
    pub last_error: Option<String>,
    pub last_check_ms: u64,
}

/// Mathematical reading of [`ProviderHealthStats`].
pub struct StatsView {
    pub success_count: u64,
    pub failure_count: u64,
    pub latencies: Seq<u64>,
    pub cursor: nat,
    pub consecutive_failures: u32,
    pub last_error: Option<Seq<char>>,
    pub last_check_ms: u64,
}

impl View for ProviderHealthStats {
    type V = StatsView;

    closed spec fn view(&self) -> StatsView {
        StatsView {
            success_count: self.success_count,
            failure_count: self.failure_count,
            latencies: self.latencies_ms@,
            cursor: self.latency_cursor as nat,
            consecutive_failures: self.consecutive_failures,
            last_error: opt_str_view(self.last_error),
            last_check_ms: self.last_check_ms,
        }
    }
}

/// The ring's shape: at most [`LATENCY_RING_SIZE`] samples; the write
/// cursor follows the samples until the ring is full.
pub open spec fn ring_ok(v: StatsView) -> bool {
    &&& v.latencies.len() <= LATENCY_RING_SIZE
    &&& v.cursor < LATENCY_RING_SIZE
    &&& v.latencies.len() < LATENCY_RING_SIZE ==> v.cursor == v.latencies.len()
}

/// The samples after recording `ms`: appended while the ring has room,
/// otherwise written over the oldest sample at the cursor.
pub open spec fn ring_after(v: StatsView, ms: u64) -> (Seq<u64>, nat) {
    let lat = if v.latencies.len() < LATENCY_RING_SIZE {
        v.latencies.push(ms)
    } else {
        v.latencies.update(v.cursor as int, ms)
    };
    (lat, ((v.cursor + 1) % (LATENCY_RING_SIZE as nat)) as nat)
}

impl ProviderHealthStats {
    /// Fresh statistics: no calls, no samples.
    pub fn new() -> (r: Self)
        ensures
            ring_ok(r@),
            r@ == (StatsView {
                success_count: 0,
                failure_count: 0,
                latencies: Seq::empty(),
                cursor: 0,
                consecutive_failures: 0,
                last_error: None,
                last_check_ms: 0,
            }),
    {
        let r = ProviderHealthStats {
            success_count: 0,
            failure_count: 0,
            latencies_ms: Vec::new(),
            latency_cursor: 0,
            consecutive_failures: 0,
            last_error: None,
            last_check_ms: 0,
        };
        assert(r@.latencies =~= Seq::<u64>::empty());
        r
    }

    /// Records one latency sample in the ring.
    pub fn record_latency(&mut self, ms: u64)
        requires
            ring_ok(old(self)@),
        ensures
            ring_ok(final(self)@),
            final(self)@ == (StatsView {
                latencies: ring_after(old(self)@, ms).0,
                cursor: ring_after(old(self)@, ms).1,
                ..old(self)@
            }),
    {
        if self.latencies_ms.len() < LATENCY_RING_SIZE {
            self.latencies_ms.push(ms);
        } else {
            self.latencies_ms.set(self.latency_cursor, ms);
        }
        self.latency_cursor = (self.latency_cursor + 1) % LATENCY_RING_SIZE;
    }

    /// Latency at the given percentile (0–100); zero when no samples.
    pub fn latency_percentile(&self, p: u8) -> (r: u64)
        requires
            ring_ok(self@),
        ensures
            percentile_of(self@.latencies, p, r),
    {
        if self.latencies_ms.len() == 0 {
            return 0;
        }
        let mut sorted = self.latencies_ms.clone();
        assert(sorted@ =~= self.latencies_ms@);
        sort_u64(&mut sorted);
        let n = sorted.len();
        assert(n <= 100);
        let pu = p as usize;
        let m = n - 1;
        assert(pu * m <= 255 * 99) by (nonlinear_arith)
            requires
                pu <= 255,
                m <= 99,
        ;
        let pm = pu * m;
        let raw = (2 * pm + 100) / 200;
        let idx = if raw < n - 1 {
            raw
        } else {
            n - 1
        };
        let r = sorted[idx];
        proof {
            let nn = self@.latencies.len();
            assert(nn == n);
            assert(2 * p * (nn - 1) == 2 * (pu * m)) by (nonlinear_arith)
                requires
                    pu == p,
                    m == nn - 1,
            ;
        }
        assert(idx == percentile_index(p, self@.latencies.len()));
        r
    }

    /// Latency p50.
    pub fn p50(&self) -> (r: u64)
        requires
            ring_ok(self@),
        ensures
            percentile_of(self@.latencies, 50, r),
    {
        self.latency_percentile(50)
    }

    /// Latency p95.
    pub fn p95(&self) -> (r: u64)
        requires
            ring_ok(self@),
        ensures
            percentile_of(self@.latencies, 95, r),
    {
        self.latency_percentile(95)
    }

    /// A field-by-field copy.
    pub fn duplicate(&self) -> (r: Self)
        ensures
            r@ == self@,
    {
        ProviderHealthStats {
            success_count: self.success_count,
            failure_count: self.failure_count,
            latencies_ms: self.latencies_ms.clone(),
            latency_cursor: self.latency_cursor,
            consecutive_failures: self.consecutive_failures,
            last_error: clone_opt_string(&self.last_error),
            last_check_ms: self.last_check_ms,
        }
    }
}

/// Whether statistics describe a healthy provider: fewer than three
/// consecutive failures, and, once ten calls are recorded, a success rate
/// of at least one half.
pub open spec fn stats_healthy(v: StatsView) -> bool {
    &&& v.consecutive_failures < 3
    &&& !(v.success_count + v.failure_count >= 10 && 2 * v.success_count < v.success_count
        + v.failure_count)
}

/// Health tracker for provider connections, keyed by connection ID.
pub struct ProviderHealthTracker {
    entries: Vec<(String, ProviderHealthStats)>,
}

pub open spec fn stats_entries(s: Seq<(String, ProviderHealthStats)>) -> Seq<(Seq<char>, StatsView)> {
    s.map_values(|e: (String, ProviderHealthStats)| (e.0@, e.1@))
}

impl View for ProviderHealthTracker {
    type V = Map<Seq<char>, StatsView>;

    closed spec fn view(&self) -> Map<Seq<char>, StatsView> {
        alist_map(stats_entries(self.entries@))
    }
}

/// Statistics of `id` in `m`, or fresh ones when it was never tracked.
pub open spec fn stats_or_new(m: Map<Seq<char>, StatsView>, id: Seq<char>) -> StatsView {
    if m.contains_key(id) {
        m[id]
    } else {
        StatsView {
            success_count: 0,
            failure_count: 0,
            latencies: Seq::empty(),
            cursor: 0,
            consecutive_failures: 0,
            last_error: None,
            last_check_ms: 0,
        }
    }
}

/// Statistics after a successful call.
pub open spec fn after_success(o: StatsView, latency_ms: u64, now: u64) -> StatsView {
    StatsView {
        success_count: (o.success_count + 1) as u64,
        consecutive_failures: 0,
        latencies: ring_after(o, latency_ms).0,
        cursor: ring_after(o, latency_ms).1,
        last_check_ms: now,
        ..o
    }
}

/// Statistics after a failed call.
pub open spec fn after_failure(o: StatsView, latency_ms: u64, error: Seq<char>, now: u64) -> StatsView {
    StatsView {
        failure_count: (o.failure_count + 1) as u64,
        consecutive_failures: (o.consecutive_failures + 1) as u32,
        latencies: ring_after(o, latency_ms).0,
        cursor: ring_after(o, latency_ms).1,
        last_error: Some(error),
        last_check_ms: now,
        ..o
    }
}

impl ProviderHealthTracker {
    pub closed spec fn wf(&self) -> bool {
        &&& keys_unique(stats_entries(self.entries@))
        &&& forall|i: int| 0 <= i < self.entries@.len() ==> ring_ok(#[trigger] self.entries@[i].1@)
    }

    pub proof fn lemma_wf_ring(&self, id: Seq<char>)
        requires
            self.wf(),
            self@.contains_key(id),
        ensures
            ring_ok(self@[id]),
    {
        let s = stats_entries(self.entries@);
        let j = choose|j: int| 0 <= j < s.len() && s[j].0 == id;
        lemma_alist_get(s, j);
        assert(s[j].1 == self.entries@[j].1@);
    }

    /// An empty tracker.
    pub fn new() -> (r: Self)
        ensures
            r.wf(),
            r@ == Map::<Seq<char>, StatsView>::empty(),
    {
        let r = ProviderHealthTracker { entries: Vec::new() };
        assert(r@ =~= Map::<Seq<char>, StatsView>::empty());
        r
    }

    fn locate(&self, id: &String) -> (r: Option<usize>)
        requires
            self.wf(),
        ensures
            match r {
                Some(i) => i < self.entries@.len() && self.entries@[i as int].0@ == id@
                    && self@.contains_key(id@) && self@[id@] == self.entries@[i as int].1@,
                None => !self@.contains_key(id@),
            },
    {
        let r = find_key(&self.entries, id);
        proof {
            let s = stats_entries(self.entries@);
            match r {
                Some(i) => lemma_alist_get(s, i as int),
                None => {
                    assert forall|j: int| 0 <= j < s.len() implies #[trigger] s[j].0 != id@ by {
                        assert(s[j].0 == self.entries@[j].0@);
                    }
                    lemma_alist_absent(s, id@);
                },
            }
        }
        r
    }

    /// Stores the statistics of `id`.
    fn put(&mut self, id: &String, st: ProviderHealthStats)
        requires
            old(self).wf(),
            ring_ok(st@),
        ensures
            final(self).wf(),
            final(self)@ == old(self)@.insert(id@, st@),
    {
        let ghost s = stats_entries(self.entries@);
        let ghost v = st@;
        match self.locate(id) {
            Some(i) => {
                let key = id.clone();
                self.entries.set(i, (key, st));
                proof {
                    lemma_alist_update(s, i as int, v);
                    assert(stats_entries(self.entries@) =~= s.update(i as int, (s[i as int].0, v)));
                    assert forall|k: int| 0 <= k < self.entries@.len() implies ring_ok(#[trigger] self.entries@[k].1@) by {
                        if k != i {
                            assert(self.entries@[k] == old(self).entries@[k]);
                        }
                    }
                }
            },
            None => {
                proof {
                    if has_key(s, id@) {
                        let j = choose|j: int| 0 <= j < s.len() && s[j].0 == id@;
                        lemma_alist_get(s, j);
                    }
                }
                self.entries.push((id.clone(), st));
                proof {
                    lemma_alist_push(s, id@, v);
                    assert(stats_entries(self.entries@) =~= s.push((id@, v)));
                    assert forall|k: int| 0 <= k < self.entries@.len() implies ring_ok(#[trigger] self.entries@[k].1@) by {
                        if k < old(self).entries@.len() {
                            assert(self.entries@[k] == old(self).entries@[k]);
                        }
                    }
                }
            },
        }
    }

    fn current(&self, id: &String) -> (r: ProviderHealthStats)
        requires
            self.wf(),
        ensures
            r@ == stats_or_new(self@, id@),
            ring_ok(r@),
    {
        match self.locate(id) {
            Some(i) => {
                proof {
                    self.lemma_wf_ring(id@);
                }
                self.entries[i].1.duplicate()
            },
            None => ProviderHealthStats::new(),
        }
    }

    /// Records a successful call observed at time `now`.
    pub fn record_success_at(&mut self, connection_id: &str, latency_ms: u64, now: u64)
        requires
            old(self).wf(),
            stats_or_new(old(self)@, connection_id@).success_count < u64::MAX,
        ensures
            final(self).wf(),
            final(self)@ == old(self)@.insert(
                connection_id@,
                after_success(stats_or_new(old(self)@, connection_id@), latency_ms, now),
            ),
    {
        let id = connection_id.to_owned();
        let mut st = self.current(&id);
        st.success_count = st.success_count + 1;
        st.consecutive_failures = 0;
        st.record_latency(latency_ms);
        st.last_check_ms = now;
        self.put(&id, st);
    }

    /// Records a successful call now.
    pub fn record_success(&mut self, connection_id: &str, latency_ms: u64)
        requires
            old(self).wf(),
            stats_or_new(old(self)@, connection_id@).success_count < u64::MAX,
        ensures
            final(self).wf(),
            final(self)@.contains_key(connection_id@),
            final(self)@[connection_id@].consecutive_failures == 0,
            final(self)@[connection_id@].success_count == stats_or_new(old(self)@, connection_id@).success_count + 1,
            exists|t: u64| final(self)@ == old(self)@.insert(
                connection_id@,
                #[trigger] after_success(stats_or_new(old(self)@, connection_id@), latency_ms, t),
            ),
    {
        let now = now_ms();
        self.record_success_at(connection_id, latency_ms, now);
        assert(self@ == old(self)@.insert(connection_id@, after_success(stats_or_new(old(self)@, connection_id@), latency_ms, now)));
    }

    /// Records a failed call observed at time `now`.
    pub fn record_failure_at(&mut self, connection_id: &str, latency_ms: u64, error: String, now: u64)
        requires
            old(self).wf(),
            stats_or_new(old(self)@, connection_id@).failure_count < u64::MAX,
            stats_or_new(old(self)@, connection_id@).consecutive_failures < u32::MAX,
        ensures
            final(self).wf(),
            final(self)@ == old(self)@.insert(
                connection_id@,
                after_failure(stats_or_new(old(self)@, connection_id@), latency_ms, error@, now),
            ),
    {
        let id = connection_id.to_owned();
        let mut st = self.current(&id);
        st.failure_count = st.failure_count + 1;
        st.consecutive_failures = st.consecutive_failures + 1;
        st.record_latency(latency_ms);
        st.last_error = Some(error);
        st.last_check_ms = now;
        self.put(&id, st);
    }

    /// Records a failed call now.
    pub fn record_failure(&mut self, connection_id: &str, latency_ms: u64, error: String)
        requires
            old(self).wf(),
            stats_or_new(old(self)@, connection_id@).failure_count < u64::MAX,
            stats_or_new(old(self)@, connection_id@).consecutive_failures < u32::MAX,
        ensures
            final(self).wf(),
            final(self)@.contains_key(connection_id@),
            final(self)@[connection_id@].consecutive_failures == stats_or_new(old(self)@, connection_id@).consecutive_failures + 1,
            final(self)@[connection_id@].failure_count == stats_or_new(old(self)@, connection_id@).failure_count + 1,
            final(self)@[connection_id@].last_error == Some(error@),
            exists|t: u64| final(self)@ == old(self)@.insert(
                connection_id@,
                #[trigger] after_failure(stats_or_new(old(self)@, connection_id@), latency_ms, error@, t),
            ),
    {
        let now = now_ms();
        let ghost ev = error@;
        self.record_failure_at(connection_id, latency_ms, error, now);
        assert(self@ == old(self)@.insert(connection_id@, after_failure(stats_or_new(old(self)@, connection_id@), latency_ms, ev, now)));
    }

    /// Snapshot of a provider's statistics; `None` if never tracked.
    pub fn get(&self, connection_id: &str) -> (r: Option<ProviderHealthStats>)
        requires
            self.wf(),
        ensures
            match r {
                Some(st) => self@.contains_key(connection_id@) && st@ == self@[connection_id@] && ring_ok(st@),
                None => !self@.contains_key(connection_id@),
            },
    {
        let id = connection_id.to_owned();
        match self.locate(&id) {
            Some(i) => {
                proof {
                    self.lemma_wf_ring(id@);
                }
                Some(self.entries[i].1.duplicate())
            },
            None => None,
        }
    }

    /// Whether a provider is healthy; an unknown provider is assumed healthy.
    pub fn is_healthy(&self, connection_id: &str) -> (r: bool)
        requires
            self.wf(),
            self@.contains_key(connection_id@) ==> self@[connection_id@].success_count
                + self@[connection_id@].failure_count <= u64::MAX,
        ensures
            r == (!self@.contains_key(connection_id@) || stats_healthy(self@[connection_id@])),
    {
        let id = connection_id.to_owned();
        match self.locate(&id) {
            None => true,
            Some(i) => {
                let st = &self.entries[i].1;
                if st.consecutive_failures >= 3 {
                    return false;
                }
                let total = st.success_count + st.failure_count;
                if total >= 10 && (st.success_count as u128) * 2 < total as u128 {
                    return false;
                }
                true
            },
        }
    }

    /// Snapshot of every tracked provider.
    pub fn all(&self) -> (r: Vec<(String, ProviderHealthStats)>)
        requires
            self.wf(),
        ensures
            alist_map(stats_entries(r@)) == self@,
            keys_unique(stats_entries(r@)),
    {
        let mut r: Vec<(String, ProviderHealthStats)> = Vec::new();
        let mut i: usize = 0;
        while i < self.entries.len()
            invariant
                i <= self.entries@.len(),
                r@.len() == i,
                stats_entries(r@) == stats_entries(self.entries@).take(i as int),
            decreases self.entries@.len() - i,
        {
            let ghost old_r = r@;
            r.push((self.entries[i].0.clone(), self.entries[i].1.duplicate()));
            proof {
                assert(r@ == old_r.push(r@[i as int]));
                assert(stats_entries(r@)[i as int] == stats_entries(self.entries@)[i as int]);
                assert forall|k: int| 0 <= k < i implies stats_entries(r@)[k] == stats_entries(old_r)[k] by {
                    assert(r@[k] == old_r[k]);
                }
                assert(stats_entries(r@) =~= stats_entries(self.entries@).take(i + 1));
            }
            i = i + 1;
        }
        assert(stats_entries(self.entries@).take(self.entries@.len() as int) =~= stats_entries(self.entries@));
        r
    }
}

/// When a provider counts as healthy: three or more failures in a row make
/// it unhealthy; so does a success rate below one half once it has seen at
/// least ten calls; otherwise it is healthy. Three failures in a row after
/// any history make it unhealthy, and a success ends a run of failures.
pub proof fn law_health_verdict(v: StatsView, latency_ms: u64, error: Seq<char>, now: u64)
    ensures
        v.consecutive_failures >= 3 ==> !stats_healthy(v),
        v.success_count + v.failure_count >= 10 && 2 * v.success_count < v.success_count + v.failure_count ==> !stats_healthy(v),
        v.consecutive_failures < 3 && (v.success_count + v.failure_count < 10 || 2 * v.success_count >= v.success_count + v.failure_count)
            ==> stats_healthy(v),
        v.failure_count + 3 <= u64::MAX && v.consecutive_failures + 3 <= u32::MAX ==> !stats_healthy(
            after_failure(after_failure(after_failure(v, latency_ms, error, now), latency_ms, error, now), latency_ms, error, now),
        ),
        after_success(v, latency_ms, now).consecutive_failures == 0,
{
}

} // verus!
