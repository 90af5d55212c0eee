//! LLM call traces and the latency and error figures computed over a
//! recent window of them.
use vstd::prelude::*;
use crate::clock::{at_time, now_ms};

verus! {

/// One recorded LLM call.
#[derive(Debug)]
pub struct LlmCallTrace {
    pub trace_id: String,
    pub model_id: String,
    pub prompt_tokens: u32,
    pub completion_tokens: u32,
    pub latency_ms: u64,
    pub cost_micros: u64,
    pub session_id: Option<String>,
    pub run_id: Option<String>,
    pub created_at_ms: u64,
    pub is_error: bool,
}

impl LlmCallTrace {
    pub fn duplicate(&self) -> (r: Self)
        ensures
            r == *self,
    {
        LlmCallTrace {
            trace_id: self.trace_id.clone(),
            model_id: self.model_id.clone(),
            prompt_tokens: self.prompt_tokens,
            completion_tokens: self.completion_tokens,
            latency_ms: self.latency_ms,
            cost_micros: self.cost_micros,
            session_id: match &self.session_id {
                Some(v) => Some(v.clone()),
                None => None,
            },
            run_id: match &self.run_id {
                Some(v) => Some(v.clone()),
                None => None,
            },
            created_at_ms: self.created_at_ms,
            is_error: self.is_error,
        }
    }
}

/// Median and 95th percentile latency over a sample.
#[derive(Debug, Clone, Copy, PartialEq, Eq, Structural)]
pub struct LatencyStats {
    pub p50_ms: u64,
    pub p95_ms: u64,
    pub sample_count: u64,
}

/// Where `x` goes in `s`: after every leading element not above it.
pub open spec fn insert_pos(s: Seq<u64>, x: u64) -> int
    decreases s.len(),
{
    if s.len() == 0 {
        0
    } else if x < s[0] {
        0
    } else {
        1 + insert_pos(s.drop_first(), x)
    }
}

/// `s` with `x` inserted in order.
pub open spec fn insert_sorted(s: Seq<u64>, x: u64) -> Seq<u64> {
    s.insert(insert_pos(s, x), x)
}

/// `s` in ascending order, built by inserting its elements one at a time.
pub open spec fn sorted_of(s: Seq<u64>) -> Seq<u64>
    decreases s.len(),
{
    if s.len() == 0 {
        Seq::empty()
    } else {
        insert_sorted(sorted_of(s.drop_last()), s.last())
    }
}

pub open spec fn is_sorted(s: Seq<u64>) -> bool {
    forall|i: int, j: int| 0 <= i <= j < s.len() ==> s[i] <= s[j]
}

proof fn lemma_insert_pos(s: Seq<u64>, x: u64)
    ensures
        0 <= insert_pos(s, x) <= s.len(),
        forall|j: int| 0 <= j < insert_pos(s, x) ==> s[j] <= x,
        insert_pos(s, x) < s.len() ==> x < s[insert_pos(s, x)],
    decreases s.len(),
{
    if s.len() > 0 && !(x < s[0]) {
        lemma_insert_pos(s.drop_first(), x);
        assert forall|j: int| 0 <= j < insert_pos(s, x) implies s[j] <= x by {
            if j > 0 {
                assert(s[j] == s.drop_first()[j - 1]);
            }
        }
    }
}

proof fn lemma_insert_pos_unique(s: Seq<u64>, x: u64, p: int)
    requires
        0 <= p <= s.len(),
        forall|j: int| 0 <= j < p ==> s[j] <= x,
        p < s.len() ==> x < s[p],
    ensures
        insert_pos(s, x) == p,
    decreases s.len(),
{
    if s.len() > 0 && p > 0 {
        lemma_insert_pos_unique(s.drop_first(), x, p - 1);
    }
}

proof fn lemma_insert_sorted(s: Seq<u64>, x: u64)
    requires
        is_sorted(s),
    ensures
        is_sorted(insert_sorted(s, x)),
        insert_sorted(s, x).to_multiset() == s.to_multiset().insert(x),
{
    lemma_insert_pos(s, x);
    let p = insert_pos(s, x);
    let r = insert_sorted(s, x);
    assert forall|i: int, j: int| 0 <= i <= j < r.len() implies r[i] <= r[j] by {
        if i < p && j < p {
        } else if i < p && j == p {
        } else if i < p {
            assert(s[i] <= s[j - 1]);
        } else if i == p && j == p {
        } else if i == p {
            assert(x < s[p]);
            assert(s[p] <= s[j - 1]);
        } else {
            assert(s[i - 1] <= s[j - 1]);
        }
    }
    vstd::seq_lib::to_multiset_insert(s, p, x);
}

/// Sorting by insertion gives an ascending rearrangement of the sample.
pub proof fn law_sorted_of_sorts(s: Seq<u64>)
    ensures
        is_sorted(sorted_of(s)),
        sorted_of(s).to_multiset() == s.to_multiset(),
        sorted_of(s).len() == s.len(),
    decreases s.len(),
{
    if s.len() > 0 {
        law_sorted_of_sorts(s.drop_last());
        lemma_insert_sorted(sorted_of(s.drop_last()), s.last());
        assert(s.drop_last().push(s.last()) =~= s);
        vstd::seq_lib::to_multiset_build(s.drop_last(), s.last());
    } else {
        assert(sorted_of(s) =~= s);
    }
    vstd::seq_lib::to_multiset_len(sorted_of(s));
    vstd::seq_lib::to_multiset_len(s);
}

fn insert_in_order(v: &mut Vec<u64>, x: u64)
    ensures
        final(v)@ == insert_sorted(old(v)@, x),
{
    let mut p: usize = 0;
    while p < v.len()
        invariant
            p <= v@.len(),
            forall|j: int| 0 <= j < p ==> v@[j] <= x,
        ensures
            p <= v@.len(),
            forall|j: int| 0 <= j < p ==> v@[j] <= x,
            p < v@.len() ==> x < v@[p as int],
        decreases v@.len() - p,
    {
        if x < v[p] {
            break;
        }
        p = p + 1;
    }
    proof {
        lemma_insert_pos_unique(v@, x, p as int);
    }
    v.insert(p, x);
}

/// The values in ascending order.
pub fn sort_ascending(values: &Vec<u64>) -> (r: Vec<u64>)
    ensures
        r@ == sorted_of(values@),
{
    let mut out: Vec<u64> = Vec::new();
    let mut i: usize = 0;
    while i < values.len()
        invariant
            i <= values@.len(),
            out@ == sorted_of(values@.take(i as int)),
        decreases values@.len() - i,
    {
        proof {
            assert(values@.take(i + 1).drop_last() =~= values@.take(i as int));
        }
        insert_in_order(&mut out, values[i]);
        i = i + 1;
    }
    assert(values@.take(values@.len() as int) =~= values@);
    out
}

/// The index of a percentile in a sorted sample of `n`: `n * pct / 100`,
/// at most the last index.
pub open spec fn percentile_index(n: nat, pct: nat) -> int {
    let k = (n * pct / 100) as int;
    if k < n - 1 { k } else { n - 1 }
}

/// The stats of a sample: zeros for no sample, else the values at the
/// 50th and 95th percentile indices of the sorted sample.
pub open spec fn latency_stats_of(latencies: Seq<u64>) -> LatencyStats {
    let n = latencies.len();
    if n == 0 {
        LatencyStats { p50_ms: 0, p95_ms: 0, sample_count: 0 }
    } else {
        let s = sorted_of(latencies);
        LatencyStats { p50_ms: s[percentile_index(n, 50)], p95_ms: s[percentile_index(n, 95)], sample_count: n as u64 }
    }
}

fn percentile_at(n: usize, pct: u64) -> (r: usize)
    requires
        n > 0,
        pct <= 100,
    ensures
        r == percentile_index(n as nat, pct as nat),
{
    assert((n as u128) * (pct as u128) <= (n as u128) * 100) by (nonlinear_arith)
        requires
            pct <= 100,
    ;
    assert((n as u128) * 100 <= 0xffff_ffff_ffff_ffff_u128 * 100) by (nonlinear_arith)
        requires
            n <= 0xffff_ffff_ffff_ffff_u128,
    ;
    let k = (n as u128) * (pct as u128) / 100;
    assert(k <= n) by (nonlinear_arith)
        requires
            k == (n as u128) * (pct as u128) / 100,
            pct <= 100,
    ;
    if k < (n as u128) - 1 {
        k as usize
    } else {
        n - 1
    }
}

/// The latency stats of a sample.
pub fn latency_stats(latencies: &Vec<u64>) -> (r: LatencyStats)
    ensures
        r == latency_stats_of(latencies@),
{
    let n = latencies.len();
    if n == 0 {
        return LatencyStats { p50_ms: 0, p95_ms: 0, sample_count: 0 };
    }
    let sorted = sort_ascending(latencies);
    proof {
        law_sorted_of_sorts(latencies@);
    }
    let i50 = percentile_at(n, 50);
    let i95 = percentile_at(n, 95);
    LatencyStats { p50_ms: sorted[i50], p95_ms: sorted[i95], sample_count: n as u64 }
}

/// How many traces a window figure looks at.
pub const TRACE_SCAN_LIMIT: usize = 1000;

/// The start of a window ending now.
pub open spec fn window_start(now: u64, window_ms: u64) -> u64 {
    if now >= window_ms { (now - window_ms) as u64 } else { 0 }
}

/// The traces a window figure counts: among the first traces scanned, those
/// created at or after the window's start.
pub open spec fn in_window(traces: Seq<LlmCallTrace>, now: u64, window_ms: u64) -> Seq<LlmCallTrace> {
    let scanned = if traces.len() <= TRACE_SCAN_LIMIT { traces } else { traces.take(TRACE_SCAN_LIMIT as int) };
    scanned.filter(|t: LlmCallTrace| t.created_at_ms >= window_start(now, window_ms))
}

/// Recorded LLM call traces, in the order they were recorded.
pub struct LlmObservabilityServiceImpl {
    traces: Vec<LlmCallTrace>,
}

impl LlmObservabilityServiceImpl {
    pub closed spec fn traces(&self) -> Seq<LlmCallTrace> {
        self.traces@
    }

    pub fn new() -> (r: Self)
        ensures
            r.traces() == Seq::<LlmCallTrace>::empty(),
    {
        LlmObservabilityServiceImpl { traces: Vec::new() }
    }

    /// Records a trace.
    pub fn record(&mut self, trace: LlmCallTrace)
        ensures
            final(self).traces() == old(self).traces().push(trace),
    {
        self.traces.push(trace);
    }

    /// A session's traces, at most `limit`, in the order recorded.
    pub fn list_by_session(&self, session_id: &str, limit: usize) -> (r: Vec<LlmCallTrace>)
        ensures
            ({
                let all = self.traces().filter(|t: LlmCallTrace| t.session_id matches Some(s) && s@ == session_id@);
                r@ == all.take(if limit < all.len() { limit as int } else { all.len() as int })
            }),
    {
        let ghost f = |t: LlmCallTrace| t.session_id matches Some(s) && s@ == session_id@;
        let sid = session_id.to_owned();
        let mut all: Vec<LlmCallTrace> = Vec::new();
        let mut i: usize = 0;
        while i < self.traces.len()
            invariant
                i <= self.traces@.len(),
                sid@ == session_id@,
                f == (|t: LlmCallTrace| t.session_id matches Some(s) && s@ == session_id@),
                all@ == self.traces@.take(i as int).filter(f),
            decreases self.traces@.len() - i,
        {
            proof {
                assert(self.traces@.take(i + 1) =~= self.traces@.take(i as int).push(self.traces@[i as int]));
                self.traces@.take(i as int).lemma_filter_push(self.traces@[i as int], f);
            }
            let matches = match &self.traces[i].session_id {
                Some(s) => *s == sid,
                None => false,
            };
            if matches {
                all.push(self.traces[i].duplicate());
            }
            i = i + 1;
        }
        assert(self.traces@.take(self.traces@.len() as int) =~= self.traces@);
        let end = if limit < all.len() { limit } else { all.len() };
        let mut out: Vec<LlmCallTrace> = Vec::new();
        let mut j: usize = 0;
        while j < end
            invariant
                j <= end <= all@.len(),
                out@ == all@.take(j as int),
            decreases end - j,
        {
            out.push(all[j].duplicate());
            assert(out@ =~= all@.take(j + 1));
            j = j + 1;
        }
        out
    }

    /// The first `limit` traces, in the order recorded.
    pub fn list_all(&self, limit: usize) -> (r: Vec<LlmCallTrace>)
        ensures
            r@ == self.traces().take(if limit < self.traces().len() { limit as int } else { self.traces().len() as int }),
    {
        let end = if limit < self.traces.len() { limit } else { self.traces.len() };
        let mut out: Vec<LlmCallTrace> = Vec::new();
        let mut j: usize = 0;
        while j < end
            invariant
                j <= end <= self.traces@.len(),
                out@ == self.traces@.take(j as int),
            decreases end - j,
        {
            out.push(self.traces[j].duplicate());
            assert(out@ =~= self.traces@.take(j + 1));
            j = j + 1;
        }
        out
    }

    fn window(&self, window_ms: u64, now: u64) -> (r: Vec<LlmCallTrace>)
        ensures
            r@ == in_window(self.traces(), now, window_ms),
    {
        let start: u64 = if now >= window_ms { now - window_ms } else { 0 };
        let scanned = self.list_all(TRACE_SCAN_LIMIT);
        let ghost f = |t: LlmCallTrace| t.created_at_ms >= window_start(now, window_ms);
        proof {
            if self.traces@.len() <= TRACE_SCAN_LIMIT {
                assert(self.traces@.take(self.traces@.len() as int) =~= self.traces@);
            }
        }
        let mut out: Vec<LlmCallTrace> = Vec::new();
        let mut i: usize = 0;
        while i < scanned.len()
            invariant
                i <= scanned@.len(),
                start == window_start(now, window_ms),
                f == (|t: LlmCallTrace| t.created_at_ms >= window_start(now, window_ms)),
                out@ == scanned@.take(i as int).filter(f),
            decreases scanned@.len() - i,
        {
            proof {
                assert(scanned@.take(i + 1) =~= scanned@.take(i as int).push(scanned@[i as int]));
                scanned@.take(i as int).lemma_filter_push(scanned@[i as int], f);
            }
            if scanned[i].created_at_ms >= start {
                out.push(scanned[i].duplicate());
            }
            i = i + 1;
        }
        assert(scanned@.take(scanned@.len() as int) =~= scanned@);
        out
    }

    /// Latency stats over the traces of the window ending at `now`.
    pub fn latency_percentiles_at(&self, window_ms: u64, now: u64) -> (r: LatencyStats)
        ensures
            r == latency_stats_of(in_window(self.traces(), now, window_ms).map_values(|t: LlmCallTrace| t.latency_ms)),
    {
        let w = self.window(window_ms, now);
        let mut lat: Vec<u64> = Vec::new();
        let mut i: usize = 0;
        while i < w.len()
            invariant
                i <= w@.len(),
                lat@ == w@.take(i as int).map_values(|t: LlmCallTrace| t.latency_ms),
            decreases w@.len() - i,
        {
            lat.push(w[i].latency_ms);
            assert(lat@ =~= w@.take(i + 1).map_values(|t: LlmCallTrace| t.latency_ms));
            i = i + 1;
        }
        assert(w@.take(w@.len() as int) =~= w@);
        latency_stats(&lat)
    }

    /// Latency stats over the traces of the window ending at the clock's
    /// present reading.
    pub fn latency_percentiles(&self, window_ms: u64) -> (r: LatencyStats)
        ensures
            exists|now: u64| r == latency_stats_of(in_window(self.traces(), now, window_ms).map_values(|t: LlmCallTrace| t.latency_ms)),
            exists|tm: u64| #[trigger] at_time(tm)
                && (r == latency_stats_of(in_window(self.traces(), tm, window_ms).map_values(|t: LlmCallTrace| t.latency_ms))),
    {
        let now = now_ms();
        let r = self.latency_percentiles_at(window_ms, now);
        assert(at_time(now));
        r
    }

    /// The failed calls and all calls of the window ending at `now`; their
    /// ratio is the error rate (zero for an empty window).
    pub fn error_counts_at(&self, window_ms: u64, now: u64) -> (r: (usize, usize))
        ensures
            r.1 == in_window(self.traces(), now, window_ms).len(),
            r.0 == in_window(self.traces(), now, window_ms).filter(|t: LlmCallTrace| t.is_error).len(),
    {
        let w = self.window(window_ms, now);
        let ghost f = |t: LlmCallTrace| t.is_error;
        let mut errors: usize = 0;
        let mut i: usize = 0;
        while i < w.len()
            invariant
                i <= w@.len(),
                f == (|t: LlmCallTrace| t.is_error),
                errors == w@.take(i as int).filter(f).len(),
                errors <= i,
            decreases w@.len() - i,
        {
            proof {
                assert(w@.take(i + 1) =~= w@.take(i as int).push(w@[i as int]));
                w@.take(i as int).lemma_filter_push(w@[i as int], f);
            }
            if w[i].is_error {
                errors = errors + 1;
            }
            i = i + 1;
        }
        assert(w@.take(w@.len() as int) =~= w@);
        (errors, w.len())
    }

    /// The failed calls and all calls of the window ending at the clock's
    /// present reading.
    pub fn error_counts(&self, window_ms: u64) -> (r: (usize, usize))
        ensures
            exists|now: u64| r.1 == in_window(self.traces(), now, window_ms).len()
                && r.0 == in_window(self.traces(), now, window_ms).filter(|t: LlmCallTrace| t.is_error).len(),
            exists|tm: u64| #[trigger] at_time(tm)
                && (r.1 == in_window(self.traces(), tm, window_ms).len())
                && (r.0 == in_window(self.traces(), tm, window_ms).filter(|t: LlmCallTrace| t.is_error).len()),
    {
        let now = now_ms();
        let r = self.error_counts_at(window_ms, now);
        assert(at_time(now));
        r
    }
}

} // verus!
