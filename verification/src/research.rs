//! Research queries and digests kept in memory: a query's result echoes its
//! prompt, a digest covers the period that ends when it is made, and both
//! are listed most recent first.
use vstd::prelude::*;
use crate::clock::{at_time, now_ms};
use crate::text::{concat3, decimal, decimal_string};

verus! {

/// A research query.
#[derive(Debug)]
pub struct ResearchQuery {
    pub query_id: String,
    pub prompt: String,
    pub sources: Vec<String>,
    pub max_results: u32,
    pub created_at_ms: u64,
}

/// The result of a research query.
#[derive(Debug)]
pub struct ResearchResult {
    pub query_id: String,
    pub summary: String,
    pub sources_used: Vec<String>,
    /// Confidence in hundredths.
    pub confidence_pct: u32,
    pub created_at_ms: u64,
}

fn copy_strings(v: &Vec<String>) -> (r: Vec<String>)
    ensures
        r@ == v@,
{
    let mut out: Vec<String> = Vec::new();
    let mut i: usize = 0;
    while i < v.len()
        invariant
            i <= v@.len(),
            out@ == v@.take(i as int),
        decreases v@.len() - i,
    {
        out.push(v[i].clone());
        assert(out@ =~= v@.take(i + 1));
        i = i + 1;
    }
    assert(v@.take(v@.len() as int) =~= v@);
    out
}

/// Two results say the same.
pub open spec fn same_result(a: ResearchResult, b: ResearchResult) -> bool {
    &&& a.query_id == b.query_id
    &&& a.summary == b.summary
    &&& a.sources_used@ == b.sources_used@
    &&& a.confidence_pct == b.confidence_pct
    &&& a.created_at_ms == b.created_at_ms
}

impl ResearchResult {
    /// A field-by-field copy.
    pub fn duplicate(&self) -> (r: Self)
        ensures
            same_result(r, *self),
    {
        ResearchResult {
            query_id: self.query_id.clone(),
            summary: self.summary.clone(),
            sources_used: copy_strings(&self.sources_used),
            confidence_pct: self.confidence_pct,
            created_at_ms: self.created_at_ms,
        }
    }
}

/// The confidence, in hundredths, that every result carries.
pub const RESULT_CONFIDENCE_PCT: u32 = 50;

/// The summary of the result of a query with a prompt.
pub open spec fn summary_of(prompt: Seq<char>) -> Seq<char> {
    "[stub] "@ + prompt
}

/// Where `x` goes among results listed most recent first: after every
/// leading result made no earlier than it.
pub open spec fn recent_pos(s: Seq<ResearchResult>, x: ResearchResult) -> int
    decreases s.len(),
{
    if s.len() == 0 {
        0
    } else if s[0].created_at_ms < x.created_at_ms {
        0
    } else {
        1 + recent_pos(s.drop_first(), x)
    }
}

/// The results, most recent first, results made at the same time keeping
/// their order.
pub open spec fn most_recent_first(s: Seq<ResearchResult>) -> Seq<ResearchResult>
    decreases s.len(),
{
    if s.len() == 0 {
        Seq::empty()
    } else {
        let t = most_recent_first(s.drop_last());
        t.insert(recent_pos(t, s.last()), s.last())
    }
}

/// No result comes before one made later.
pub open spec fn is_most_recent_first(s: Seq<ResearchResult>) -> bool {
    forall|i: int, j: int| 0 <= i <= j < s.len() ==> s[i].created_at_ms >= s[j].created_at_ms
}

proof fn lemma_recent_pos(s: Seq<ResearchResult>, x: ResearchResult)
    ensures
        0 <= recent_pos(s, x) <= s.len(),
        forall|j: int| 0 <= j < recent_pos(s, x) ==> s[j].created_at_ms >= x.created_at_ms,
        recent_pos(s, x) < s.len() ==> s[recent_pos(s, x)].created_at_ms < x.created_at_ms,
    decreases s.len(),
{
    if s.len() > 0 && !(s[0].created_at_ms < x.created_at_ms) {
        lemma_recent_pos(s.drop_first(), x);
        assert forall|j: int| 0 <= j < recent_pos(s, x) implies s[j].created_at_ms >= x.created_at_ms by {
            if j > 0 {
                assert(s[j] == s.drop_first()[j - 1]);
            }
        }
    }
}

proof fn lemma_recent_pos_unique(s: Seq<ResearchResult>, x: ResearchResult, p: int)
    requires
        0 <= p <= s.len(),
        forall|j: int| 0 <= j < p ==> s[j].created_at_ms >= x.created_at_ms,
        p < s.len() ==> s[p].created_at_ms < x.created_at_ms,
    ensures
        recent_pos(s, x) == p,
    decreases s.len(),
{
    if s.len() > 0 && p > 0 {
        lemma_recent_pos_unique(s.drop_first(), x, p - 1);
    }
}

/// Listing most recent first orders the results so, and keeps each of
/// them.
pub proof fn law_most_recent_first(s: Seq<ResearchResult>)
    ensures
        is_most_recent_first(most_recent_first(s)),
        most_recent_first(s).to_multiset() == s.to_multiset(),
        most_recent_first(s).len() == s.len(),
    decreases s.len(),
{
    if s.len() > 0 {
        law_most_recent_first(s.drop_last());
        let t = most_recent_first(s.drop_last());
        let x = s.last();
        lemma_recent_pos(t, x);
        let p = recent_pos(t, x);
        let r = t.insert(p, x);
        assert forall|i: int, j: int| 0 <= i <= j < r.len() implies r[i].created_at_ms >= r[j].created_at_ms by {
            if i < p && j < p {
            } else if i < p && j == p {
            } else if i < p {
                assert(t[i].created_at_ms >= t[j - 1].created_at_ms);
            } else if i == p && j == p {
            } else if i == p {
                assert(t[p].created_at_ms < x.created_at_ms);
                assert(t[p].created_at_ms >= t[j - 1].created_at_ms);
            } else {
                assert(t[i - 1].created_at_ms >= t[j - 1].created_at_ms);
            }
        }
        vstd::seq_lib::to_multiset_insert(t, p, x);
        assert(s.drop_last().push(x) =~= s);
        vstd::seq_lib::to_multiset_build(s.drop_last(), x);
    } else {
        assert(most_recent_first(s) =~= s);
    }
    vstd::seq_lib::to_multiset_len(most_recent_first(s));
    vstd::seq_lib::to_multiset_len(s);
}

/// The last `limit` results run, newest run first.
pub open spec fn latest_runs<T>(s: Seq<T>, limit: usize) -> Seq<T> {
    s.reverse().take(if limit < s.len() { limit as int } else { s.len() as int })
}

/// Research results in the order the queries were run.
pub struct InMemoryResearchService {
    results: Vec<ResearchResult>,
}

impl InMemoryResearchService {
    pub closed spec fn results(&self) -> Seq<ResearchResult> {
        self.results@
    }

    pub fn new() -> (r: Self)
        ensures
            r.results() == Seq::<ResearchResult>::empty(),
    {
        InMemoryResearchService { results: Vec::new() }
    }

    /// Runs a query at `now`: its result echoes the prompt as its summary,
    /// names the query's sources, and is kept.
    pub fn run_query_at(&mut self, q: ResearchQuery, now: u64) -> (r: ResearchResult)
        ensures
            r.query_id == q.query_id,
            r.summary@ == summary_of(q.prompt@),
            r.sources_used@ == q.sources@,
            r.confidence_pct == RESULT_CONFIDENCE_PCT,
            r.created_at_ms == now,
            final(self).results().len() == old(self).results().len() + 1,
            final(self).results().drop_last() == old(self).results(),
            same_result(final(self).results().last(), r),
    {
        let summary = concat3("[stub] ", q.prompt.as_str(), "");
        proof {
            reveal_strlit("");
            assert(summary@ =~= summary_of(q.prompt@));
        }
        let result = ResearchResult {
            query_id: q.query_id,
            summary,
            sources_used: q.sources,
            confidence_pct: RESULT_CONFIDENCE_PCT,
            created_at_ms: now,
        };
        let out = result.duplicate();
        let ghost before = self.results@;
        self.results.push(result);
        assert(self.results@.drop_last() =~= before);
        out
    }

    /// Runs a query, stamped with the current time.
    pub fn run_query(&mut self, q: ResearchQuery) -> (r: ResearchResult)
        ensures
            r.query_id == q.query_id,
            r.summary@ == summary_of(q.prompt@),
            r.sources_used@ == q.sources@,
            r.confidence_pct == RESULT_CONFIDENCE_PCT,
            final(self).results().len() == old(self).results().len() + 1,
            final(self).results().drop_last() == old(self).results(),
            same_result(final(self).results().last(), r),
            exists|tm: u64| #[trigger] at_time(tm)
                && (r.created_at_ms == tm),
    {
        let now = now_ms();
        let r = self.run_query_at(q, now);
        assert(at_time(now));
        r
    }

    /// Up to `limit` of the results last run, most recent first.
    pub fn list_results(&self, limit: usize) -> (r: Vec<&ResearchResult>)
        ensures
            r@.map_values(|x: &ResearchResult| *x) == most_recent_first(latest_runs(self.results(), limit)),
    {
        let n = self.results.len();
        let take = if limit < n { limit } else { n };
        let ghost picked = latest_runs(self.results@, limit);
        let mut out: Vec<&ResearchResult> = Vec::new();
        let mut i: usize = 0;
        while i < take
            invariant
                take <= n == self.results@.len(),
                i <= take,
                picked == latest_runs(self.results@, limit),
                picked.len() == take,
                forall|k: int| 0 <= k < take ==> #[trigger] picked[k] == self.results@[n - 1 - k],
                out@.map_values(|x: &ResearchResult| *x) == most_recent_first(picked.take(i as int)),
            decreases take - i,
        {
            let x = &self.results[n - 1 - i];
            let ghost cur = out@.map_values(|y: &ResearchResult| *y);
            let mut p: usize = 0;
            while p < out.len()
                invariant
                    p <= out@.len(),
                    cur == out@.map_values(|y: &ResearchResult| *y),
                    forall|j: int| 0 <= j < p ==> cur[j].created_at_ms >= x.created_at_ms,
                ensures
                    p <= out@.len(),
                    forall|j: int| 0 <= j < p ==> cur[j].created_at_ms >= x.created_at_ms,
                    p < out@.len() ==> cur[p as int].created_at_ms < x.created_at_ms,
                decreases out@.len() - p,
            {
                if out[p].created_at_ms < x.created_at_ms {
                    break;
                }
                p = p + 1;
            }
            proof {
                lemma_recent_pos_unique(cur, *x, p as int);
                assert(picked.take(i + 1).drop_last() =~= picked.take(i as int));
                assert(picked.take(i + 1).last() == *x);
            }
            out.insert(p, x);
            proof {
                assert(out@.map_values(|y: &ResearchResult| *y) =~= cur.insert(p as int, *x));
            }
            i = i + 1;
        }
        assert(picked.take(take as int) =~= picked);
        out
    }
}

/// A digest of what happened in a period.
#[derive(Debug)]
pub struct DigestReport {
    pub report_id: String,
    pub title: String,
    pub period_start_ms: u64,
    pub period_end_ms: u64,
    pub generated_at_ms: u64,
}

impl DigestReport {
    /// A field-by-field copy.
    pub fn duplicate(&self) -> (r: Self)
        ensures
            r == *self,
    {
        DigestReport {
            report_id: self.report_id.clone(),
            title: self.title.clone(),
            period_start_ms: self.period_start_ms,
            period_end_ms: self.period_end_ms,
            generated_at_ms: self.generated_at_ms,
        }
    }

    /// Whether the period ends after it starts.
    pub fn is_valid_period(&self) -> (r: bool)
        ensures
            r == (self.period_end_ms > self.period_start_ms),
    {
        self.period_end_ms > self.period_start_ms
    }
}

/// The id of a digest made at `now`.
pub open spec fn digest_id_spec(now: u64) -> Seq<char> {
    "digest_"@ + decimal(now as nat)
}

/// Digests in the order they were made.
pub struct InMemoryDigestService {
    reports: Vec<DigestReport>,
}

impl InMemoryDigestService {
    pub closed spec fn reports(&self) -> Seq<DigestReport> {
        self.reports@
    }

    pub fn new() -> (r: Self)
        ensures
            r.reports() == Seq::<DigestReport>::empty(),
    {
        InMemoryDigestService { reports: Vec::new() }
    }

    /// Makes a digest at `now` of the period of `period_ms` that ends then
    /// (starting at zero if the period reaches back further); its id is
    /// `digest_<now>`.
    pub fn generate_digest_at(&mut self, title: String, period_ms: u64, now: u64) -> (r: DigestReport)
        ensures
            r.report_id@ == digest_id_spec(now),
            r.title == title,
            r.period_start_ms == (if period_ms <= now { (now - period_ms) as u64 } else { 0 }),
            r.period_end_ms == now,
            r.generated_at_ms == now,
            final(self).reports() == old(self).reports().push(r),
    {
        let digits = decimal_string(now);
        let id = concat3("digest_", digits.as_str(), "");
        proof {
            reveal_strlit("");
            assert(id@ =~= digest_id_spec(now));
        }
        let report = DigestReport {
            report_id: id,
            title,
            period_start_ms: now.saturating_sub(period_ms),
            period_end_ms: now,
            generated_at_ms: now,
        };
        let out = report.duplicate();
        self.reports.push(report);
        out
    }

    /// Makes a digest of the period that ends now.
    pub fn generate_digest(&mut self, title: String, period_ms: u64) -> (r: DigestReport)
        ensures
            r.title == title,
            r.period_end_ms == r.generated_at_ms,
            r.report_id@ == digest_id_spec(r.generated_at_ms),
            r.period_start_ms == (if period_ms <= r.period_end_ms { (r.period_end_ms - period_ms) as u64 } else { 0 }),
            final(self).reports() == old(self).reports().push(r),
            exists|tm: u64| #[trigger] at_time(tm)
                && (r.report_id@ == digest_id_spec(tm))
                && (r.period_start_ms == (if period_ms <= tm { (tm - period_ms) as u64 } else { 0 }))
                && (r.period_end_ms == tm)
                && (r.generated_at_ms == tm),
    {
        let now = now_ms();
        let r = self.generate_digest_at(title, period_ms, now);
        assert(at_time(now));
        r
    }

    /// Up to `limit` of the digests last made, newest first.
    pub fn list_digests(&self, limit: usize) -> (r: Vec<DigestReport>)
        ensures
            r@ == latest_runs(self.reports(), limit),
    {
        let n = self.reports.len();
        let take = if limit < n { limit } else { n };
        let mut out: Vec<DigestReport> = Vec::new();
        let mut i: usize = 0;
        while i < take
            invariant
                take <= n == self.reports@.len(),
                i <= take,
                forall|k: int| 0 <= k < i ==> #[trigger] out@[k] == self.reports@[n - 1 - k],
                out@.len() == i,
            decreases take - i,
        {
            out.push(self.reports[n - 1 - i].duplicate());
            i = i + 1;
        }
        assert(out@ =~= latest_runs(self.reports@, limit));
        out
    }
}

} // verus!
