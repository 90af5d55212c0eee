//! Per-provider-binding model fallback chain.
//!
//! A [`ModelChain`] is an ordered list of model IDs served by one provider
//! binding. A run walks the chain in order: models under a local
//! rate-limit cooldown are skipped, a fallback-eligible error advances to
//! the next model (starting a cooldown when the model was rate limited),
//! and a non-retryable error (bad credentials, malformed request) stops the
//! walk at once.
//!
//! The walk itself awaits each attempt, so it is offered as a small state
//! machine: [`ModelChain::next_attempt_at`] says which model to try,
//! [`ModelChain::on_result_at`] takes what the attempt returned, and
//! [`ModelChain::finish`] closes an exhausted walk.
use vstd::prelude::*;
use crate::alist::{alist_map, find_key, has_key, keys_unique, lemma_alist_absent, lemma_alist_get, lemma_alist_push, lemma_alist_remove, lemma_alist_update};
use crate::clock::{at_time, now_ms};
use crate::text::{chars_eq, chars_of, decimal, decimal_chars, duration_debug_text, push_all, push_str, string_from_chars, string_views, trim, trim_chars};

verus! {

/// Default cooldown applied after a model returns a rate-limit error:
/// five minutes, in milliseconds.
pub const DEFAULT_RATE_LIMIT_COOLDOWN_MS: u64 = 300_000;

/// What the chain needs to know of a provider error.
pub struct AttemptError {
    /// Short machine-readable class of the error (e.g. `"rate_limited"`).
    pub reason_code: String,
    /// Human-readable description of the error.
    pub message: String,
    /// Whether another model may be tried after this error.
    pub fallback_eligible: bool,
    /// Whether the provider reported a rate limit.
    pub rate_limited: bool,
}

/// A single failed (or skipped) attempt in a model chain.
pub struct FallbackAttempt {
    pub model_id: String,
    pub reason_code: String,
    pub error_message: String,
}

/// Mathematical reading of a [`FallbackAttempt`].
pub struct AttemptView {
    pub model_id: Seq<char>,
    pub reason_code: Seq<char>,
    pub error_message: Seq<char>,
}

impl View for FallbackAttempt {
    type V = AttemptView;

    open spec fn view(&self) -> AttemptView {
        AttemptView {
            model_id: self.model_id@,
            reason_code: self.reason_code@,
            error_message: self.error_message@,
        }
    }
}

pub open spec fn attempt_views(s: Seq<FallbackAttempt>) -> Seq<AttemptView> {
    s.map_values(|a: FallbackAttempt| a@)
}

impl FallbackAttempt {
    /// The record of a failed attempt on `model_id`.
    pub fn new(model_id: &str, err: &AttemptError) -> (r: Self)
        ensures
            r.model_id@ == model_id@,
            r.reason_code@ == err.reason_code@,
            r.error_message@ == err.message@,
    {
        FallbackAttempt {
            model_id: model_id.to_owned(),
            reason_code: err.reason_code.clone(),
            error_message: err.message.clone(),
        }
    }
}

/// Result of walking the fallback chain.
pub enum FallbackOutcome<T> {
    /// One of the models succeeded.
    Success {
        value: T,
        model_id: String,
        /// Position in the chain (0 = preferred model).
        fallback_position: usize,
        attempts: Vec<FallbackAttempt>,
    },
    /// Every model in the chain failed with a fallback-eligible error or was skipped.
    Exhausted { attempts: Vec<FallbackAttempt> },
    /// A model returned an error that must not be retried on another model.
    NonRetryable { model_id: String, err: AttemptError, attempts: Vec<FallbackAttempt> },
}

impl<T> FallbackOutcome<T> {
    pub open spec fn attempts_of(&self) -> Seq<FallbackAttempt> {
        match self {
            FallbackOutcome::Success { attempts, .. } => attempts@,
            FallbackOutcome::Exhausted { attempts } => attempts@,
            FallbackOutcome::NonRetryable { attempts, .. } => attempts@,
        }
    }

    /// Number of recorded attempts.
    pub fn attempt_count(&self) -> (r: usize)
        ensures
            r == self.attempts_of().len(),
    {
        match self {
            FallbackOutcome::Success { attempts, .. } => attempts.len(),
            FallbackOutcome::Exhausted { attempts } => attempts.len(),
            FallbackOutcome::NonRetryable { attempts, .. } => attempts.len(),
        }
    }
}

/// In-memory cooldown map: model ID → time (ms) until which it is skipped.
pub struct CooldownMap {
    entries: Vec<(String, u64)>,
}

pub open spec fn cooldown_entries(s: Seq<(String, u64)>) -> Seq<(Seq<char>, u64)> {
    s.map_values(|e: (String, u64)| (e.0@, e.1))
}

impl View for CooldownMap {
    type V = Map<Seq<char>, u64>;

    closed spec fn view(&self) -> Map<Seq<char>, u64> {
        alist_map(cooldown_entries(self.entries@))
    }
}

/// The keys of `m` whose deadline lies after `now`.
pub open spec fn live_keys(m: Map<Seq<char>, u64>, now: u64) -> Set<Seq<char>> {
    m.dom().filter(|k: Seq<char>| m[k] > now)
}

impl CooldownMap {
    pub closed spec fn wf(&self) -> bool {
        keys_unique(cooldown_entries(self.entries@))
    }

    /// An empty cooldown map.
    pub fn new() -> (r: Self)
        ensures
            r.wf(),
            r@ == Map::<Seq<char>, u64>::empty(),
    {
        let r = CooldownMap { entries: Vec::new() };
        assert(r@ =~= Map::<Seq<char>, u64>::empty());
        r
    }

    fn locate(&self, key: &String) -> (r: Option<usize>)
        requires
            self.wf(),
        ensures
            match r {
                Some(i) => i < self.entries@.len() && self.entries@[i as int].0@ == key@
                    && self@.contains_key(key@) && self@[key@] == self.entries@[i as int].1,
                None => !self@.contains_key(key@),
            },
    {
        let r = find_key(&self.entries, key);
        proof {
            let s = cooldown_entries(self.entries@);
            match r {
                Some(i) => {
                    lemma_alist_get(s, i as int);
                },
                None => {
                    assert forall|j: int| 0 <= j < s.len() implies #[trigger] s[j].0 != key@ by {
                        assert(s[j].0 == self.entries@[j].0@);
                    }
                    lemma_alist_absent(s, key@);
                },
            }
        }
        r
    }

    /// Starts (or restarts) a cooldown for `model_id` lasting `duration_ms`
    /// from `now`; the deadline saturates at the largest time.
    pub fn record_at(&mut self, model_id: &str, duration_ms: u64, now: u64)
        requires
            old(self).wf(),
        ensures
            final(self).wf(),
            final(self)@ == old(self)@.insert(
                model_id@,
                if now + duration_ms <= u64::MAX {
                    (now + duration_ms) as u64
                } else {
                    u64::MAX
                },
            ),
    {
        let until = now.saturating_add(duration_ms);
        let key = model_id.to_owned();
        let ghost s = cooldown_entries(self.entries@);
        match self.locate(&key) {
            Some(i) => {
                self.entries.set(i, (key, until));
                proof {
                    lemma_alist_update(s, i as int, until);
                    assert(cooldown_entries(self.entries@) =~= s.update(i as int, (s[i as int].0, until)));
                }
            },
            None => {
                let ghost k = key@;
                proof {
                    if has_key(s, k) {
                        let j = choose|j: int| 0 <= j < s.len() && s[j].0 == k;
                        lemma_alist_get(s, j);
                    }
                }
                self.entries.push((key, until));
                proof {
                    lemma_alist_push(s, k, until);
                    assert(cooldown_entries(self.entries@) =~= s.push((k, until)));
                }
            },
        }
    }

    /// Starts a cooldown for `model_id` lasting `duration_ms` from now: its
    /// deadline is `duration_ms` after the time the clock gave.
    pub fn record(&mut self, model_id: &str, duration_ms: u64)
        requires
            old(self).wf(),
        ensures
            final(self).wf(),
            exists|t: u64| final(self)@ == old(self)@.insert(model_id@, #[trigger] deadline(t, duration_ms)),
    {
        let now = now_ms();
        self.record_at(model_id, duration_ms, now);
        assert(self@ == old(self)@.insert(model_id@, deadline(now, duration_ms)));
    }

    /// Whether `model_id` is cooling down at `now`. An expired entry is
    /// removed on the way.
    pub fn is_cooling_down_at(&mut self, model_id: &str, now: u64) -> (r: bool)
        requires
            old(self).wf(),
        ensures
            final(self).wf(),
            r == (old(self)@.contains_key(model_id@) && old(self)@[model_id@] > now),
            final(self)@ == if old(self)@.contains_key(model_id@) && old(self)@[model_id@] <= now {
                old(self)@.remove(model_id@)
            } else {
                old(self)@
            },
    {
        let key = model_id.to_owned();
        match self.locate(&key) {
            Some(i) => {
                if self.entries[i].1 > now {
                    true
                } else {
                    let ghost s = cooldown_entries(self.entries@);
                    self.entries.remove(i);
                    proof {
                        lemma_alist_remove(s, i as int);
                        assert(cooldown_entries(self.entries@) =~= s.remove(i as int));
                    }
                    false
                }
            },
            None => false,
        }
    }

    /// Whether `model_id` is cooling down now.
    pub fn is_cooling_down(&mut self, model_id: &str) -> (r: bool)
        requires
            old(self).wf(),
        ensures
            final(self).wf(),
            r ==> old(self)@.contains_key(model_id@),
            r ==> final(self)@ == old(self)@,
            !old(self)@.contains_key(model_id@) ==> final(self)@ == old(self)@,
            exists|tm: u64| #[trigger] at_time(tm)
                && (r == (old(self)@.contains_key(model_id@) && old(self)@[model_id@] > tm))
                && (final(self)@ == if old(self)@.contains_key(model_id@) && old(self)@[model_id@] <= tm {
                    old(self)@.remove(model_id@)
                } else {
                    old(self)@
                }),
    {
        let now = now_ms();
        let r = self.is_cooling_down_at(model_id, now);
        assert(at_time(now));
        r
    }

    /// Drops expired entries and counts the live ones at `now`.
    #[verifier::spinoff_prover]
    pub fn len_at(&mut self, now: u64) -> (r: usize)
        requires
            old(self).wf(),
        ensures
            final(self).wf(),
            final(self)@ == old(self)@.restrict(live_keys(old(self)@, now)),
            r == live_keys(old(self)@, now).len(),
    {
        let ghost m0 = self@;
        let mut kept: Vec<(String, u64)> = Vec::new();
        let mut i: usize = 0;
        let ghost s = cooldown_entries(self.entries@);
        let ghost mut src: Seq<int> = Seq::empty();
        while i < self.entries.len()
            invariant
                s == cooldown_entries(self.entries@),
                keys_unique(s),
                m0 == alist_map(s),
                i <= s.len(),
                keys_unique(cooldown_entries(kept@)),
                src.len() == kept@.len(),
                forall|a: int| 0 <= a < src.len() ==> 0 <= #[trigger] src[a] < i && cooldown_entries(kept@)[a] == s[src[a]] && s[src[a]].1 > now,
                forall|j: int| 0 <= j < i && #[trigger] s[j].1 > now ==> has_key(cooldown_entries(kept@), s[j].0),
            decreases s.len() - i,
        {
            let ghost kv = cooldown_entries(kept@);
            if self.entries[i].1 > now {
                proof {
                    assert(s[i as int].0 == self.entries@[i as int].0@);
                    if has_key(kv, s[i as int].0) {
                        let a = choose|a: int| 0 <= a < kv.len() && kv[a].0 == s[i as int].0;
                        let j = src[a];
                        assert(s[j].0 == s[i as int].0);
                    }
                }
                kept.push((self.entries[i].0.clone(), self.entries[i].1));
                proof {
                    let kv2 = cooldown_entries(kept@);
                    assert(kv2 =~= kv.push(s[i as int]));
                    lemma_alist_push(kv, s[i as int].0, s[i as int].1);
                    let src2 = src.push(i as int);
                    assert forall|a: int| 0 <= a < src2.len() implies 0 <= #[trigger] src2[a] < i + 1 && kv2[a] == s[src2[a]] && s[src2[a]].1 > now by {
                        if a < kv.len() {
                            assert(kv2[a] == kv[a]);
                            assert(src2[a] == src[a]);
                        } else {
                            assert(kv2[a] == s[i as int]);
                        }
                    }
                    src = src2;
                    assert forall|j: int| 0 <= j < i + 1 && #[trigger] s[j].1 > now implies has_key(kv2, s[j].0) by {
                        if j < i {
                            let a = choose|a: int| 0 <= a < kv.len() && kv[a].0 == s[j].0;
                            assert(kv2[a] == kv[a]);
                        } else {
                            assert(kv2[kv.len() as int].0 == s[j].0);
                        }
                    }
                }
            }
            i = i + 1;
        }
        let r = kept.len();
        self.entries = kept;
        proof {
            let kv = cooldown_entries(self.entries@);
            let live = live_keys(m0, now);
            assert forall|k: Seq<char>| alist_map(kv).contains_key(k) <==> #[trigger] live.contains(k) by {
                if has_key(kv, k) {
                    let a = choose|a: int| 0 <= a < kv.len() && kv[a].0 == k;
                    let j = src[a];
                    lemma_alist_get(s, j);
                }
                if live.contains(k) {
                    let j = choose|j: int| 0 <= j < s.len() && s[j].0 == k;
                    lemma_alist_get(s, j);
                }
            }
            assert forall|k: Seq<char>| #[trigger] alist_map(kv).contains_key(k) implies alist_map(kv)[k] == m0[k] by {
                let a = choose|a: int| 0 <= a < kv.len() && kv[a].0 == k;
                let j = src[a];
                lemma_alist_get(s, j);
                lemma_alist_get(kv, a);
            }
            assert(self@ == alist_map(kv));
            assert forall|k: Seq<char>| #[trigger] live.contains(k) implies m0.contains_key(k) by {}
            assert forall|k: Seq<char>| #[trigger] alist_map(kv).dom().contains(k) <==> m0.restrict(live).dom().contains(k) by {
                assert(alist_map(kv).contains_key(k) <==> live.contains(k));
                if live.contains(k) {
                    assert(m0.contains_key(k));
                }
            }
            assert(alist_map(kv).dom() =~= m0.restrict(live).dom());
            assert(alist_map(kv) =~= m0.restrict(live));
            crate::alist::lemma_alist_len(kv);
            assert(self@.dom() =~= live);
        }
        r
    }

    /// Number of models cooling down now.
    pub fn len(&mut self) -> (r: usize)
        requires
            old(self).wf(),
        ensures
            final(self).wf(),
            r <= old(self)@.len(),
    {
        let now = now_ms();
        let r = self.len_at(now);
        proof {
            crate::alist::lemma_alist_len(cooldown_entries(old(self).entries@));
            vstd::set_lib::lemma_len_subset(live_keys(old(self)@, now), old(self)@.dom());
        }
        r
    }

    /// Whether no model is cooling down now.
    pub fn is_empty(&mut self) -> (r: bool)
        requires
            old(self).wf(),
        ensures
            final(self).wf(),
            old(self)@.len() == 0 ==> r,
    {
        self.len() == 0
    }
}

/// The models of a chain built from `input`: each candidate trimmed,
/// empty candidates and repeats dropped, first occurrences kept in order.
pub open spec fn chain_models(input: Seq<Seq<char>>) -> Seq<Seq<char>>
    decreases input.len(),
{
    if input.len() == 0 {
        Seq::empty()
    } else {
        let p = chain_models(input.drop_last());
        let t = trim(input.last());
        if t.len() == 0 || p.contains(t) {
            p
        } else {
            p.push(t)
        }
    }
}

/// A chain holds exactly the non-empty trimmed candidates: a model is in it
/// when some candidate trims to it, and every model in it is a non-empty
/// trimmed candidate.
pub proof fn law_chain_models_are_the_trimmed_candidates(input: Seq<Seq<char>>)
    ensures
        forall|i: int| 0 <= i < input.len() && #[trigger] trim(input[i]).len() > 0 ==> chain_models(input).contains(trim(input[i])),
        forall|k: int| 0 <= k < chain_models(input).len() ==> exists|i: int|
            0 <= i < input.len() && #[trigger] trim(input[i]) == #[trigger] chain_models(input)[k],
    decreases input.len(),
{
    if input.len() > 0 {
        let p = input.drop_last();
        law_chain_models_are_the_trimmed_candidates(p);
        let cp = chain_models(p);
        let c = chain_models(input);
        let n = input.len() - 1;
        assert forall|i: int| 0 <= i < input.len() && #[trigger] trim(input[i]).len() > 0 implies c.contains(trim(input[i])) by {
            if i < n {
                assert(input[i] == p[i]);
                assert(cp.contains(trim(p[i])));
                let j = choose|j: int| 0 <= j < cp.len() && cp[j] == trim(p[i]);
                assert(c[j] == cp[j]);
            } else if !cp.contains(trim(input[i])) {
                assert(c[cp.len() as int] == trim(input[i]));
            }
        }
        assert forall|k: int| 0 <= k < c.len() implies exists|i: int|
            0 <= i < input.len() && #[trigger] trim(input[i]) == #[trigger] c[k] by {
            if k < cp.len() {
                assert(c[k] == cp[k]);
                let i = choose|i: int| 0 <= i < p.len() && #[trigger] trim(p[i]) == #[trigger] cp[k];
                assert(input[i] == p[i]);
            } else {
                assert(trim(input[n]) == c[k]);
            }
        }
    }
}

pub proof fn lemma_chain_models_unique(input: Seq<Seq<char>>)
    ensures
        chain_models(input).no_duplicates(),
        forall|i: int| 0 <= i < chain_models(input).len() ==> #[trigger] chain_models(input)[i].len() > 0,
    decreases input.len(),
{
    if input.len() > 0 {
        lemma_chain_models_unique(input.drop_last());
    }
}

/// Per-binding model fallback chain.
pub struct ModelChain {
    models: Vec<String>,
    cooldown: CooldownMap,
    rate_limit_cooldown_ms: u64,
}

/// Progress of one walk over a chain.
pub struct ChainRun {
    position: usize,
    attempts: Vec<FallbackAttempt>,
}

impl ChainRun {
    /// Index of the model the walk stands at.
    pub closed spec fn position(&self) -> nat {
        self.position as nat
    }

    /// Attempts recorded so far.
    pub closed spec fn attempts(&self) -> Seq<AttemptView> {
        attempt_views(self.attempts@)
    }
}

/// The note recorded for a model skipped because of its cooldown.
pub open spec fn cooldown_skip_message(cooldown_ms: u64) -> Seq<char> {
    "skipped \u{2014} model under local rate-limit cooldown for "@ + duration_debug_text(cooldown_ms)
}


/// `format!("{:?}", Duration::from_millis(ms))`: the `Debug` rendering of a
/// duration, as [`duration_debug_text`] states it.
#[verifier::external_body]
fn duration_debug(ms: u64) -> (s: String)
    ensures
        s@ == duration_debug_text(ms),
{
    format!("{:?}", std::time::Duration::from_millis(ms))
}

impl ModelChain {
    /// The chain's model IDs, in order.
    pub closed spec fn model_seq(&self) -> Seq<Seq<char>> {
        string_views(self.models@)
    }

    /// The chain's cooldown map.
    pub closed spec fn cooldowns(&self) -> Map<Seq<char>, u64> {
        self.cooldown@
    }

    /// Cooldown applied after a rate-limit error, in milliseconds.
    pub closed spec fn cooldown_ms(&self) -> u64 {
        self.rate_limit_cooldown_ms
    }

    pub closed spec fn wf(&self) -> bool {
        &&& self.cooldown.wf()
        &&& string_views(self.models@).no_duplicates()
    }

    /// Builds a chain from an ordered list of model IDs: candidates are
    /// trimmed, empties and duplicates dropped, first occurrences kept.
    pub fn new(models: Vec<String>) -> (r: Self)
        ensures
            r.wf(),
            r.model_seq() == chain_models(string_views(models@)),
            r.cooldowns() == Map::<Seq<char>, u64>::empty(),
            r.cooldown_ms() == DEFAULT_RATE_LIMIT_COOLDOWN_MS,
    {
        let ghost input = string_views(models@);
        let mut deduped: Vec<Vec<char>> = Vec::new();
        let mut i: usize = 0;
        while i < models.len()
            invariant
                i <= models@.len(),
                input == string_views(models@),
                deduped@.map_values(|v: Vec<char>| v@) == chain_models(input.take(i as int)),
            decreases models@.len() - i,
        {
            assert(input.take(i + 1).drop_last() =~= input.take(i as int));
            let raw = chars_of(models[i].as_str());
            let cand = trim_chars(raw.as_slice());
            let ghost p = chain_models(input.take(i as int));
            if cand.len() > 0 {
                let mut found = false;
                let mut j: usize = 0;
                while j < deduped.len()
                    invariant
                        j <= deduped@.len(),
                        deduped@.map_values(|v: Vec<char>| v@) == p,
                        found == exists|a: int| 0 <= a < j && #[trigger] p[a] == cand@,
                    decreases deduped@.len() - j,
                {
                    if chars_eq(deduped[j].as_slice(), cand.as_slice()) {
                        found = true;
                    }
                    proof {
                        assert(p[j as int] == deduped@[j as int]@);
                    }
                    j = j + 1;
                }
                if !found {
                    let ghost before = deduped@;
                    deduped.push(cand);
                    assert(deduped@.map_values(|v: Vec<char>| v@) =~= p.push(trim(input[i as int])));
                } else {
                    proof {
                        let a = choose|a: int| 0 <= a < p.len() && #[trigger] p[a] == cand@;
                        assert(p.contains(cand@));
                    }
                }
            }
            i = i + 1;
        }
        assert(input.take(models@.len() as int) =~= input);
        let mut out: Vec<String> = Vec::new();
        let mut k: usize = 0;
        while k < deduped.len()
            invariant
                k <= deduped@.len(),
                out@.len() == k,
                forall|a: int| 0 <= a < k ==> #[trigger] out@[a]@ == deduped@[a]@,
            decreases deduped@.len() - k,
        {
            out.push(string_from_chars(deduped[k].as_slice()));
            k = k + 1;
        }
        assert(string_views(out@) =~= deduped@.map_values(|v: Vec<char>| v@));
        proof {
            lemma_chain_models_unique(input);
        }
        ModelChain {
            models: out,
            cooldown: CooldownMap::new(),
            rate_limit_cooldown_ms: DEFAULT_RATE_LIMIT_COOLDOWN_MS,
        }
    }

    /// A chain with a single model and no fallbacks.
    pub fn single(model_id: String) -> (r: Self)
        ensures
            r.wf(),
            r.model_seq() == chain_models(seq![model_id@]),
            r.cooldown_ms() == DEFAULT_RATE_LIMIT_COOLDOWN_MS,
    {
        let mut v: Vec<String> = Vec::new();
        v.push(model_id);
        assert(string_views(v@) =~= seq![v@[0]@]);
        Self::new(v)
    }

    /// The same chain with another rate-limit cooldown.
    pub fn with_rate_limit_cooldown(self, duration_ms: u64) -> (r: Self)
        ensures
            r.wf() == self.wf(),
            r.model_seq() == self.model_seq(),
            r.cooldowns() == self.cooldowns(),
            r.cooldown_ms() == duration_ms,
    {
        ModelChain { rate_limit_cooldown_ms: duration_ms, ..self }
    }

    /// The same chain using another cooldown map.
    pub fn with_cooldown(self, map: CooldownMap) -> (r: Self)
        ensures
            self.wf() && map.wf() ==> r.wf(),
            r.model_seq() == self.model_seq(),
            r.cooldowns() == map@,
            r.cooldown_ms() == self.cooldown_ms(),
    {
        ModelChain { cooldown: map, ..self }
    }

    /// The chain's cooldown map, to hand to another chain (with
    /// [`ModelChain::with_cooldown`]) so that both see the same cooldowns.
    pub fn into_cooldown(self) -> (r: CooldownMap)
        ensures
            self.wf() ==> r.wf(),
            r@ == self.cooldowns(),
    {
        self.cooldown
    }

    /// The model IDs, in order.
    pub fn models(&self) -> (r: &[String])
        ensures
            string_views(r@) == self.model_seq(),
    {
        self.models.as_slice()
    }

    /// The preferred (first) model.
    pub fn preferred(&self) -> (r: Option<&str>)
        ensures
            match r {
                Some(m) => self.model_seq().len() > 0 && m@ == self.model_seq()[0],
                None => self.model_seq().len() == 0,
            },
    {
        if self.models.len() == 0 {
            None
        } else {
            Some(self.models[0].as_str())
        }
    }

    pub fn is_empty(&self) -> (r: bool)
        ensures
            r == (self.model_seq().len() == 0),
    {
        self.models.len() == 0
    }

    pub fn len(&self) -> (r: usize)
        ensures
            r == self.model_seq().len(),
    {
        self.models.len()
    }

    /// Cooldown applied after a rate-limit error, in milliseconds.
    pub fn rate_limit_cooldown(&self) -> (r: u64)
        ensures
            r == self.cooldown_ms(),
    {
        self.rate_limit_cooldown_ms
    }

    /// A fresh walk at the preferred model with no attempts.
    pub fn start_run(&self) -> (r: ChainRun)
        ensures
            r.position() == 0,
            r.attempts() == Seq::<AttemptView>::empty(),
    {
        let r = ChainRun { position: 0, attempts: Vec::new() };
        assert(r.attempts() =~= Seq::<AttemptView>::empty());
        r
    }

    /// Advances the walk past models cooling down at `now`, recording a
    /// `cooldown_skip` attempt for each, and names the next model to try;
    /// `None` when the chain is exhausted.
    pub fn next_attempt_at(&mut self, run: &mut ChainRun, now: u64) -> (r: Option<String>)
        requires
            old(self).wf(),
            old(run).position() <= old(self).model_seq().len(),
        ensures
            final(self).wf(),
            final(self).model_seq() == old(self).model_seq(),
            final(self).cooldown_ms() == old(self).cooldown_ms(),
            old(run).position() <= final(run).position() <= old(self).model_seq().len(),
            final(run).attempts().len() == old(run).attempts().len() + (final(run).position() - old(run).position()),
            forall|i: int| 0 <= i < old(run).attempts().len() ==> #[trigger] final(run).attempts()[i] == old(run).attempts()[i],
            forall|p: int| old(run).position() <= p < final(run).position() ==> {
                let a = #[trigger] final(run).attempts()[old(run).attempts().len() + p - old(run).position()];
                &&& a.model_id == old(self).model_seq()[p]
                &&& a.reason_code == "cooldown_skip"@
                &&& a.error_message == cooldown_skip_message(old(self).cooldown_ms())
                &&& old(self).cooldowns().contains_key(old(self).model_seq()[p])
                &&& old(self).cooldowns()[old(self).model_seq()[p]] > now
            },
            match r {
                Some(m) => final(run).position() < old(self).model_seq().len()
                    && m@ == old(self).model_seq()[final(run).position() as int]
                    && !(old(self).cooldowns().contains_key(m@) && old(self).cooldowns()[m@] > now),
                None => final(run).position() == old(self).model_seq().len(),
            },
            final(run).position() > old(run).position() ==> old(self).cooldowns().contains_key(
                old(self).model_seq()[old(run).position() as int],
            ) && old(self).cooldowns()[old(self).model_seq()[old(run).position() as int]] > now,
            final(self).cooldowns() == match r {
                Some(m) => if old(self).cooldowns().contains_key(m@) && old(self).cooldowns()[m@] <= now {
                    old(self).cooldowns().remove(m@)
                } else {
                    old(self).cooldowns()
                },
                None => old(self).cooldowns(),
            },
    {
        let ghost start_attempts = run.attempts();
        let ghost start_pos = run.position;
        let ghost models = self.model_seq();
        let ghost cd0 = self.cooldown@;
        while run.position < self.models.len()
            invariant
                self.cooldown.wf(),
                models == old(self).model_seq(),
                start_pos == old(run).position(),
                start_attempts == old(run).attempts(),
                cd0 == old(self).cooldowns(),
                self.cooldown@ == cd0,
                run.position > start_pos ==> cd0.contains_key(models[start_pos as int]) && cd0[models[start_pos as int]] > now,
                string_views(self.models@).no_duplicates(),
                self.model_seq() == models,
                self.cooldown_ms() == old(self).cooldown_ms(),
                models.no_duplicates(),
                start_pos <= run.position <= models.len(),
                run.attempts().len() == start_attempts.len() + (run.position - start_pos),
                forall|i: int| 0 <= i < start_attempts.len() ==> #[trigger] run.attempts()[i] == start_attempts[i],
                forall|p: int| start_pos <= p < run.position ==> {
                    let a = #[trigger] run.attempts()[start_attempts.len() + p - start_pos];
                    &&& a.model_id == models[p]
                    &&& a.reason_code == "cooldown_skip"@
                    &&& a.error_message == cooldown_skip_message(old(self).cooldown_ms())
                    &&& cd0.contains_key(models[p])
                    &&& cd0[models[p]] > now
                },
                forall|p: int| run.position <= p < models.len() ==> (#[trigger] self.cooldown@.contains_key(models[p]) <==> cd0.contains_key(models[p])),
                forall|p: int| run.position <= p < models.len() && #[trigger] self.cooldown@.contains_key(models[p]) ==> self.cooldown@[models[p]] == cd0[models[p]],
            decreases models.len() - run.position,
        {
            let pos = run.position;
            let model = self.models[pos].clone();
            let ghost cd_before = self.cooldown@;
            let cooling = self.cooldown.is_cooling_down_at(model.as_str(), now);
            proof {
                assert forall|p: int| pos < p < models.len() implies (#[trigger] self.cooldown@.contains_key(models[p]) <==> cd0.contains_key(models[p])) by {
                    assert(models[p] != models[pos as int]);
                }
            }
            if !cooling {
                return Some(model);
            }
            let mut msg: Vec<char> = Vec::new();
            push_str(&mut msg, "skipped \u{2014} model under local rate-limit cooldown for ");
            let d = duration_debug(self.rate_limit_cooldown_ms);
            push_str(&mut msg, d.as_str());
            let ghost prev = run.attempts();
            run.attempts.push(FallbackAttempt {
                model_id: model,
                reason_code: "cooldown_skip".to_owned(),
                error_message: string_from_chars(msg.as_slice()),
            });
            run.position = pos + 1;
            proof {
                assert(run.attempts() =~= prev.push(run.attempts@.last()@));
                assert forall|p: int| start_pos <= p < run.position implies {
                    let a = #[trigger] run.attempts()[start_attempts.len() + p - start_pos];
                    &&& a.model_id == models[p]
                    &&& a.reason_code == "cooldown_skip"@
                    &&& a.error_message == cooldown_skip_message(old(self).cooldown_ms())
                    &&& cd0.contains_key(models[p])
                    &&& cd0[models[p]] > now
                } by {
                    if p < pos {
                        assert(run.attempts()[start_attempts.len() + p - start_pos] == prev[start_attempts.len() + p - start_pos]);
                    }
                }
            }
        }
        None
    }

    /// Takes the outcome of the attempt on the model the walk stands at.
    /// A success ends the walk; a non-retryable error ends it too; any
    /// other error is recorded (starting the model's cooldown at `now`
    /// when it was a rate limit) and the walk moves on (`Err` carries it).
    pub fn on_result_at<T>(&mut self, run: ChainRun, result: Result<T, AttemptError>, now: u64) -> (r: Result<FallbackOutcome<T>, ChainRun>)
        requires
            old(self).wf(),
            run.position() < old(self).model_seq().len(),
        ensures
            final(self).wf(),
            final(self).model_seq() == old(self).model_seq(),
            final(self).cooldown_ms() == old(self).cooldown_ms(),
            match result {
                Ok(v) => final(self).cooldowns() == old(self).cooldowns() && match r {
                    Ok(FallbackOutcome::Success { value, model_id, fallback_position, attempts }) =>
                        value == v && model_id@ == old(self).model_seq()[run.position() as int]
                        && fallback_position == run.position() && attempt_views(attempts@) == run.attempts(),
                    _ => false,
                },
                Err(e) => {
                    let rec = AttemptView {
                        model_id: old(self).model_seq()[run.position() as int],
                        reason_code: e.reason_code@,
                        error_message: e.message@,
                    };
                    if !e.fallback_eligible {
                        final(self).cooldowns() == old(self).cooldowns() && match r {
                            Ok(FallbackOutcome::NonRetryable { model_id, err, attempts }) =>
                                model_id@ == old(self).model_seq()[run.position() as int]
                                && err == e && attempt_views(attempts@) == run.attempts().push(rec),
                            _ => false,
                        }
                    } else {
                        &&& final(self).cooldowns() == if e.rate_limited {
                            old(self).cooldowns().insert(
                                old(self).model_seq()[run.position() as int],
                                if now + old(self).cooldown_ms() <= u64::MAX {
                                    (now + old(self).cooldown_ms()) as u64
                                } else {
                                    u64::MAX
                                },
                            )
                        } else {
                            old(self).cooldowns()
                        }
                        &&& match r {
                            Err(next) => next.position() == run.position() + 1
                                && next.attempts() == run.attempts().push(rec),
                            _ => false,
                        }
                    }
                },
            },
    {
        let pos = run.position;
        let model_id = self.models[pos].clone();
        match result {
            Ok(value) => {
                let ChainRun { position, attempts } = run;
                Ok(FallbackOutcome::Success { value, model_id, fallback_position: position, attempts })
            },
            Err(err) => {
                let ChainRun { position, mut attempts } = run;
                let n = self.models.len();
                assert(position < n);
                let ghost prev = attempt_views(attempts@);
                let rec = FallbackAttempt::new(model_id.as_str(), &err);
                attempts.push(rec);
                assert(attempt_views(attempts@) =~= prev.push(attempts@.last()@));
                if !err.fallback_eligible {
                    return Ok(FallbackOutcome::NonRetryable { model_id, err, attempts });
                }
                if err.rate_limited {
                    self.cooldown.record_at(model_id.as_str(), self.rate_limit_cooldown_ms, now);
                }
                Err(ChainRun { position: position + 1, attempts })
            },
        }
    }

    /// Closes an exhausted walk.
    pub fn finish<T>(&self, run: ChainRun) -> (r: FallbackOutcome<T>)
        ensures
            match r {
                FallbackOutcome::Exhausted { attempts } => attempt_views(attempts@) == run.attempts(),
                _ => false,
            },
    {
        FallbackOutcome::Exhausted { attempts: run.attempts }
    }
}

/// The record of a failed attempt on a model.
pub open spec fn failed_view(model_id: Seq<char>, e: AttemptError) -> AttemptView {
    AttemptView { model_id, reason_code: e.reason_code@, error_message: e.message@ }
}

/// A cooldown deadline `ms` after `now`, saturating.
pub open spec fn deadline(now: u64, ms: u64) -> u64 {
    if now + ms <= u64::MAX { (now + ms) as u64 } else { u64::MAX }
}

/// Whether `m` is cooling down at `now` in `cd`.
pub open spec fn cooling_at(cd: Map<Seq<char>, u64>, m: Seq<char>, now: u64) -> bool {
    cd.contains_key(m) && cd[m] > now
}

/// The record of a model skipped because of its cooldown.
pub open spec fn skip_view(model_id: Seq<char>, cooldown_ms: u64) -> AttemptView {
    AttemptView { model_id, reason_code: "cooldown_skip"@, error_message: cooldown_skip_message(cooldown_ms) }
}

/// `a` is what a run at `now` records for the model at position `i`: a skip
/// when the model was cooling down in `cd`; otherwise the record of an error
/// that `attempt` can give for the model and that allows a fallback, after
/// which a rate-limited model cools down in `cd_after` until
/// `deadline(now, cooldown_ms)`.
pub open spec fn attempt_record<T, F: Fn(String) -> Result<T, AttemptError>>(
    models: Seq<Seq<char>>,
    cd: Map<Seq<char>, u64>,
    cd_after: Map<Seq<char>, u64>,
    cooldown_ms: u64,
    attempt: F,
    now: u64,
    i: int,
    a: AttemptView,
) -> bool {
    if cooling_at(cd, models[i], now) {
        a == skip_view(models[i], cooldown_ms)
    } else {
        exists|m: String, e: AttemptError|
            #![trigger call_ensures(attempt, (m,), Err::<T, AttemptError>(e))]
            m@ == models[i] && call_ensures(attempt, (m,), Err::<T, AttemptError>(e)) && e.fallback_eligible
                && a == failed_view(models[i], e) && (e.rate_limited ==> cd_after.contains_key(models[i])
                && cd_after[models[i]] == deadline(now, cooldown_ms))
    }
}

/// The first `k` records of `atts` are what a run records for the first `k`
/// models.
pub open spec fn records_upto<T, F: Fn(String) -> Result<T, AttemptError>>(
    models: Seq<Seq<char>>,
    cd: Map<Seq<char>, u64>,
    cd_after: Map<Seq<char>, u64>,
    cooldown_ms: u64,
    attempt: F,
    now: u64,
    atts: Seq<AttemptView>,
    k: int,
) -> bool {
    forall|i: int| 0 <= i < k ==> #[trigger] attempt_record(models, cd, cd_after, cooldown_ms, attempt, now, i, atts[i])
}

/// What a run at `now` over `models` (cooldowns `cd` at the start, `cd_after`
/// at the end) ends with. A success names the model at its position, which
/// was not cooling down and for which `attempt` can give the value, after a
/// record for each earlier model. A non-retryable outcome names a model not
/// cooling down, an error `attempt` can give for it that allows no fallback,
/// and records each earlier model and then that error. An exhausted outcome
/// has a record for every model.
pub open spec fn run_result<T, F: Fn(String) -> Result<T, AttemptError>>(
    models: Seq<Seq<char>>,
    cd: Map<Seq<char>, u64>,
    cd_after: Map<Seq<char>, u64>,
    cooldown_ms: u64,
    attempt: F,
    r: FallbackOutcome<T>,
    now: u64,
) -> bool {
    match r {
        FallbackOutcome::Success { value, model_id, fallback_position, attempts } => {
            let k = fallback_position as int;
            &&& k < models.len()
            &&& model_id@ == models[k]
            &&& !cooling_at(cd, models[k], now)
            &&& exists|m: String| m@ == models[k] && #[trigger] call_ensures(attempt, (m,), Ok::<T, AttemptError>(value))
            &&& attempts@.len() == k
            &&& records_upto(models, cd, cd_after, cooldown_ms, attempt, now, attempt_views(attempts@), k)
        },
        FallbackOutcome::NonRetryable { model_id, err, attempts } => exists|k: int|
            #![trigger models[k]]
            {
                &&& 0 <= k < models.len()
                &&& model_id@ == models[k]
                &&& !cooling_at(cd, models[k], now)
                &&& !err.fallback_eligible
                &&& exists|m: String| m@ == models[k] && #[trigger] call_ensures(attempt, (m,), Err::<T, AttemptError>(err))
                &&& attempts@.len() == k + 1
                &&& records_upto(models, cd, cd_after, cooldown_ms, attempt, now, attempt_views(attempts@), k)
                &&& attempt_views(attempts@)[k] == failed_view(models[k], err)
            },
        FallbackOutcome::Exhausted { attempts } => attempts@.len() == models.len() && records_upto(
            models,
            cd,
            cd_after,
            cooldown_ms,
            attempt,
            now,
            attempt_views(attempts@),
            models.len() as int,
        ),
    }
}

/// Records stay what a run records when the final cooldowns change only
/// away from the recorded models.
proof fn lemma_records_frame<T, F: Fn(String) -> Result<T, AttemptError>>(
    models: Seq<Seq<char>>,
    cd: Map<Seq<char>, u64>,
    cd1: Map<Seq<char>, u64>,
    cd2: Map<Seq<char>, u64>,
    cooldown_ms: u64,
    attempt: F,
    now: u64,
    atts: Seq<AttemptView>,
    k: int,
)
    requires
        records_upto(models, cd, cd1, cooldown_ms, attempt, now, atts, k),
        forall|i: int| 0 <= i < k ==> (cd1.contains_key(#[trigger] models[i]) == cd2.contains_key(models[i]))
            && (cd1.contains_key(models[i]) ==> cd1[models[i]] == cd2[models[i]]),
    ensures
        records_upto(models, cd, cd2, cooldown_ms, attempt, now, atts, k),
{
    assert forall|i: int| 0 <= i < k implies #[trigger] attempt_record(models, cd, cd2, cooldown_ms, attempt, now, i, atts[i]) by {
        assert(attempt_record(models, cd, cd1, cooldown_ms, attempt, now, i, atts[i]));
        let mi = models[i];
        if !cooling_at(cd, mi, now) {
            let (m, e) = choose|m: String, e: AttemptError|
                #![trigger call_ensures(attempt, (m,), Err::<T, AttemptError>(e))]
                m@ == models[i] && call_ensures(attempt, (m,), Err::<T, AttemptError>(e)) && e.fallback_eligible
                    && atts[i] == failed_view(models[i], e) && (e.rate_limited ==> cd1.contains_key(models[i])
                    && cd1[models[i]] == deadline(now, cooldown_ms));
            assert(call_ensures(attempt, (m,), Err::<T, AttemptError>(e)));
        }
    }
}

/// The exhaustion law of a run started at `now` over `models` with cooldown
/// map `cd` and cooldown `cooldown_ms`, ending with map `cd_after`: when no
/// model is cooling down and every call of `attempt` fails with an error that
/// allows a fallback, `r` is exhausted with one attempt per model, in chain
/// order, each recording an error that `attempt` can give for that model, and
/// each rate-limited model cools down until `deadline(now, cooldown_ms)`.
pub open spec fn exhaustion_law<T, F: Fn(String) -> Result<T, AttemptError>>(
    models: Seq<Seq<char>>,
    cd: Map<Seq<char>, u64>,
    cd_after: Map<Seq<char>, u64>,
    cooldown_ms: u64,
    attempt: F,
    r: FallbackOutcome<T>,
    now: u64,
) -> bool {
    (forall|p: int| 0 <= p < models.len() ==> !(#[trigger] cd.contains_key(models[p]) && cd[models[p]] > now))
        && (forall|m: String, res: Result<T, AttemptError>| #[trigger] call_ensures(attempt, (m,), res)
        ==> (res matches Err(e) && e.fallback_eligible)) ==> (r matches FallbackOutcome::Exhausted { attempts } && exists|
        errs: Seq<AttemptError>,
    | #![trigger errs.len()] {
        &&& errs.len() == models.len()
        &&& attempt_views(attempts@).len() == models.len()
        &&& forall|i: int| 0 <= i < models.len() ==> {
            &&& exists|m: String| m@ == models[i] && #[trigger] call_ensures(attempt, (m,), Err::<T, AttemptError>(errs[i]))
            &&& attempt_views(attempts@)[i] == failed_view(models[i], #[trigger] errs[i])
            &&& errs[i].rate_limited ==> cd_after.contains_key(models[i])
                && cd_after[models[i]] == deadline(now, cooldown_ms)
        }
    })
}

/// The exhaustion law follows from what a run ends with.
proof fn lemma_exhaustion_from_result<T, F: Fn(String) -> Result<T, AttemptError>>(
    models: Seq<Seq<char>>,
    cd: Map<Seq<char>, u64>,
    cd_after: Map<Seq<char>, u64>,
    cooldown_ms: u64,
    attempt: F,
    r: FallbackOutcome<T>,
    now: u64,
)
    requires
        run_result(models, cd, cd_after, cooldown_ms, attempt, r, now),
    ensures
        exhaustion_law(models, cd, cd_after, cooldown_ms, attempt, r, now),
{
    if (forall|p: int| 0 <= p < models.len() ==> !(#[trigger] cd.contains_key(models[p]) && cd[models[p]] > now))
        && (forall|m: String, res: Result<T, AttemptError>| #[trigger] call_ensures(attempt, (m,), res)
        ==> (res matches Err(e) && e.fallback_eligible)) {
        match r {
            FallbackOutcome::Success { value, model_id, fallback_position, attempts } => {
                let m = choose|m: String| m@ == models[fallback_position as int] && #[trigger] call_ensures(attempt, (m,), Ok::<T, AttemptError>(value));
                assert(call_ensures(attempt, (m,), Ok::<T, AttemptError>(value)));
            },
            FallbackOutcome::NonRetryable { model_id, err, attempts } => {
                let k = choose|k: int| #![trigger models[k]] {
                    &&& 0 <= k < models.len()
                    &&& model_id@ == models[k]
                    &&& !cooling_at(cd, models[k], now)
                    &&& !err.fallback_eligible
                    &&& exists|m: String| m@ == models[k] && #[trigger] call_ensures(attempt, (m,), Err::<T, AttemptError>(err))
                    &&& attempts@.len() == k + 1
                    &&& records_upto(models, cd, cd_after, cooldown_ms, attempt, now, attempt_views(attempts@), k)
                    &&& attempt_views(attempts@)[k] == failed_view(models[k], err)
                };
                let m = choose|m: String| m@ == models[k] && #[trigger] call_ensures(attempt, (m,), Err::<T, AttemptError>(err));
                assert(call_ensures(attempt, (m,), Err::<T, AttemptError>(err)));
            },
            FallbackOutcome::Exhausted { attempts } => {
                let atts = attempt_views(attempts@);
                let pick = |i: int| choose|m: String, e: AttemptError|
                    #![trigger call_ensures(attempt, (m,), Err::<T, AttemptError>(e))]
                    m@ == models[i] && call_ensures(attempt, (m,), Err::<T, AttemptError>(e)) && e.fallback_eligible
                        && atts[i] == failed_view(models[i], e) && (e.rate_limited ==> cd_after.contains_key(models[i])
                        && cd_after[models[i]] == deadline(now, cooldown_ms));
                let errs = Seq::new(models.len(), |i: int| pick(i).1);
                assert forall|i: int| 0 <= i < models.len() implies {
                    &&& exists|m: String| m@ == models[i] && #[trigger] call_ensures(attempt, (m,), Err::<T, AttemptError>(errs[i]))
                    &&& atts[i] == failed_view(models[i], #[trigger] errs[i])
                    &&& errs[i].rate_limited ==> cd_after.contains_key(models[i])
                        && cd_after[models[i]] == deadline(now, cooldown_ms)
                } by {
                    assert(attempt_record(models, cd, cd_after, cooldown_ms, attempt, now, i, atts[i]));
                    assert(!(cd.contains_key(models[i]) && cd[models[i]] > now));
                    let (m, e) = pick(i);
                    assert(errs[i] == e);
                    assert(call_ensures(attempt, (m,), Err::<T, AttemptError>(e)));
                }
                assert(errs.len() == models.len());
            },
        }
    }
}

impl ModelChain {
    /// Runs the chain at `now`: walks the models in order, skipping those
    /// cooling down, and calls `attempt` on each other one until one
    /// succeeds, one fails for good, or the chain is exhausted. The outcome
    /// is as [`run_result`] states: a success at the first model that
    /// `attempt` serves, after a record for each model skipped or failed
    /// before it; a non-retryable error from the first model that gives one;
    /// or, when neither happens, an exhausted run with a record per model
    /// (only skips when every model is cooling down).
    ///
    /// When no model is cooling down and every attempt fails with an error
    /// that allows a fallback, the run is exhausted with one attempt per
    /// model, in chain order, each recording its model's error; every model
    /// whose error was a rate limit is then cooling down until
    /// `now + cooldown`.
    pub fn run_at<T, F: Fn(String) -> Result<T, AttemptError>>(&mut self, attempt: F, now: u64) -> (r: FallbackOutcome<T>)
        requires
            old(self).wf(),
            forall|m: String| call_requires(attempt, (m,)),
        ensures
            final(self).wf(),
            final(self).model_seq() == old(self).model_seq(),
            final(self).cooldown_ms() == old(self).cooldown_ms(),
            run_result(old(self).model_seq(), old(self).cooldowns(), final(self).cooldowns(), old(self).cooldown_ms(), attempt, r, now),
            exhaustion_law(old(self).model_seq(), old(self).cooldowns(), final(self).cooldowns(), old(self).cooldown_ms(), attempt, r, now),
    {
        let ghost models = self.model_seq();
        let ghost cd0 = self.cooldowns();
        let ghost ms = self.cooldown_ms();
        let mut run = self.start_run();
        loop
            invariant
                self.wf(),
                self.model_seq() == models,
                self.cooldown_ms() == ms,
                ms == old(self).cooldown_ms(),
                models == old(self).model_seq(),
                cd0 == old(self).cooldowns(),
                models.no_duplicates(),
                forall|m: String| call_requires(attempt, (m,)),
                run.position() <= models.len(),
                run.attempts().len() == run.position(),
                forall|p: int| #![trigger models[p]] run.position() <= p < models.len() ==> (self.cooldowns().contains_key(models[p])
                    == cd0.contains_key(models[p])) && (cd0.contains_key(models[p]) ==> self.cooldowns()[models[p]] == cd0[models[p]]),
                records_upto(models, cd0, self.cooldowns(), ms, attempt, now, run.attempts(), run.position() as int),
            decreases models.len() - run.position(),
        {
            let ghost pos = run.position();
            let ghost atts0 = run.attempts();
            let ghost cd1 = self.cooldowns();
            let next = self.next_attempt_at(&mut run, now);
            let ghost pos1 = run.position();
            let ghost cd1b = self.cooldowns();
            proof {
                assert forall|i: int| 0 <= i < pos1 implies #[trigger] attempt_record(models, cd0, cd1b, ms, attempt, now, i, run.attempts()[i]) by {
                    if i < pos {
                        assert(run.attempts()[i] == atts0[i]);
                        assert(attempt_record(models, cd0, cd1, ms, attempt, now, i, atts0[i]));
                    } else {
                        let a = run.attempts()[atts0.len() + i - pos];
                        assert(a == run.attempts()[i]);
                        assert(cd0.contains_key(models[i]) == cd1.contains_key(models[i]));
                        assert(a == skip_view(models[i], ms));
                    }
                }
                assert(records_upto(models, cd0, cd1, ms, attempt, now, run.attempts(), pos1 as int)) by {
                    assert forall|i: int| 0 <= i < pos1 implies #[trigger] attempt_record(models, cd0, cd1, ms, attempt, now, i, run.attempts()[i]) by {
                        if i < pos {
                            assert(run.attempts()[i] == atts0[i]);
                            assert(attempt_record(models, cd0, cd1, ms, attempt, now, i, atts0[i]));
                        } else {
                            let a = run.attempts()[atts0.len() + i - pos];
                            assert(a == run.attempts()[i]);
                            assert(cd0.contains_key(models[i]) == cd1.contains_key(models[i]));
                            assert(a == skip_view(models[i], ms));
                        }
                    }
                }
                assert forall|i: int| 0 <= i < pos1 implies (cd1.contains_key(#[trigger] models[i]) == cd1b.contains_key(models[i]))
                    && (cd1.contains_key(models[i]) ==> cd1[models[i]] == cd1b[models[i]]) by {
                    if next is Some {
                        assert(models[i] != models[pos1 as int]);
                    }
                }
                lemma_records_frame(models, cd0, cd1, cd1b, ms, attempt, now, run.attempts(), pos1 as int);
            }
            match next {
                None => {
                    let out = self.finish(run);
                    proof {
                        lemma_exhaustion_from_result(models, cd0, self.cooldowns(), ms, attempt, out, now);
                    }
                    return out;
                },
                Some(m) => {
                    let ghost mm = m;
                    proof {
                        assert(cd1.contains_key(models[pos1 as int]) == cd0.contains_key(models[pos1 as int]));
                        assert(!cooling_at(cd0, models[pos1 as int], now));
                    }
                    let res = attempt(m);
                    let ghost atts1 = run.attempts();
                    let step = self.on_result_at(run, res, now);
                    let ghost cd2 = self.cooldowns();
                    proof {
                        assert(call_ensures(attempt, (mm,), res));
                        assert forall|i: int| 0 <= i < pos1 implies (cd1b.contains_key(#[trigger] models[i]) == cd2.contains_key(models[i]))
                            && (cd1b.contains_key(models[i]) ==> cd1b[models[i]] == cd2[models[i]]) by {
                            assert(models[i] != models[pos1 as int]);
                        }
                        lemma_records_frame(models, cd0, cd1b, cd2, ms, attempt, now, atts1, pos1 as int);
                    }
                    match step {
                        Ok(out) => {
                            let ghost og = out;
                            proof {
                                match og {
                                    FallbackOutcome::Success { value, model_id, fallback_position, attempts } => {
                                        assert(attempt_views(attempts@) == atts1);
                                        assert(mm@ == models[pos1 as int]);
                                        assert(call_ensures(attempt, (mm,), Ok::<T, AttemptError>(value)));
                                    },
                                    FallbackOutcome::NonRetryable { model_id, err, attempts } => {
                                        let k = pos1 as int;
                                        assert(call_ensures(attempt, (mm,), Err::<T, AttemptError>(err)));
                                        assert(attempt_views(attempts@) == atts1.push(failed_view(models[k], err)));
                                        assert(records_upto(models, cd0, cd2, ms, attempt, now, attempt_views(attempts@), k)) by {
                                            assert forall|i: int| 0 <= i < k implies #[trigger] attempt_record(models, cd0, cd2, ms, attempt, now, i, attempt_views(attempts@)[i]) by {
                                                assert(attempt_views(attempts@)[i] == atts1[i]);
                                                assert(attempt_record(models, cd0, cd2, ms, attempt, now, i, atts1[i]));
                                            }
                                        }
                                        assert(models[k] == models[k]);
                                    },
                                    FallbackOutcome::Exhausted { attempts } => {},
                                }
                                lemma_exhaustion_from_result(models, cd0, cd2, ms, attempt, og, now);
                            }
                            return out;
                        },
                        Err(next_run) => {
                            proof {
                                let k = pos1 as int;
                                let e = res->Err_0;
                                assert(call_ensures(attempt, (mm,), Err::<T, AttemptError>(e)));
                                assert(next_run.attempts() == atts1.push(failed_view(models[k], e)));
                                assert(attempt_record(models, cd0, cd2, ms, attempt, now, k, next_run.attempts()[k]));
                                assert forall|i: int| 0 <= i < k + 1 implies #[trigger] attempt_record(models, cd0, cd2, ms, attempt, now, i, next_run.attempts()[i]) by {
                                    if i < k {
                                        assert(next_run.attempts()[i] == atts1[i]);
                                        assert(attempt_record(models, cd0, cd2, ms, attempt, now, i, atts1[i]));
                                    }
                                }
                                assert forall|p: int| #![trigger models[p]] next_run.position() <= p < models.len() implies (cd2.contains_key(models[p])
                                    == cd0.contains_key(models[p])) && (cd0.contains_key(models[p]) ==> cd2[models[p]] == cd0[models[p]]) by {
                                    assert(models[p] != models[k]);
                                }
                            }
                            run = next_run;
                        },
                    }
                },
            }
        }
    }

    /// Runs the chain now; what [`ModelChain::run_at`] states holds for the
    /// time the clock gave.
    pub fn run<T, F: Fn(String) -> Result<T, AttemptError>>(&mut self, attempt: F) -> (r: FallbackOutcome<T>)
        requires
            old(self).wf(),
            forall|m: String| call_requires(attempt, (m,)),
        ensures
            final(self).wf(),
            final(self).model_seq() == old(self).model_seq(),
            final(self).cooldown_ms() == old(self).cooldown_ms(),
            exists|t: u64| #[trigger] run_result(
                old(self).model_seq(),
                old(self).cooldowns(),
                final(self).cooldowns(),
                old(self).cooldown_ms(),
                attempt,
                r,
                t,
            ) && exhaustion_law(old(self).model_seq(), old(self).cooldowns(), final(self).cooldowns(), old(self).cooldown_ms(), attempt, r, t),
    {
        let now = now_ms();
        let ghost before = *self;
        let r = self.run_at(attempt, now);
        assert(run_result(before.model_seq(), before.cooldowns(), self.cooldowns(), before.cooldown_ms(), attempt, r, now));
        assert(exhaustion_law(before.model_seq(), before.cooldowns(), self.cooldowns(), before.cooldown_ms(), attempt, r, now));
        r
    }
}

/// Text of one line of an attempt summary (number `n`, 1-based).
pub open spec fn summary_line(n: nat, a: AttemptView) -> Seq<char> {
    "  "@ + decimal(n) + ". ["@ + a.reason_code + "] "@ + a.model_id + " \u{2014} "@ + a.error_message + "\n"@
}

/// Lines for the first `k` attempts.
pub open spec fn summary_lines(s: Seq<AttemptView>, k: nat) -> Seq<char>
    decreases k,
{
    if k == 0 {
        Seq::empty()
    } else {
        summary_lines(s, (k - 1) as nat) + summary_line(k, s[k - 1])
    }
}

/// The summary text for a list of attempts.
pub open spec fn attempt_summary(s: Seq<AttemptView>) -> Seq<char> {
    if s.len() == 0 {
        "no models attempted (fallback chain was empty)"@
    } else {
        "all providers failed:\n"@ + summary_lines(s, s.len())
    }
}

/// One paragraph listing every failed attempt, for an operator.
pub fn format_attempt_summary(attempts: &[FallbackAttempt]) -> (r: String)
    ensures
        r@ == attempt_summary(attempts@.map_values(|a: FallbackAttempt| a@)),
{
    let ghost s = attempts@.map_values(|a: FallbackAttempt| a@);
    if attempts.len() == 0 {
        let r = "no models attempted (fallback chain was empty)".to_owned();
        return r;
    }
    let mut out: Vec<char> = Vec::new();
    push_str(&mut out, "all providers failed:\n");
    let ghost head = out@;
    let mut i: usize = 0;
    while i < attempts.len()
        invariant
            i <= attempts@.len(),
            attempts@.len() <= usize::MAX,
            s == attempts@.map_values(|a: FallbackAttempt| a@),
            head == "all providers failed:\n"@,
            out@ == head + summary_lines(s, i as nat),
        decreases attempts@.len() - i,
    {
        let a = &attempts[i];
        let ghost before = out@;
        push_str(&mut out, "  ");
        let num = decimal_chars((i as u64) + 1);
        push_all(&mut out, num.as_slice());
        push_str(&mut out, ". [");
        push_str(&mut out, a.reason_code.as_str());
        push_str(&mut out, "] ");
        push_str(&mut out, a.model_id.as_str());
        push_str(&mut out, " \u{2014} ");
        push_str(&mut out, a.error_message.as_str());
        push_str(&mut out, "\n");
        proof {
            assert(s[i as int] == a@);
            assert(out@ =~= before + summary_line((i + 1) as nat, s[i as int]));
        }
        i = i + 1;
    }
    string_from_chars(out.as_slice())
}

} // verus!
