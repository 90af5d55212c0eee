//! Triggers: project-scoped rules that bind signals to runs.
//!
//! A trigger names a signal type (and optionally a plugin), conditions on
//! the signal's payload, and a run template. Evaluating a signal walks the
//! project's enabled triggers of that type: each is skipped (already fired
//! for this signal, conditions unmet, chain too deep, a required field
//! missing), rate limited, suspended when the project's hourly budget is
//! spent, or put to the decision layer, which approves (the trigger fires),
//! denies, or asks for approval.
use vstd::prelude::*;
use crate::alist::TextMap;
use crate::clock::{at_time, now_ms};
use crate::domain::ProjectKey;
use crate::json::JsonValue;
use crate::trigger_conditions::{all_hold, evaluate_conditions, resolve, resolve_path, TriggerCondition};
use crate::text::{chars_of, decimal, decimal_chars, opt_str_view, push_all, push_str, string_from_chars, string_views};

verus! {

/// Which signals a trigger matches: a signal type, and optionally a plugin.
#[derive(Debug)]
pub struct SignalPattern {
    pub signal_type: String,
    pub plugin_id: Option<String>,
}

/// Why a trigger was suspended.
#[derive(Debug, Clone, Copy, PartialEq, Eq, Structural)]
pub enum SuspensionReason {
    RateLimitExceeded,
    BudgetExceeded,
    RepeatedFailures { failure_count: u32 },
    OperatorPaused,
}

/// A trigger's lifecycle state.
#[derive(Debug)]
pub enum TriggerState {
    Enabled,
    Disabled { reason: Option<String>, since: u64 },
    Suspended { reason: SuspensionReason, since: u64 },
}

/// A trigger's rate limit.
#[derive(Debug, Clone, Copy, PartialEq, Eq, Structural)]
pub struct RateLimitConfig {
    pub max_per_minute: u32,
    pub max_burst: u32,
}

impl Default for RateLimitConfig {
    fn default() -> (r: Self)
        ensures
            r.max_per_minute == 10,
            r.max_burst == 20,
    {
        RateLimitConfig { max_per_minute: 10, max_burst: 20 }
    }
}

/// Why a fire was skipped.
#[derive(Debug)]
pub enum SkipReason {
    ConditionMismatch,
    ChainTooDeep,
    AlreadyFired,
    MissingRequiredField { field: String },
}

/// A trigger.
#[derive(Debug)]
pub struct Trigger {
    pub id: String,
    pub project: ProjectKey,
    pub name: String,
    pub description: Option<String>,
    pub signal_pattern: SignalPattern,
    pub conditions: Vec<TriggerCondition>,
    pub run_template_id: String,
    pub state: TriggerState,
    pub rate_limit: RateLimitConfig,
    pub max_chain_depth: u8,
    pub created_by: String,
    pub created_at: u64,
    pub updated_at: u64,
}

/// Budget caps of runs made from a template.
#[derive(Debug)]
pub struct TemplateBudget {
    pub max_tokens: Option<u64>,
    pub max_wall_clock_ms: Option<u64>,
    pub max_iterations: Option<u32>,
}

/// A reusable run configuration.
#[derive(Debug)]
pub struct RunTemplate {
    pub id: String,
    pub project: ProjectKey,
    pub name: String,
    pub description: Option<String>,
    /// The run mode, by name.
    pub default_mode: String,
    pub system_prompt: String,
    pub initial_user_message: Option<String>,
    pub plugin_allowlist: Option<Vec<String>>,
    pub tool_allowlist: Option<Vec<String>>,
    pub budget: TemplateBudget,
    pub sandbox_hint: Option<String>,
    pub required_fields: Vec<String>,
    pub created_by: String,
    pub created_at: u64,
    pub updated_at: u64,
}

/// What the decision layer answered for a fire.
#[derive(Debug)]
pub enum DecisionOutcome {
    Approved { decision_id: String },
    Denied { decision_id: String, reason: String },
    PendingApproval { approval_id: String },
}

/// Events of the trigger service.
#[derive(Debug)]
pub enum TriggerEvent {
    TriggerCreated { trigger_id: String, project: ProjectKey, signal_type: String, plugin_id: Option<String>, run_template_id: String, created_by: String, created_at: u64 },
    TriggerEnabled { trigger_id: String, by: String, at: u64 },
    TriggerDisabled { trigger_id: String, by: String, reason: Option<String>, at: u64 },
    TriggerSuspended { trigger_id: String, reason: SuspensionReason, at: u64 },
    TriggerResumed { trigger_id: String, at: u64 },
    TriggerDeleted { trigger_id: String, by: String, at: u64 },
    TriggerFired { trigger_id: String, signal_id: String, signal_type: String, run_id: String, chain_depth: u8, fired_at: u64 },
    TriggerSkipped { trigger_id: String, signal_id: String, reason: SkipReason, skipped_at: u64 },
    TriggerDenied { trigger_id: String, signal_id: String, decision_id: String, reason: String, denied_at: u64 },
    TriggerRateLimited { trigger_id: String, signal_id: String, bucket_remaining: u32, bucket_capacity: u32, rate_limited_at: u64 },
    TriggerPendingApproval { trigger_id: String, signal_id: String, approval_id: String, pending_at: u64 },
    RunTemplateCreated { template_id: String, project: ProjectKey, name: String, default_mode: String, created_by: String, created_at: u64 },
    RunTemplateDeleted { template_id: String, by: String, at: u64 },
}

/// Why a trigger operation was refused.
#[derive(Debug)]
pub enum TriggerError {
    TriggerNotFound(String),
    TemplateNotFound(String),
    TemplateInUse { template_id: String, trigger_ids: Vec<String> },
    NotSuspended(String),
}

/// The in-memory trigger service.
pub struct TriggerService {
    triggers: TextMap<Trigger>,
    templates: TextMap<RunTemplate>,
    /// (trigger id, signal id, fired at) of every fire.
    fire_ledger: Vec<(String, String, u64)>,
    /// (trigger id, fired at) of every fire.
    fire_times: Vec<(String, u64)>,
    /// (project, fired at) of every fire.
    project_fires: Vec<(ProjectKey, u64)>,
    /// The project budget: fires per hour.
    pub default_project_budget: u32,
}

/// A trigger with a new state and update time.
pub open spec fn restated(t: Trigger, state: TriggerState, at: u64) -> Trigger {
    Trigger { state, updated_at: at, ..t }
}

/// Whether a trigger is enabled.
pub open spec fn is_enabled(t: Trigger) -> bool {
    t.state is Enabled
}

/// Whether a trigger listens to a signal: same project, enabled, same
/// signal type, and the same plugin when it names one.
pub open spec fn listens(t: Trigger, project: (Seq<char>, Seq<char>, Seq<char>), signal_type: Seq<char>, plugin_id: Seq<char>) -> bool {
    &&& t.project@ == project
    &&& is_enabled(t)
    &&& t.signal_pattern.signal_type@ == signal_type
    &&& match t.signal_pattern.plugin_id {
        Some(p) => p@ == plugin_id,
        None => true,
    }
}

/// The ids of the triggers (in order) that listen to a signal.
pub open spec fn listening(ts: Seq<(Seq<char>, Trigger)>, project: (Seq<char>, Seq<char>, Seq<char>), signal_type: Seq<char>, plugin_id: Seq<char>) -> Seq<Seq<char>>
    decreases ts.len(),
{
    if ts.len() == 0 {
        Seq::empty()
    } else {
        let rest = listening(ts.drop_last(), project, signal_type, plugin_id);
        if listens(ts.last().1, project, signal_type, plugin_id) {
            rest.push(ts.last().0)
        } else {
            rest
        }
    }
}

/// The number of times in `times` that are after `since`, for key `k`.
pub open spec fn count_after<K>(times: Seq<(K, u64)>, k: K, since: u64) -> nat
    decreases times.len(),
{
    if times.len() == 0 {
        0
    } else {
        count_after(times.drop_last(), k, since) + if times.last().0 == k && times.last().1 > since { 1nat } else { 0nat }
    }
}

pub open spec fn sat_sub(a: u64, b: u64) -> u64 {
    if a >= b { (a - b) as u64 } else { 0 }
}

/// The chain depth of a run made from a signal raised at `depth` (1 for
/// an outside signal), saturating.
pub open spec fn next_depth(depth: Option<u8>) -> u8 {
    match depth {
        Some(d) => if d == 255 { 255 } else { (d + 1) as u8 },
        None => 1,
    }
}

/// The first required field that the payload lacks, by position.
pub open spec fn first_missing_field(fields: Seq<String>, payload: JsonValue, k: int) -> bool {
    &&& 0 <= k < fields.len()
    &&& resolve(payload, fields[k]@) is None
    &&& forall|j: int| 0 <= j < k ==> resolve(payload, (#[trigger] fields[j])@) is Some
}

/// The checks before the decision layer, for a trigger and a signal.
pub enum PreStatus {
    Ready,
    Skipped(SkipReason),
    RateLimited { bucket_capacity: u32 },
    BudgetExceeded,
}

/// Whether trigger `t` fired for signal `s`, by the ledger.
pub open spec fn has_fired(ledger: Seq<(Seq<char>, Seq<char>, u64)>, t: Seq<char>, s: Seq<char>) -> bool {
    exists|i: int| 0 <= i < ledger.len() && (#[trigger] ledger[i]).0 == t && ledger[i].1 == s
}

/// The ids, in order, of the triggers that reference a template.
pub open spec fn referencing(ts: Seq<(Seq<char>, Trigger)>, template_id: Seq<char>) -> Seq<Seq<char>>
    decreases ts.len(),
{
    if ts.len() == 0 {
        Seq::empty()
    } else {
        let rest = referencing(ts.drop_last(), template_id);
        if ts.last().1.run_template_id@ == template_id {
            rest.push(ts.last().0)
        } else {
            rest
        }
    }
}

proof fn lemma_referencing_remove(ts: Seq<(Seq<char>, Trigger)>, i: int, k: Seq<char>)
    requires
        0 <= i < ts.len(),
    ensures
        referencing(ts.remove(i), k).len() <= referencing(ts, k).len(),
    decreases ts.len(),
{
    if i == ts.len() - 1 {
        assert(ts.remove(i) =~= ts.drop_last());
    } else {
        lemma_referencing_remove(ts.drop_last(), i, k);
        assert(ts.remove(i).drop_last() =~= ts.drop_last().remove(i));
        assert(ts.remove(i).last() == ts.last());
    }
}

impl TriggerService {
    /// Triggers by id.
    pub closed spec fn trigger_map(&self) -> Map<Seq<char>, Trigger> {
        self.triggers@
    }

    /// Triggers in the order they were created.
    pub closed spec fn trigger_order(&self) -> Seq<(Seq<char>, Trigger)> {
        self.triggers.entry_seq()
    }

    /// Templates by id.
    pub closed spec fn template_map(&self) -> Map<Seq<char>, RunTemplate> {
        self.templates@
    }

    /// Templates in the order they were created.
    pub closed spec fn template_order(&self) -> Seq<(Seq<char>, RunTemplate)> {
        self.templates.entry_seq()
    }

    /// The fire ledger: trigger, signal, time.
    pub closed spec fn ledger(&self) -> Seq<(Seq<char>, Seq<char>, u64)> {
        self.fire_ledger@.map_values(|e: (String, String, u64)| (e.0@, e.1@, e.2))
    }

    /// Fire times by trigger.
    pub closed spec fn fire_times(&self) -> Seq<(Seq<char>, u64)> {
        self.fire_times@.map_values(|e: (String, u64)| (e.0@, e.1))
    }

    /// Fire times by project.
    pub closed spec fn project_fires(&self) -> Seq<((Seq<char>, Seq<char>, Seq<char>), u64)> {
        self.project_fires@.map_values(|e: (ProjectKey, u64)| (e.0@, e.1))
    }

    pub closed spec fn wf(&self) -> bool {
        &&& self.triggers.wf()
        &&& self.templates.wf()
        &&& forall|k: Seq<char>| #[trigger] self.triggers@.contains_key(k) ==> self.triggers@[k].id@ == k
    }

    /// The project budget: fires per hour.
    pub closed spec fn project_budget(&self) -> u32 {
        self.default_project_budget
    }

    /// An empty service with a project budget of 100 fires per hour.
    pub fn new() -> (r: Self)
        ensures
            r.wf(),
            r.trigger_map() == Map::<Seq<char>, Trigger>::empty(),
            r.template_map() == Map::<Seq<char>, RunTemplate>::empty(),
            r.trigger_order().len() == 0,
            r.template_order().len() == 0,
            r.ledger().len() == 0,
            r.fire_times().len() == 0,
            r.project_fires().len() == 0,
            r.project_budget() == 100,
    {
        let r = TriggerService {
            triggers: TextMap::new(),
            templates: TextMap::new(),
            fire_ledger: Vec::new(),
            fire_times: Vec::new(),
            project_fires: Vec::new(),
            default_project_budget: 100,
        };
        assert(r.ledger() =~= Seq::<(Seq<char>, Seq<char>, u64)>::empty());
        assert(r.fire_times() =~= Seq::<(Seq<char>, u64)>::empty());
        assert(r.project_fires() =~= Seq::<((Seq<char>, Seq<char>, Seq<char>), u64)>::empty());
        r
    }

    /// Stores a template (replacing one with the same id).
    pub fn create_template(&mut self, template: RunTemplate) -> (r: TriggerEvent)
        requires
            old(self).wf(),
        ensures
            final(self).wf(),
            final(self).template_map() == old(self).template_map().insert(template.id@, template),
            final(self).trigger_map() == old(self).trigger_map(),
            final(self).trigger_order() == old(self).trigger_order(),
            final(self).ledger() == old(self).ledger(),
            final(self).fire_times() == old(self).fire_times(),
            final(self).project_fires() == old(self).project_fires(),
            final(self).project_budget() == old(self).project_budget(),
            r matches TriggerEvent::RunTemplateCreated { template_id, project, name, default_mode, created_by, created_at }
                && template_id@ == template.id@ && project@ == template.project@ && name@ == template.name@
                && default_mode@ == template.default_mode@ && created_by@ == template.created_by@
                && created_at == template.created_at,
    {
        let event = TriggerEvent::RunTemplateCreated {
            template_id: template.id.clone(),
            project: template.project.duplicate(),
            name: template.name.clone(),
            default_mode: template.default_mode.clone(),
            created_by: template.created_by.clone(),
            created_at: template.created_at,
        };
        let id = template.id.clone();
        self.templates.insert(id, template);
        event
    }

    /// The template with an id.
    pub fn get_template(&self, id: &String) -> (r: Option<&RunTemplate>)
        requires
            self.wf(),
        ensures
            match r {
                Some(t) => self.template_map().contains_key(id@) && *t == self.template_map()[id@],
                None => !self.template_map().contains_key(id@),
            },
    {
        self.templates.get(id)
    }

    fn referencing_ids(&self, template_id: &String) -> (r: Vec<String>)
        requires
            self.wf(),
        ensures
            string_views(r@) == referencing(self.trigger_order(), template_id@),
    {
        let ghost order = self.trigger_order();
        let mut out: Vec<String> = Vec::new();
        let mut i: usize = 0;
        let n = self.triggers.len();
        while i < n
            invariant
                i <= n,
                n == order.len(),
                order == self.trigger_order(),
                string_views(out@) == referencing(order.take(i as int), template_id@),
            decreases n - i,
        {
            let (k, t) = self.triggers.entry_at(i);
            proof {
                assert(order.take(i + 1).drop_last() =~= order.take(i as int));
                assert(order.take(i + 1).last() == order[i as int]);
            }
            if t.run_template_id == *template_id {
                let ghost before = out@;
                out.push(k.clone());
                assert(string_views(out@) =~= string_views(before).push(k@));
            }
            i = i + 1;
        }
        assert(order.take(n as int) =~= order);
        out
    }

    /// Deletes a template at `now`; refused while triggers reference it.
    pub fn delete_template_at(&mut self, id: &String, by: String, now: u64) -> (r: Result<TriggerEvent, TriggerError>)
        requires
            old(self).wf(),
        ensures
            final(self).wf(),
            final(self).trigger_map() == old(self).trigger_map(),
            final(self).trigger_order() == old(self).trigger_order(),
            final(self).ledger() == old(self).ledger(),
            final(self).fire_times() == old(self).fire_times(),
            final(self).project_fires() == old(self).project_fires(),
            final(self).project_budget() == old(self).project_budget(),
            referencing(old(self).trigger_order(), id@).len() > 0 ==> (r matches Err(TriggerError::TemplateInUse { template_id, trigger_ids })
                && template_id@ == id@ && string_views(trigger_ids@) == referencing(old(self).trigger_order(), id@)),
            referencing(old(self).trigger_order(), id@).len() == 0 && !old(self).template_map().contains_key(id@)
                ==> (r matches Err(TriggerError::TemplateNotFound(t)) && t@ == id@),
            referencing(old(self).trigger_order(), id@).len() == 0 && old(self).template_map().contains_key(id@)
                ==> (r matches Ok(TriggerEvent::RunTemplateDeleted { template_id, by: b, at }) && template_id@ == id@
                    && b@ == by@ && at == now),
            r is Ok ==> final(self).template_map() == old(self).template_map().remove(id@),
            r is Err ==> final(self).template_map() == old(self).template_map(),
    {
        let refs = self.referencing_ids(id);
        if refs.len() > 0 {
            return Err(TriggerError::TemplateInUse { template_id: id.clone(), trigger_ids: refs });
        }
        match self.templates.remove(id) {
            Some(_) => Ok(TriggerEvent::RunTemplateDeleted { template_id: id.clone(), by, at: now }),
            None => Err(TriggerError::TemplateNotFound(id.clone())),
        }
    }

    /// Deletes a template now; refused while triggers reference it.
    pub fn delete_template(&mut self, id: &String, by: String) -> (r: Result<TriggerEvent, TriggerError>)
        requires
            old(self).wf(),
        ensures
            final(self).wf(),
            final(self).trigger_map() == old(self).trigger_map(),
            referencing(old(self).trigger_order(), id@).len() > 0 ==> r matches Err(TriggerError::TemplateInUse { .. }),
            referencing(old(self).trigger_order(), id@).len() == 0 && !old(self).template_map().contains_key(id@)
                ==> r matches Err(TriggerError::TemplateNotFound(_)),
            referencing(old(self).trigger_order(), id@).len() == 0 && old(self).template_map().contains_key(id@)
                ==> r matches Ok(TriggerEvent::RunTemplateDeleted { .. }),
            r is Ok ==> final(self).template_map() == old(self).template_map().remove(id@),
            r is Err ==> final(self).template_map() == old(self).template_map(),
            final(self).trigger_order() == old(self).trigger_order(),
            final(self).ledger() == old(self).ledger(),
            final(self).fire_times() == old(self).fire_times(),
            final(self).project_fires() == old(self).project_fires(),
            final(self).project_budget() == old(self).project_budget(),
            referencing(old(self).trigger_order(), id@).len() > 0 ==> (r matches Err(TriggerError::TemplateInUse { template_id, trigger_ids })
                && template_id@ == id@ && string_views(trigger_ids@) == referencing(old(self).trigger_order(), id@)),
            referencing(old(self).trigger_order(), id@).len() == 0 && !old(self).template_map().contains_key(id@)
                ==> (r matches Err(TriggerError::TemplateNotFound(t)) && t@ == id@),
            exists|tm: u64| #[trigger] at_time(tm)
                && (referencing(old(self).trigger_order(), id@).len() == 0 && old(self).template_map().contains_key(id@)
                    ==> (r matches Ok(TriggerEvent::RunTemplateDeleted { template_id, by: b, at }) && template_id@ == id@
                        && b@ == by@ && at == tm)),
    {
        let now = now_ms();
        let r = self.delete_template_at(id, by, now);
        assert(at_time(now));
        r
    }

    /// The project's templates, in order.
    pub fn list_templates_for_project(&self, project: &ProjectKey) -> (r: Vec<&RunTemplate>)
        requires
            self.wf(),
        ensures
            r@.map_values(|t: &RunTemplate| *t) == self.template_order().map_values(|e: (Seq<char>, RunTemplate)| e.1).filter(
                |t: RunTemplate| t.project@ == project@,
            ),
    {
        let ghost vals = self.template_order().map_values(|e: (Seq<char>, RunTemplate)| e.1);
        let ghost f = |t: RunTemplate| t.project@ == project@;
        let mut out: Vec<&RunTemplate> = Vec::new();
        let n = self.templates.len();
        let mut i: usize = 0;
        while i < n
            invariant
                i <= n,
                n == vals.len(),
                vals == self.template_order().map_values(|e: (Seq<char>, RunTemplate)| e.1),
                f == (|t: RunTemplate| t.project@ == project@),
                out@.map_values(|t: &RunTemplate| *t) == vals.take(i as int).filter(f),
            decreases n - i,
        {
            let (_, t) = self.templates.entry_at(i);
            proof {
                assert(vals.take(i + 1) =~= vals.take(i as int).push(vals[i as int]));
                vals.take(i as int).lemma_filter_push(vals[i as int], f);
            }
            if t.project.same(project) {
                let ghost before = out@;
                out.push(t);
                assert(out@.map_values(|t: &RunTemplate| *t) =~= before.map_values(|t: &RunTemplate| *t).push(*t));
            }
            i = i + 1;
        }
        assert(vals.take(n as int) =~= vals);
        out
    }

    /// Stores a trigger (replacing one with the same id); refused when its
    /// template does not exist.
    pub fn create_trigger(&mut self, trigger: Trigger) -> (r: Result<TriggerEvent, TriggerError>)
        requires
            old(self).wf(),
        ensures
            final(self).wf(),
            final(self).template_map() == old(self).template_map(),
            final(self).ledger() == old(self).ledger(),
            final(self).fire_times() == old(self).fire_times(),
            final(self).project_fires() == old(self).project_fires(),
            final(self).project_budget() == old(self).project_budget(),
            !old(self).template_map().contains_key(trigger.run_template_id@) ==> (r matches Err(TriggerError::TemplateNotFound(t))
                && t@ == trigger.run_template_id@),
            r is Err ==> final(self).trigger_map() == old(self).trigger_map() && final(self).trigger_order() == old(self).trigger_order(),
            old(self).template_map().contains_key(trigger.run_template_id@) ==> {
                &&& final(self).trigger_map() == old(self).trigger_map().insert(trigger.id@, trigger)
                &&& !old(self).trigger_map().contains_key(trigger.id@) ==> final(self).trigger_order() == old(self).trigger_order().push((trigger.id@, trigger))
                &&& r matches Ok(TriggerEvent::TriggerCreated { trigger_id, project, signal_type, plugin_id, run_template_id, created_by, created_at })
                    && trigger_id@ == trigger.id@ && project@ == trigger.project@ && signal_type@ == trigger.signal_pattern.signal_type@
                    && opt_str_view(plugin_id) == opt_str_view(trigger.signal_pattern.plugin_id)
                    && run_template_id@ == trigger.run_template_id@ && created_by@ == trigger.created_by@ && created_at == trigger.created_at
            },
    {
        if !self.templates.contains_key(&trigger.run_template_id) {
            return Err(TriggerError::TemplateNotFound(trigger.run_template_id.clone()));
        }
        let event = TriggerEvent::TriggerCreated {
            trigger_id: trigger.id.clone(),
            project: trigger.project.duplicate(),
            signal_type: trigger.signal_pattern.signal_type.clone(),
            plugin_id: crate::text::clone_opt_string(&trigger.signal_pattern.plugin_id),
            run_template_id: trigger.run_template_id.clone(),
            created_by: trigger.created_by.clone(),
            created_at: trigger.created_at,
        };
        let id = trigger.id.clone();
        self.triggers.insert(id, trigger);
        Ok(event)
    }

    /// The trigger with an id.
    pub fn get_trigger(&self, id: &String) -> (r: Option<&Trigger>)
        requires
            self.wf(),
        ensures
            match r {
                Some(t) => self.trigger_map().contains_key(id@) && *t == self.trigger_map()[id@],
                None => !self.trigger_map().contains_key(id@),
            },
    {
        self.triggers.get(id)
    }

    /// Replaces the state and update time of the trigger at position `i`.
    fn set_state_at(&mut self, i: usize, state: TriggerState, at: u64)
        requires
            old(self).wf(),
            i < old(self).trigger_order().len(),
        ensures
            final(self).wf(),
            final(self).trigger_order() == old(self).trigger_order().update(i as int, (old(self).trigger_order()[i as int].0,
                Trigger { state, updated_at: at, ..old(self).trigger_order()[i as int].1 })),
            final(self).trigger_map() == old(self).trigger_map().insert(old(self).trigger_order()[i as int].0,
                Trigger { state, updated_at: at, ..old(self).trigger_order()[i as int].1 }),
            final(self).template_map() == old(self).template_map(),
            final(self).template_order() == old(self).template_order(),
            final(self).ledger() == old(self).ledger(),
            final(self).fire_times() == old(self).fire_times(),
            final(self).project_fires() == old(self).project_fires(),
            final(self).project_budget() == old(self).project_budget(),
    {
        proof {
            self.triggers.lemma_entries();
        }
        let (k, t) = self.triggers.take_at(i);
        let n = Trigger {
            id: t.id,
            project: t.project,
            name: t.name,
            description: t.description,
            signal_pattern: t.signal_pattern,
            conditions: t.conditions,
            run_template_id: t.run_template_id,
            state,
            rate_limit: t.rate_limit,
            max_chain_depth: t.max_chain_depth,
            created_by: t.created_by,
            created_at: t.created_at,
            updated_at: at,
        };
        self.triggers.put_at(i, k, n);
        proof {
            assert(self.trigger_order() =~= old(self).trigger_order().update(i as int, (old(self).trigger_order()[i as int].0, n)));
            assert(self.trigger_map() =~= old(self).trigger_map().insert(old(self).trigger_order()[i as int].0, n));
        }
    }

    /// Enables a trigger at `now`.
    pub fn enable_trigger_at(&mut self, id: &String, by: String, now: u64) -> (r: Result<TriggerEvent, TriggerError>)
        requires
            old(self).wf(),
        ensures
            final(self).wf(),
            r is Ok <==> old(self).trigger_map().contains_key(id@),
            final(self).template_map() == old(self).template_map(),
            final(self).ledger() == old(self).ledger(),
            !old(self).trigger_map().contains_key(id@) <==> (r matches Err(TriggerError::TriggerNotFound(t)) && t@ == id@),
            r is Err ==> final(self).trigger_map() == old(self).trigger_map(),
            r is Ok ==> final(self).trigger_map() == old(self).trigger_map().insert(id@, Trigger {
                state: TriggerState::Enabled,
                updated_at: now,
                ..old(self).trigger_map()[id@]
            }),
            r matches Ok(e) ==> (e matches TriggerEvent::TriggerEnabled { trigger_id, by: b, at } && trigger_id@ == id@ && b@ == by@ && at == now),
            final(self).trigger_order().len() == old(self).trigger_order().len(),
    {
        match self.triggers.index_of(id) {
            Some(i) => {
                self.set_state_at(i, TriggerState::Enabled, now);
                Ok(TriggerEvent::TriggerEnabled { trigger_id: id.clone(), by, at: now })
            },
            None => Err(TriggerError::TriggerNotFound(id.clone())),
        }
    }

    /// Enables a trigger now.
    pub fn enable_trigger(&mut self, id: &String, by: String) -> (r: Result<TriggerEvent, TriggerError>)
        requires
            old(self).wf(),
        ensures
            final(self).wf(),
            !old(self).trigger_map().contains_key(id@) <==> r is Err,
            r is Ok ==> final(self).trigger_map()[id@].state is Enabled,
            r is Ok <==> old(self).trigger_map().contains_key(id@),
            final(self).template_map() == old(self).template_map(),
            final(self).ledger() == old(self).ledger(),
            !old(self).trigger_map().contains_key(id@) <==> (r matches Err(TriggerError::TriggerNotFound(t)) && t@ == id@),
            r is Err ==> final(self).trigger_map() == old(self).trigger_map(),
            final(self).trigger_order().len() == old(self).trigger_order().len(),
            exists|tm: u64| #[trigger] at_time(tm)
                && (r is Ok ==> final(self).trigger_map() == old(self).trigger_map().insert(id@, Trigger {
                    state: TriggerState::Enabled,
                    updated_at: tm,
                    ..old(self).trigger_map()[id@]
                }))
                && (r matches Ok(e) ==> (e matches TriggerEvent::TriggerEnabled { trigger_id, by: b, at } && trigger_id@ == id@ && b@ == by@ && at == tm)),
    {
        let now = now_ms();
        let r = self.enable_trigger_at(id, by, now);
        assert(at_time(now));
        r
    }

    /// Disables a trigger at `now`, with an optional reason.
    pub fn disable_trigger_at(&mut self, id: &String, by: String, reason: Option<String>, now: u64) -> (r: Result<TriggerEvent, TriggerError>)
        requires
            old(self).wf(),
        ensures
            final(self).wf(),
            r is Ok <==> old(self).trigger_map().contains_key(id@),
            final(self).template_map() == old(self).template_map(),
            final(self).ledger() == old(self).ledger(),
            !old(self).trigger_map().contains_key(id@) <==> (r matches Err(TriggerError::TriggerNotFound(t)) && t@ == id@),
            r is Err ==> final(self).trigger_map() == old(self).trigger_map(),
            r is Ok ==> final(self).trigger_map() == old(self).trigger_map().insert(id@,
                restated(old(self).trigger_map()[id@], final(self).trigger_map()[id@].state, now)),
            r is Ok ==> (final(self).trigger_map()[id@].state matches TriggerState::Disabled { reason: rs, since }
                && since == now && opt_str_view(rs) == opt_str_view(reason)),
            r matches Ok(e) ==> (e matches TriggerEvent::TriggerDisabled { trigger_id, by: b, reason: rs, at } && trigger_id@ == id@
                && b@ == by@ && at == now && opt_str_view(rs) == opt_str_view(reason)),
    {
        match self.triggers.index_of(id) {
            Some(i) => {
                let copy = crate::text::clone_opt_string(&reason);
                self.set_state_at(i, TriggerState::Disabled { reason: copy, since: now }, now);
                Ok(TriggerEvent::TriggerDisabled { trigger_id: id.clone(), by, reason, at: now })
            },
            None => Err(TriggerError::TriggerNotFound(id.clone())),
        }
    }

    /// Disables a trigger now.
    pub fn disable_trigger(&mut self, id: &String, by: String, reason: Option<String>) -> (r: Result<TriggerEvent, TriggerError>)
        requires
            old(self).wf(),
        ensures
            final(self).wf(),
            !old(self).trigger_map().contains_key(id@) <==> r is Err,
            r is Ok ==> final(self).trigger_map()[id@].state is Disabled,
            r is Ok <==> old(self).trigger_map().contains_key(id@),
            final(self).template_map() == old(self).template_map(),
            final(self).ledger() == old(self).ledger(),
            !old(self).trigger_map().contains_key(id@) <==> (r matches Err(TriggerError::TriggerNotFound(t)) && t@ == id@),
            r is Err ==> final(self).trigger_map() == old(self).trigger_map(),
            exists|tm: u64| #[trigger] at_time(tm)
                && (r is Ok ==> final(self).trigger_map() == old(self).trigger_map().insert(id@,
                    restated(old(self).trigger_map()[id@], final(self).trigger_map()[id@].state, tm)))
                && (r is Ok ==> (final(self).trigger_map()[id@].state matches TriggerState::Disabled { reason: rs, since }
                    && since == tm && opt_str_view(rs) == opt_str_view(reason)))
                && (r matches Ok(e) ==> (e matches TriggerEvent::TriggerDisabled { trigger_id, by: b, reason: rs, at } && trigger_id@ == id@
                    && b@ == by@ && at == tm && opt_str_view(rs) == opt_str_view(reason))),
    {
        let now = now_ms();
        let r = self.disable_trigger_at(id, by, reason, now);
        assert(at_time(now));
        r
    }

    /// Re-enables a suspended trigger at `now`.
    pub fn resume_trigger_at(&mut self, id: &String, now: u64) -> (r: Result<TriggerEvent, TriggerError>)
        requires
            old(self).wf(),
        ensures
            final(self).wf(),
            final(self).template_map() == old(self).template_map(),
            final(self).ledger() == old(self).ledger(),
            !old(self).trigger_map().contains_key(id@) ==> (r matches Err(TriggerError::TriggerNotFound(t)) && t@ == id@),
            old(self).trigger_map().contains_key(id@) && !(old(self).trigger_map()[id@].state is Suspended)
                ==> (r matches Err(TriggerError::NotSuspended(t)) && t@ == id@),
            r is Err ==> final(self).trigger_map() == old(self).trigger_map(),
            old(self).trigger_map().contains_key(id@) && old(self).trigger_map()[id@].state is Suspended ==> {
                &&& final(self).trigger_map() == old(self).trigger_map().insert(id@, Trigger {
                    state: TriggerState::Enabled,
                    updated_at: now,
                    ..old(self).trigger_map()[id@]
                })
                &&& r matches Ok(TriggerEvent::TriggerResumed { trigger_id, at }) && trigger_id@ == id@ && at == now
            },
    {
        match self.triggers.index_of(id) {
            Some(i) => {
                let (_, t) = self.triggers.entry_at(i);
                let suspended = match t.state {
                    TriggerState::Suspended { .. } => true,
                    _ => false,
                };
                if !suspended {
                    return Err(TriggerError::NotSuspended(id.clone()));
                }
                self.set_state_at(i, TriggerState::Enabled, now);
                Ok(TriggerEvent::TriggerResumed { trigger_id: id.clone(), at: now })
            },
            None => Err(TriggerError::TriggerNotFound(id.clone())),
        }
    }

    /// Re-enables a suspended trigger now.
    pub fn resume_trigger(&mut self, id: &String) -> (r: Result<TriggerEvent, TriggerError>)
        requires
            old(self).wf(),
        ensures
            final(self).wf(),
            r is Ok <==> old(self).trigger_map().contains_key(id@) && old(self).trigger_map()[id@].state is Suspended,
            r is Ok ==> final(self).trigger_map()[id@].state is Enabled,
            final(self).template_map() == old(self).template_map(),
            final(self).ledger() == old(self).ledger(),
            !old(self).trigger_map().contains_key(id@) ==> (r matches Err(TriggerError::TriggerNotFound(t)) && t@ == id@),
            old(self).trigger_map().contains_key(id@) && !(old(self).trigger_map()[id@].state is Suspended)
                ==> (r matches Err(TriggerError::NotSuspended(t)) && t@ == id@),
            r is Err ==> final(self).trigger_map() == old(self).trigger_map(),
            exists|tm: u64| #[trigger] at_time(tm)
                && (old(self).trigger_map().contains_key(id@) && old(self).trigger_map()[id@].state is Suspended ==> {
                    &&& final(self).trigger_map() == old(self).trigger_map().insert(id@, Trigger {
                        state: TriggerState::Enabled,
                        updated_at: tm,
                        ..old(self).trigger_map()[id@]
                    })
                    &&& r matches Ok(TriggerEvent::TriggerResumed { trigger_id, at }) && trigger_id@ == id@ && at == tm
                }),
    {
        let now = now_ms();
        let r = self.resume_trigger_at(id, now);
        assert(at_time(now));
        r
    }

    /// Restores a trigger's state from the durable history.
    pub fn restore_trigger_state(&mut self, id: &String, state: TriggerState, updated_at: u64) -> (r: Result<(), TriggerError>)
        requires
            old(self).wf(),
        ensures
            final(self).wf(),
            r is Ok <==> old(self).trigger_map().contains_key(id@),
            final(self).template_map() == old(self).template_map(),
            !old(self).trigger_map().contains_key(id@) <==> (r matches Err(TriggerError::TriggerNotFound(t)) && t@ == id@),
            r is Err ==> final(self).trigger_map() == old(self).trigger_map(),
            r is Ok ==> final(self).trigger_map() == old(self).trigger_map().insert(id@, Trigger {
                state,
                updated_at,
                ..old(self).trigger_map()[id@]
            }),
    {
        match self.triggers.index_of(id) {
            Some(i) => {
                self.set_state_at(i, state, updated_at);
                Ok(())
            },
            None => Err(TriggerError::TriggerNotFound(id.clone())),
        }
    }

    /// Deletes a trigger at `now`.
    pub fn delete_trigger_at(&mut self, id: &String, by: String, now: u64) -> (r: Result<TriggerEvent, TriggerError>)
        requires
            old(self).wf(),
        ensures
            final(self).wf(),
            r is Ok <==> old(self).trigger_map().contains_key(id@),
            final(self).template_map() == old(self).template_map(),
            final(self).trigger_map() == old(self).trigger_map().remove(id@),
            !old(self).trigger_map().contains_key(id@) <==> (r matches Err(TriggerError::TriggerNotFound(t)) && t@ == id@),
            r matches Ok(e) ==> (e matches TriggerEvent::TriggerDeleted { trigger_id, by: b, at } && trigger_id@ == id@ && b@ == by@ && at == now),
            forall|k: Seq<char>| referencing(final(self).trigger_order(), k).len() <= referencing(old(self).trigger_order(), k).len(),
    {
        proof {
            self.triggers.lemma_entries();
        }
        match self.triggers.index_of(id) {
            Some(i) => {
                let _ = self.triggers.take_at(i);
                proof {
                    assert forall|k: Seq<char>| referencing(self.trigger_order(), k).len() <= referencing(old(self).trigger_order(), k).len() by {
                        lemma_referencing_remove(old(self).trigger_order(), i as int, k);
                    }
                }
                Ok(TriggerEvent::TriggerDeleted { trigger_id: id.clone(), by, at: now })
            },
            None => {
                assert(self.trigger_map() =~= old(self).trigger_map().remove(id@));
                Err(TriggerError::TriggerNotFound(id.clone()))
            },
        }
    }

    /// Deletes a trigger now.
    pub fn delete_trigger(&mut self, id: &String, by: String) -> (r: Result<TriggerEvent, TriggerError>)
        requires
            old(self).wf(),
        ensures
            final(self).wf(),
            final(self).trigger_map() == old(self).trigger_map().remove(id@),
            final(self).template_map() == old(self).template_map(),
            !old(self).trigger_map().contains_key(id@) <==> r is Err,
            r is Ok <==> old(self).trigger_map().contains_key(id@),
            !old(self).trigger_map().contains_key(id@) <==> (r matches Err(TriggerError::TriggerNotFound(t)) && t@ == id@),
            forall|k: Seq<char>| referencing(final(self).trigger_order(), k).len() <= referencing(old(self).trigger_order(), k).len(),
            exists|tm: u64| #[trigger] at_time(tm)
                && (r matches Ok(e) ==> (e matches TriggerEvent::TriggerDeleted { trigger_id, by: b, at } && trigger_id@ == id@ && b@ == by@ && at == tm)),
    {
        let now = now_ms();
        let r = self.delete_trigger_at(id, by, now);
        assert(at_time(now));
        r
    }

    /// The project's triggers, in order.
    pub fn list_triggers_for_project(&self, project: &ProjectKey) -> (r: Vec<&Trigger>)
        requires
            self.wf(),
        ensures
            r@.map_values(|t: &Trigger| *t) == self.trigger_order().map_values(|e: (Seq<char>, Trigger)| e.1).filter(
                |t: Trigger| t.project@ == project@,
            ),
    {
        let ghost vals = self.trigger_order().map_values(|e: (Seq<char>, Trigger)| e.1);
        let ghost f = |t: Trigger| t.project@ == project@;
        let mut out: Vec<&Trigger> = Vec::new();
        let n = self.triggers.len();
        let mut i: usize = 0;
        while i < n
            invariant
                i <= n,
                n == vals.len(),
                vals == self.trigger_order().map_values(|e: (Seq<char>, Trigger)| e.1),
                f == (|t: Trigger| t.project@ == project@),
                out@.map_values(|t: &Trigger| *t) == vals.take(i as int).filter(f),
            decreases n - i,
        {
            let (_, t) = self.triggers.entry_at(i);
            proof {
                assert(vals.take(i + 1) =~= vals.take(i as int).push(vals[i as int]));
                vals.take(i as int).lemma_filter_push(vals[i as int], f);
            }
            if t.project.same(project) {
                let ghost before = out@;
                out.push(t);
                assert(out@.map_values(|t: &Trigger| *t) =~= before.map_values(|t: &Trigger| *t).push(*t));
            }
            i = i + 1;
        }
        assert(vals.take(n as int) =~= vals);
        out
    }

    /// A copy of the fire ledger, for durable storage.
    pub fn fire_ledger_snapshot(&self) -> (r: Vec<(String, String, u64)>)
        ensures
            r@.map_values(|e: (String, String, u64)| (e.0@, e.1@, e.2)) == self.ledger(),
    {
        let mut out: Vec<(String, String, u64)> = Vec::new();
        let mut i: usize = 0;
        while i < self.fire_ledger.len()
            invariant
                i <= self.fire_ledger@.len(),
                out@ == self.fire_ledger@.take(i as int),
            decreases self.fire_ledger@.len() - i,
        {
            let e = &self.fire_ledger[i];
            out.push((e.0.clone(), e.1.clone(), e.2));
            assert(out@ =~= self.fire_ledger@.take(i + 1));
            i = i + 1;
        }
        assert(out@ =~= self.fire_ledger@);
        out
    }

    /// Replaces the fire ledger with a stored one (after a restart).
    pub fn restore_fire_ledger(&mut self, ledger: Vec<(String, String, u64)>)
        requires
            old(self).wf(),
        ensures
            final(self).wf(),
            final(self).ledger() == ledger@.map_values(|e: (String, String, u64)| (e.0@, e.1@, e.2)),
            final(self).trigger_map() == old(self).trigger_map(),
            final(self).trigger_order() == old(self).trigger_order(),
            final(self).template_map() == old(self).template_map(),
            final(self).fire_times() == old(self).fire_times(),
            final(self).project_fires() == old(self).project_fires(),
            final(self).project_budget() == old(self).project_budget(),
    {
        self.fire_ledger = ledger;
    }

    /// Records a fire read back from the durable history: in the ledger
    /// (replacing the time of an earlier entry for the same trigger and
    /// signal) and in the rate and budget counters.
    pub fn restore_fired_trigger(&mut self, project: &ProjectKey, trigger_id: &String, signal_id: &String, fired_at: u64)
        requires
            old(self).wf(),
        ensures
            final(self).wf(),
            has_fired(final(self).ledger(), trigger_id@, signal_id@),
            final(self).fire_times() == old(self).fire_times().push((trigger_id@, fired_at)),
            final(self).project_fires() == old(self).project_fires().push((project@, fired_at)),
            final(self).trigger_map() == old(self).trigger_map(),
            final(self).trigger_order() == old(self).trigger_order(),
            final(self).template_map() == old(self).template_map(),
            final(self).project_budget() == old(self).project_budget(),
            forall|t: Seq<char>, s: Seq<char>| has_fired(old(self).ledger(), t, s) ==> has_fired(final(self).ledger(), t, s),
    {
        self.record_ledger(trigger_id, signal_id, fired_at);
        let ghost ft = self.fire_times@;
        self.fire_times.push((trigger_id.clone(), fired_at));
        assert(self.fire_times() =~= old(self).fire_times().push((trigger_id@, fired_at)));
        self.project_fires.push((project.duplicate(), fired_at));
        assert(self.project_fires() =~= old(self).project_fires().push((project@, fired_at)));
    }

    fn record_ledger(&mut self, trigger_id: &String, signal_id: &String, at: u64)
        requires
            old(self).wf(),
        ensures
            final(self).wf(),
            has_fired(final(self).ledger(), trigger_id@, signal_id@),
            !has_fired(old(self).ledger(), trigger_id@, signal_id@) ==> final(self).ledger() == old(self).ledger().push((trigger_id@, signal_id@, at)),
            forall|t: Seq<char>, s: Seq<char>| has_fired(old(self).ledger(), t, s) ==> has_fired(final(self).ledger(), t, s),
            forall|t: Seq<char>, s: Seq<char>| has_fired(final(self).ledger(), t, s) ==> has_fired(old(self).ledger(), t, s) || (t == trigger_id@ && s == signal_id@),
            final(self).fire_times() == old(self).fire_times(),
            final(self).project_fires() == old(self).project_fires(),
            final(self).trigger_map() == old(self).trigger_map(),
            final(self).trigger_order() == old(self).trigger_order(),
            final(self).template_map() == old(self).template_map(),
            final(self).template_order() == old(self).template_order(),
            final(self).project_budget() == old(self).project_budget(),
    {
        let ghost l0 = self.ledger();
        let ghost s0 = *self;
        let mut i: usize = 0;
        while i < self.fire_ledger.len()
            invariant
                i <= self.fire_ledger@.len(),
                *self == s0,
                s0 == *old(self),
                s0.wf(),
                l0 == self.ledger(),
                forall|j: int| 0 <= j < i ==> !((#[trigger] l0[j]).0 == trigger_id@ && l0[j].1 == signal_id@),
            decreases self.fire_ledger@.len() - i,
        {
            if self.fire_ledger[i].0 == *trigger_id && self.fire_ledger[i].1 == *signal_id {
                let e = (trigger_id.clone(), signal_id.clone(), at);
                self.fire_ledger.set(i, e);
                proof {
                    assert(l0[i as int].0 == trigger_id@ && l0[i as int].1 == signal_id@);
                    assert(self.ledger() =~= l0.update(i as int, (trigger_id@, signal_id@, at)));
                    assert(self.ledger()[i as int].0 == trigger_id@);
                    assert forall|t: Seq<char>, s: Seq<char>| has_fired(l0, t, s) implies has_fired(self.ledger(), t, s) by {
                        let j = choose|j: int| 0 <= j < l0.len() && (#[trigger] l0[j]).0 == t && l0[j].1 == s;
                        if j != i {
                            assert(self.ledger()[j] == l0[j]);
                        } else {
                            assert(self.ledger()[j].0 == t);
                        }
                    }
                    assert forall|t: Seq<char>, s: Seq<char>| has_fired(self.ledger(), t, s) implies has_fired(l0, t, s) || (t == trigger_id@ && s == signal_id@) by {
                        let j = choose|j: int| 0 <= j < self.ledger().len() && (#[trigger] self.ledger()[j]).0 == t && self.ledger()[j].1 == s;
                        if j != i {
                            assert(self.ledger()[j] == l0[j]);
                        }
                    }
                }
                return;
            }
            i = i + 1;
        }
        self.fire_ledger.push((trigger_id.clone(), signal_id.clone(), at));
        proof {
            assert(self.ledger() =~= l0.push((trigger_id@, signal_id@, at)));
            assert(self.ledger()[l0.len() as int].0 == trigger_id@);
            assert forall|t: Seq<char>, s: Seq<char>| has_fired(l0, t, s) implies has_fired(self.ledger(), t, s) by {
                let j = choose|j: int| 0 <= j < l0.len() && (#[trigger] l0[j]).0 == t && l0[j].1 == s;
                assert(self.ledger()[j] == l0[j]);
            }
            assert forall|t: Seq<char>, s: Seq<char>| has_fired(self.ledger(), t, s) implies has_fired(l0, t, s) || (t == trigger_id@ && s == signal_id@) by {
                let j = choose|j: int| 0 <= j < self.ledger().len() && (#[trigger] self.ledger()[j]).0 == t && self.ledger()[j].1 == s;
                if j < l0.len() {
                    assert(self.ledger()[j] == l0[j]);
                }
            }
        }
    }
}

/// The checks before the decision layer, for trigger `t` and a signal:
/// already fired for the signal, conditions unmet, chain too deep (each
/// a skip); the trigger's per-minute rate spent; the project's hourly
/// budget spent; no template (nothing happens); a required field missing
/// (a skip); or ready.
pub open spec fn pre_status(
    ledger: Seq<(Seq<char>, Seq<char>, u64)>,
    fire_times: Seq<(Seq<char>, u64)>,
    project_fires: Seq<((Seq<char>, Seq<char>, Seq<char>), u64)>,
    budget: u32,
    templates: Map<Seq<char>, RunTemplate>,
    t: Trigger,
    project: (Seq<char>, Seq<char>, Seq<char>),
    signal_id: Seq<char>,
    payload: JsonValue,
    depth: Option<u8>,
    now: u64,
) -> Option<PreStatus> {
    if has_fired(ledger, t.id@, signal_id) {
        Some(PreStatus::Skipped(SkipReason::AlreadyFired))
    } else if !all_hold(t.conditions@, payload) {
        Some(PreStatus::Skipped(SkipReason::ConditionMismatch))
    } else if next_depth(depth) > t.max_chain_depth {
        Some(PreStatus::Skipped(SkipReason::ChainTooDeep))
    } else if (count_after(fire_times, t.id@, sat_sub(now, 60_000)) as u32) >= t.rate_limit.max_per_minute {
        Some(PreStatus::RateLimited { bucket_capacity: t.rate_limit.max_per_minute })
    } else if (count_after(project_fires, project, sat_sub(now, 3_600_000)) as u32) >= budget {
        Some(PreStatus::BudgetExceeded)
    } else if !templates.contains_key(t.run_template_id@) {
        None
    } else if exists|k: int| first_missing_field(templates[t.run_template_id@].required_fields@, payload, k) {
        let k = choose|k: int| first_missing_field(templates[t.run_template_id@].required_fields@, payload, k);
        Some(PreStatus::Skipped(SkipReason::MissingRequiredField { field: templates[t.run_template_id@].required_fields@[k] }))
    } else {
        Some(PreStatus::Ready)
    }
}

proof fn lemma_first_missing_unique(fields: Seq<String>, payload: JsonValue, a: int, b: int)
    requires
        first_missing_field(fields, payload, a),
        first_missing_field(fields, payload, b),
    ensures
        a == b,
{
    if a < b {
        assert(resolve(payload, fields[a]@) is Some);
    } else if b < a {
        assert(resolve(payload, fields[b]@) is Some);
    }
}

fn count_key_after(times: &Vec<(String, u64)>, k: &String, since: u64) -> (r: usize)
    ensures
        r == count_after(times@.map_values(|e: (String, u64)| (e.0@, e.1)), k@, since),
{
    let ghost tv = times@.map_values(|e: (String, u64)| (e.0@, e.1));
    let mut n: usize = 0;
    let mut i: usize = 0;
    while i < times.len()
        invariant
            i <= times@.len(),
            tv == times@.map_values(|e: (String, u64)| (e.0@, e.1)),
            n == count_after(tv.take(i as int), k@, since),
            n <= i,
        decreases times@.len() - i,
    {
        assert(tv.take(i + 1).drop_last() =~= tv.take(i as int));
        if times[i].0 == *k && times[i].1 > since {
            n = n + 1;
        }
        i = i + 1;
    }
    assert(tv.take(times@.len() as int) =~= tv);
    n
}

fn count_project_after(times: &Vec<(ProjectKey, u64)>, k: &ProjectKey, since: u64) -> (r: usize)
    ensures
        r == count_after(times@.map_values(|e: (ProjectKey, u64)| (e.0@, e.1)), k@, since),
{
    let ghost tv = times@.map_values(|e: (ProjectKey, u64)| (e.0@, e.1));
    let mut n: usize = 0;
    let mut i: usize = 0;
    while i < times.len()
        invariant
            i <= times@.len(),
            tv == times@.map_values(|e: (ProjectKey, u64)| (e.0@, e.1)),
            n == count_after(tv.take(i as int), k@, since),
            n <= i,
        decreases times@.len() - i,
    {
        assert(tv.take(i + 1).drop_last() =~= tv.take(i as int));
        if times[i].0.same(k) && times[i].1 > since {
            n = n + 1;
        }
        i = i + 1;
    }
    assert(tv.take(times@.len() as int) =~= tv);
    n
}

/// The position of the first required field that the payload lacks.
fn first_missing(fields: &Vec<String>, payload: &JsonValue) -> (r: Option<usize>)
    ensures
        match r {
            Some(k) => first_missing_field(fields@, *payload, k as int),
            None => forall|j: int| !first_missing_field(fields@, *payload, j),
        },
{
    let mut k: usize = 0;
    while k < fields.len()
        invariant
            k <= fields@.len(),
            forall|j: int| 0 <= j < k ==> resolve(*payload, (#[trigger] fields@[j])@) is Some,
        decreases fields@.len() - k,
    {
        let f = chars_of(fields[k].as_str());
        if resolve_path(payload, f.as_slice()).is_none() {
            return Some(k);
        }
        k = k + 1;
    }
    proof {
        assert forall|j: int| !first_missing_field(fields@, *payload, j) by {
            if first_missing_field(fields@, *payload, j) {
                assert(resolve(*payload, fields@[j]@) is Some);
            }
        }
    }
    None
}

impl TriggerService {
    fn fired_before(&self, trigger_id: &String, signal_id: &String) -> (r: bool)
        ensures
            r == has_fired(self.ledger(), trigger_id@, signal_id@),
    {
        let ghost l = self.ledger();
        let mut i: usize = 0;
        while i < self.fire_ledger.len()
            invariant
                i <= self.fire_ledger@.len(),
                l == self.ledger(),
                forall|j: int| 0 <= j < i ==> !((#[trigger] l[j]).0 == trigger_id@ && l[j].1 == signal_id@),
            decreases self.fire_ledger@.len() - i,
        {
            if self.fire_ledger[i].0 == *trigger_id && self.fire_ledger[i].1 == *signal_id {
                assert(l[i as int].0 == trigger_id@ && l[i as int].1 == signal_id@);
                return true;
            }
            i = i + 1;
        }
        false
    }

    /// The checks before the decision layer for one trigger.
    fn pre_decision_status(&self, project: &ProjectKey, t: &Trigger, signal_id: &String, payload: &JsonValue, depth: Option<u8>, now: u64) -> (r: Option<PreStatus>)
        requires
            self.wf(),
        ensures
            r == pre_status(self.ledger(), self.fire_times(), self.project_fires(), self.project_budget(), self.template_map(),
                *t, project@, signal_id@, *payload, depth, now),
    {
        if self.fired_before(&t.id, signal_id) {
            return Some(PreStatus::Skipped(SkipReason::AlreadyFired));
        }
        if !evaluate_conditions(&t.conditions, payload) {
            return Some(PreStatus::Skipped(SkipReason::ConditionMismatch));
        }
        let next: u8 = match depth {
            Some(d) => d.saturating_add(1),
            None => 1,
        };
        if next > t.max_chain_depth {
            return Some(PreStatus::Skipped(SkipReason::ChainTooDeep));
        }
        let window_start = now.saturating_sub(60_000);
        let count = count_key_after(&self.fire_times, &t.id, window_start);
        if count as u32 >= t.rate_limit.max_per_minute {
            return Some(PreStatus::RateLimited { bucket_capacity: t.rate_limit.max_per_minute });
        }
        let hour_ago = now.saturating_sub(3_600_000);
        let used = count_project_after(&self.project_fires, project, hour_ago);
        if used as u32 >= self.default_project_budget {
            return Some(PreStatus::BudgetExceeded);
        }
        let template = match self.templates.get(&t.run_template_id) {
            Some(tp) => tp,
            None => return None,
        };
        match first_missing(&template.required_fields, payload) {
            Some(k) => {
                proof {
                    let c = choose|c: int| first_missing_field(template.required_fields@, *payload, c);
                    lemma_first_missing_unique(template.required_fields@, *payload, c, k as int);
                }
                Some(PreStatus::Skipped(SkipReason::MissingRequiredField { field: template.required_fields[k].clone() }))
            },
            None => Some(PreStatus::Ready),
        }
    }

    /// The ids, in order, of the triggers that listen to a signal.
    fn matching_trigger_ids(&self, project: &ProjectKey, signal_type: &str, plugin_id: &str) -> (r: Vec<String>)
        requires
            self.wf(),
        ensures
            string_views(r@) == listening(self.trigger_order(), project@, signal_type@, plugin_id@),
    {
        let ghost order = self.trigger_order();
        let st = signal_type.to_owned();
        let pl = plugin_id.to_owned();
        let mut out: Vec<String> = Vec::new();
        let n = self.triggers.len();
        let mut i: usize = 0;
        while i < n
            invariant
                i <= n,
                n == order.len(),
                order == self.trigger_order(),
                st@ == signal_type@,
                pl@ == plugin_id@,
                string_views(out@) == listening(order.take(i as int), project@, signal_type@, plugin_id@),
            decreases n - i,
        {
            let (k, t) = self.triggers.entry_at(i);
            proof {
                assert(order.take(i + 1).drop_last() =~= order.take(i as int));
                assert(order.take(i + 1).last() == order[i as int]);
            }
            let enabled = match t.state {
                TriggerState::Enabled => true,
                _ => false,
            };
            let plugin_ok = match &t.signal_pattern.plugin_id {
                Some(p) => *p == pl,
                None => true,
            };
            if t.project.same(project) && enabled && t.signal_pattern.signal_type == st && plugin_ok {
                let ghost before = out@;
                out.push(k.clone());
                assert(string_views(out@) =~= string_views(before).push(k@));
            }
            i = i + 1;
        }
        assert(order.take(n as int) =~= order);
        out
    }

    /// The triggers listening to a signal that pass every check before the
    /// decision layer, at `now`, in order.
    pub fn decision_candidates_for_signal_at(
        &self,
        project: &ProjectKey,
        signal_id: &String,
        signal_type: &str,
        plugin_id: &str,
        payload: &JsonValue,
        depth: Option<u8>,
        now: u64,
    ) -> (r: Vec<String>)
        requires
            self.wf(),
        ensures
            string_views(r@) == ready_candidates(*self, project@, signal_id@, signal_type@, plugin_id@, *payload, depth, now),
    {
        let ids = self.matching_trigger_ids(project, signal_type, plugin_id);
        let ghost lv = string_views(ids@);
        let ghost f = |id: Seq<char>| pre_status(self.ledger(), self.fire_times(), self.project_fires(), self.project_budget(),
            self.template_map(), self.trigger_map()[id], project@, signal_id@, *payload, depth, now) == Some(PreStatus::Ready);
        proof {
            lemma_listening_in_map(self);
        }
        let mut out: Vec<String> = Vec::new();
        let mut i: usize = 0;
        while i < ids.len()
            invariant
                i <= ids@.len(),
                self.wf(),
                lv == string_views(ids@),
                lv == listening(self.trigger_order(), project@, signal_type@, plugin_id@),
                forall|j: int| 0 <= j < lv.len() ==> self.trigger_map().contains_key(#[trigger] lv[j]),
                f == (|id: Seq<char>| pre_status(self.ledger(), self.fire_times(), self.project_fires(), self.project_budget(),
                    self.template_map(), self.trigger_map()[id], project@, signal_id@, *payload, depth, now) == Some(PreStatus::Ready)),
                string_views(out@) == lv.take(i as int).filter(f),
            decreases ids@.len() - i,
        {
            proof {
                assert(lv.take(i + 1) =~= lv.take(i as int).push(lv[i as int]));
                lv.take(i as int).lemma_filter_push(lv[i as int], f);
                assert(lv[i as int] == ids@[i as int]@);
            }
            proof {
                assert(self.trigger_map().contains_key(lv[i as int]));
            }
            match self.triggers.get(&ids[i]) {
                Some(t) => {
                    let st = self.pre_decision_status(project, t, signal_id, payload, depth, now);
                    let ready = match st {
                        Some(PreStatus::Ready) => true,
                        _ => false,
                    };
                    assert(ready == f(lv[i as int]));
                    if ready {
                        let ghost before = out@;
                        out.push(ids[i].clone());
                        assert(string_views(out@) =~= string_views(before).push(lv[i as int]));
                    }
                },
                None => {},
            }
            i = i + 1;
        }
        assert(lv.take(ids@.len() as int) =~= lv);
        out
    }
}

/// The listening triggers, in order, that pass every check before the
/// decision layer at `now`.
pub open spec fn ready_candidates(
    svc: TriggerService,
    project: (Seq<char>, Seq<char>, Seq<char>),
    signal_id: Seq<char>,
    signal_type: Seq<char>,
    plugin_id: Seq<char>,
    payload: JsonValue,
    depth: Option<u8>,
    now: u64,
) -> Seq<Seq<char>> {
    listening(svc.trigger_order(), project, signal_type, plugin_id).filter(
        |id: Seq<char>| pre_status(svc.ledger(), svc.fire_times(), svc.project_fires(), svc.project_budget(),
            svc.template_map(), svc.trigger_map()[id], project, signal_id, payload, depth, now) == Some(PreStatus::Ready),
    )
}

proof fn lemma_listening_sub(ts: Seq<(Seq<char>, Trigger)>, project: (Seq<char>, Seq<char>, Seq<char>), st: Seq<char>, pl: Seq<char>, j: int)
    requires
        0 <= j < listening(ts, project, st, pl).len(),
    ensures
        exists|i: int| 0 <= i < ts.len() && (#[trigger] ts[i]).0 == listening(ts, project, st, pl)[j],
    decreases ts.len(),
{
    let rest = listening(ts.drop_last(), project, st, pl);
    if j < rest.len() {
        lemma_listening_sub(ts.drop_last(), project, st, pl, j);
        let i = choose|i: int| 0 <= i < ts.drop_last().len() && (#[trigger] ts.drop_last()[i]).0 == rest[j];
        assert(ts[i] == ts.drop_last()[i]);
    } else {
        assert(ts[ts.len() - 1].0 == listening(ts, project, st, pl)[j]);
    }
}

proof fn lemma_listening_in_map(svc: &TriggerService)
    requires
        svc.wf(),
    ensures
        forall|project: (Seq<char>, Seq<char>, Seq<char>), st: Seq<char>, pl: Seq<char>, j: int|
            0 <= j < listening(svc.trigger_order(), project, st, pl).len()
            ==> svc.trigger_map().contains_key(#[trigger] listening(svc.trigger_order(), project, st, pl)[j]),
{
    svc.triggers.lemma_entries();
    assert forall|project: (Seq<char>, Seq<char>, Seq<char>), st: Seq<char>, pl: Seq<char>, j: int|
        0 <= j < listening(svc.trigger_order(), project, st, pl).len()
        implies svc.trigger_map().contains_key(#[trigger] listening(svc.trigger_order(), project, st, pl)[j]) by {
        lemma_listening_sub(svc.trigger_order(), project, st, pl, j);
    }
}

/// A skip reason as plain values.
pub enum SkipView {
    ConditionMismatch,
    ChainTooDeep,
    AlreadyFired,
    MissingRequiredField(Seq<char>),
}

pub open spec fn skip_view(r: SkipReason) -> SkipView {
    match r {
        SkipReason::ConditionMismatch => SkipView::ConditionMismatch,
        SkipReason::ChainTooDeep => SkipView::ChainTooDeep,
        SkipReason::AlreadyFired => SkipView::AlreadyFired,
        SkipReason::MissingRequiredField { field } => SkipView::MissingRequiredField(field@),
    }
}

/// An evaluation event as plain values.
pub enum EventView {
    Skipped { trigger_id: Seq<char>, signal_id: Seq<char>, reason: SkipView, at: u64 },
    RateLimited { trigger_id: Seq<char>, signal_id: Seq<char>, remaining: u32, capacity: u32, at: u64 },
    Suspended { trigger_id: Seq<char>, reason: SuspensionReason, at: u64 },
    Denied { trigger_id: Seq<char>, signal_id: Seq<char>, decision_id: Seq<char>, reason: Seq<char>, at: u64 },
    PendingApproval { trigger_id: Seq<char>, signal_id: Seq<char>, approval_id: Seq<char>, at: u64 },
    Fired { trigger_id: Seq<char>, signal_id: Seq<char>, signal_type: Seq<char>, run_id: Seq<char>, chain_depth: u8, at: u64 },
    Other,
}

pub open spec fn event_view(e: TriggerEvent) -> EventView {
    match e {
        TriggerEvent::TriggerSkipped { trigger_id, signal_id, reason, skipped_at } => EventView::Skipped {
            trigger_id: trigger_id@, signal_id: signal_id@, reason: skip_view(reason), at: skipped_at },
        TriggerEvent::TriggerRateLimited { trigger_id, signal_id, bucket_remaining, bucket_capacity, rate_limited_at } => EventView::RateLimited {
            trigger_id: trigger_id@, signal_id: signal_id@, remaining: bucket_remaining, capacity: bucket_capacity, at: rate_limited_at },
        TriggerEvent::TriggerSuspended { trigger_id, reason, at } => EventView::Suspended { trigger_id: trigger_id@, reason, at },
        TriggerEvent::TriggerDenied { trigger_id, signal_id, decision_id, reason, denied_at } => EventView::Denied {
            trigger_id: trigger_id@, signal_id: signal_id@, decision_id: decision_id@, reason: reason@, at: denied_at },
        TriggerEvent::TriggerPendingApproval { trigger_id, signal_id, approval_id, pending_at } => EventView::PendingApproval {
            trigger_id: trigger_id@, signal_id: signal_id@, approval_id: approval_id@, at: pending_at },
        TriggerEvent::TriggerFired { trigger_id, signal_id, signal_type, run_id, chain_depth, fired_at } => EventView::Fired {
            trigger_id: trigger_id@, signal_id: signal_id@, signal_type: signal_type@, run_id: run_id@, chain_depth, at: fired_at },
        _ => EventView::Other,
    }
}

pub open spec fn event_views(es: Seq<TriggerEvent>) -> Seq<EventView> {
    es.map_values(|e: TriggerEvent| event_view(e))
}

/// The signal being evaluated and the service settings it is evaluated under.
pub struct SignalCtx {
    pub project: (Seq<char>, Seq<char>, Seq<char>),
    pub signal_id: Seq<char>,
    pub signal_type: Seq<char>,
    pub payload: JsonValue,
    pub depth: Option<u8>,
    pub now: u64,
    pub budget: u32,
    pub templates: Map<Seq<char>, RunTemplate>,
}

/// The state an evaluation works on, the events it emitted, and the
/// triggers it put to the decision layer, in order.
pub struct EvalView {
    pub triggers: Map<Seq<char>, Trigger>,
    pub ledger: Seq<(Seq<char>, Seq<char>, u64)>,
    pub fire_times: Seq<(Seq<char>, u64)>,
    pub project_fires: Seq<((Seq<char>, Seq<char>, Seq<char>), u64)>,
    pub events: Seq<EventView>,
    pub asked: Seq<Seq<char>>,
}

/// The id of the run a trigger fires at `now`.
pub open spec fn fired_run_id(trigger_id: Seq<char>, now: u64) -> Seq<char> {
    "run_trigger_"@ + trigger_id + "_"@ + decimal(now as nat)
}

/// One trigger of an evaluation: its checks, then (when ready) the next
/// decision of `outs`.
pub open spec fn eval_step(st: EvalView, id: Seq<char>, c: SignalCtx, outs: Seq<DecisionOutcome>) -> EvalView {
    let t = st.triggers[id];
    match pre_status(st.ledger, st.fire_times, st.project_fires, c.budget, c.templates, t, c.project, c.signal_id, c.payload, c.depth, c.now) {
        None => st,
        Some(PreStatus::Skipped(r)) => EvalView {
            events: st.events.push(EventView::Skipped { trigger_id: id, signal_id: c.signal_id, reason: skip_view(r), at: c.now }),
            ..st
        },
        Some(PreStatus::RateLimited { bucket_capacity }) => EvalView {
            events: st.events.push(EventView::RateLimited { trigger_id: id, signal_id: c.signal_id, remaining: 0, capacity: bucket_capacity, at: c.now }),
            ..st
        },
        Some(PreStatus::BudgetExceeded) => EvalView {
            triggers: st.triggers.insert(id, restated(t, TriggerState::Suspended { reason: SuspensionReason::BudgetExceeded, since: c.now }, c.now)),
            events: st.events.push(EventView::Suspended { trigger_id: id, reason: SuspensionReason::BudgetExceeded, at: c.now }),
            ..st
        },
        Some(PreStatus::Ready) => {
            let asked = st.asked.push(id);
            match outs[st.asked.len() as int] {
                DecisionOutcome::Approved { .. } => EvalView {
                    ledger: st.ledger.push((id, c.signal_id, c.now)),
                    fire_times: st.fire_times.push((id, c.now)),
                    project_fires: st.project_fires.push((c.project, c.now)),
                    events: st.events.push(EventView::Fired {
                        trigger_id: id,
                        signal_id: c.signal_id,
                        signal_type: c.signal_type,
                        run_id: fired_run_id(id, c.now),
                        chain_depth: next_depth(c.depth),
                        at: c.now,
                    }),
                    asked,
                    ..st
                },
                DecisionOutcome::Denied { decision_id, reason } => EvalView {
                    events: st.events.push(EventView::Denied { trigger_id: id, signal_id: c.signal_id, decision_id: decision_id@, reason: reason@, at: c.now }),
                    asked,
                    ..st
                },
                DecisionOutcome::PendingApproval { approval_id } => EvalView {
                    events: st.events.push(EventView::PendingApproval { trigger_id: id, signal_id: c.signal_id, approval_id: approval_id@, at: c.now }),
                    asked,
                    ..st
                },
            }
        },
    }
}

/// An evaluation over the first `k` listening triggers.
pub open spec fn eval_fold(st0: EvalView, ids: Seq<Seq<char>>, k: int, c: SignalCtx, outs: Seq<DecisionOutcome>) -> EvalView
    decreases k,
{
    if k <= 0 {
        st0
    } else {
        eval_step(eval_fold(st0, ids, k - 1, c, outs), ids[k - 1], c, outs)
    }
}

proof fn lemma_step_asked(st: EvalView, id: Seq<char>, c: SignalCtx, outs: Seq<DecisionOutcome>)
    ensures
        eval_step(st, id, c, outs).asked == st.asked || eval_step(st, id, c, outs).asked == st.asked.push(id),
{
}

proof fn lemma_fold_prefix(st0: EvalView, ids: Seq<Seq<char>>, k: int, c: SignalCtx, outs: Seq<DecisionOutcome>, more: Seq<DecisionOutcome>)
    requires
        eval_fold(st0, ids, k, c, outs).asked.len() <= st0.asked.len() + outs.len(),
        st0.asked.len() == 0,
    ensures
        eval_fold(st0, ids, k, c, outs + more) == eval_fold(st0, ids, k, c, outs),
        k > 0 ==> eval_fold(st0, ids, k - 1, c, outs).asked.len() <= eval_fold(st0, ids, k, c, outs).asked.len(),
    decreases k,
{
    if k > 0 {
        let prev = eval_fold(st0, ids, k - 1, c, outs);
        lemma_step_asked(prev, ids[k - 1], c, outs);
        lemma_step_asked(prev, ids[k - 1], c, outs + more);
        lemma_fold_prefix(st0, ids, k - 1, c, outs, more);
        if eval_step(prev, ids[k - 1], c, outs).asked.len() > prev.asked.len() {
            assert((outs + more)[prev.asked.len() as int] == outs[prev.asked.len() as int]);
        }
    }
}

/// The context of an evaluation, built from its arguments.
pub open spec fn signal_ctx(
    project: (Seq<char>, Seq<char>, Seq<char>),
    signal_id: Seq<char>,
    signal_type: Seq<char>,
    payload: JsonValue,
    depth: Option<u8>,
    now: u64,
    budget: u32,
    templates: Map<Seq<char>, RunTemplate>,
) -> SignalCtx {
    SignalCtx { project, signal_id, signal_type, payload, depth, now, budget, templates }
}

/// An evaluation from `before` to `after` that emitted `r` is the fold of
/// its listening triggers, with `outs` the decisions `decide` gave for the
/// triggers `asked`, in order.
pub open spec fn evaluated_as<F: Fn(&String, &str) -> DecisionOutcome>(
    before: TriggerService,
    after: TriggerService,
    r: Seq<TriggerEvent>,
    ids: Seq<Seq<char>>,
    c: SignalCtx,
    decide: F,
    signal_type: &str,
    outs: Seq<DecisionOutcome>,
    asked: Seq<String>,
) -> bool {
    let res = eval_fold(before.start_view(), ids, ids.len() as int, c, outs);
    &&& outs.len() == asked.len()
    &&& forall|k: int| 0 <= k < asked.len() ==> decide.ensures((&asked[k], signal_type), #[trigger] outs[k])
    &&& string_views(asked) == res.asked
    &&& event_views(r) == res.events
    &&& after.current_view(res.events, res.asked) == res
}

impl TriggerService {
    /// The service's state as an evaluation starts from it.
    pub closed spec fn start_view(&self) -> EvalView {
        EvalView {
            triggers: self.trigger_map(),
            ledger: self.ledger(),
            fire_times: self.fire_times(),
            project_fires: self.project_fires(),
            events: Seq::empty(),
            asked: Seq::empty(),
        }
    }

    /// The service's state with the events and decisions so far.
    pub closed spec fn current_view(&self, events: Seq<EventView>, asked: Seq<Seq<char>>) -> EvalView {
        EvalView {
            triggers: self.trigger_map(),
            ledger: self.ledger(),
            fire_times: self.fire_times(),
            project_fires: self.project_fires(),
            events,
            asked,
        }
    }

    /// Evaluates a signal at `now` against the project's triggers that
    /// listen to it, in order. `decide` is the decision layer: it is asked,
    /// for each trigger that passes its checks, whether it may fire.
    pub fn evaluate_signal_at<F: Fn(&String, &str) -> DecisionOutcome>(
        &mut self,
        project: &ProjectKey,
        signal_id: &String,
        signal_type: &str,
        plugin_id: &str,
        payload: &JsonValue,
        depth: Option<u8>,
        decide: &F,
        now: u64,
    ) -> (r: Vec<TriggerEvent>)
        requires
            old(self).wf(),
            forall|t: &String, s: &str| decide.requires((t, s)),
        ensures
            final(self).wf(),
            final(self).template_map() == old(self).template_map(),
            final(self).template_order() == old(self).template_order(),
            final(self).project_budget() == old(self).project_budget(),
            final(self).trigger_order().len() == old(self).trigger_order().len(),
            exists|outs: Seq<DecisionOutcome>, asked: Seq<String>| #[trigger] evaluated_as(
                *old(self), *final(self), r@,
                listening(old(self).trigger_order(), project@, signal_type@, plugin_id@),
                signal_ctx(project@, signal_id@, signal_type@, *payload, depth, now, old(self).project_budget(), old(self).template_map()),
                *decide, signal_type, outs, asked),
    {
        let ids = self.matching_trigger_ids(project, signal_type, plugin_id);
        let ghost lv = string_views(ids@);
        let ghost c = signal_ctx(project@, signal_id@, signal_type@, *payload, depth, now, self.project_budget(), self.template_map());
        let ghost st0 = self.start_view();
        let ghost n0 = self.trigger_order().len();
        let ghost mut outs: Seq<DecisionOutcome> = Seq::empty();
        let ghost mut asked: Seq<String> = Seq::empty();
        proof {
            lemma_listening_in_map(self);
            assert(self.current_view(event_views(Seq::empty()), string_views(Seq::empty())) =~= st0) by {
                assert(event_views(Seq::<TriggerEvent>::empty()) =~= Seq::<EventView>::empty());
                assert(string_views(Seq::<String>::empty()) =~= Seq::<Seq<char>>::empty());
            }
        }
        let mut events: Vec<TriggerEvent> = Vec::new();
        let mut i: usize = 0;
        while i < ids.len()
            invariant
                i <= ids@.len(),
                self.wf(),
                lv == string_views(ids@),
                lv == listening(old(self).trigger_order(), project@, signal_type@, plugin_id@),
                c == signal_ctx(project@, signal_id@, signal_type@, *payload, depth, now, old(self).project_budget(), old(self).template_map()),
                st0 == old(self).start_view(),
                self.template_map() == old(self).template_map(),
                self.template_order() == old(self).template_order(),
                self.project_budget() == old(self).project_budget(),
                self.trigger_order().len() == n0,
                n0 == old(self).trigger_order().len(),
                forall|j: int| 0 <= j < lv.len() ==> self.trigger_map().contains_key(#[trigger] lv[j]),
                forall|t: &String, s: &str| decide.requires((t, s)),
                outs.len() == asked.len(),
                forall|k: int| 0 <= k < asked.len() ==> decide.ensures((&asked[k], signal_type), #[trigger] outs[k]),
                self.current_view(event_views(events@), string_views(asked)) == eval_fold(st0, lv, i as int, c, outs),
            decreases ids@.len() - i,
        {
            let id = &ids[i];
            let ghost before_events = events@;
            let ghost prev = eval_fold(st0, lv, i as int, c, outs);
            proof {
                assert(lv[i as int] == id@);
                assert(self.trigger_map().contains_key(id@));
            }
            let idx = match self.triggers.index_of(id) {
                Some(x) => x,
                None => {
                    proof {
                        assert(false);
                    }
                    i = i + 1;
                    continue;
                },
            };
            let status = {
                let (_, t) = self.triggers.entry_at(idx);
                self.pre_decision_status(project, t, signal_id, payload, depth, now)
            };
            match status {
                None => {
                    assert(self.current_view(event_views(events@), string_views(asked)) =~= eval_step(prev, lv[i as int], c, outs));
                },
                Some(PreStatus::Skipped(reason)) => {
                    events.push(TriggerEvent::TriggerSkipped { trigger_id: id.clone(), signal_id: signal_id.clone(), reason, skipped_at: now });
                    proof {
                        assert(event_views(events@) =~= event_views(before_events).push(event_view(events@.last())));
                        assert(self.current_view(event_views(events@), string_views(asked)) =~= eval_step(prev, lv[i as int], c, outs));
                    }
                },
                Some(PreStatus::RateLimited { bucket_capacity }) => {
                    events.push(TriggerEvent::TriggerRateLimited {
                        trigger_id: id.clone(),
                        signal_id: signal_id.clone(),
                        bucket_remaining: 0,
                        bucket_capacity,
                        rate_limited_at: now,
                    });
                    proof {
                        assert(event_views(events@) =~= event_views(before_events).push(event_view(events@.last())));
                        assert(self.current_view(event_views(events@), string_views(asked)) =~= eval_step(prev, lv[i as int], c, outs));
                    }
                },
                Some(PreStatus::BudgetExceeded) => {
                    self.set_state_at(idx, TriggerState::Suspended { reason: SuspensionReason::BudgetExceeded, since: now }, now);
                    events.push(TriggerEvent::TriggerSuspended { trigger_id: id.clone(), reason: SuspensionReason::BudgetExceeded, at: now });
                    proof {
                        assert(event_views(events@) =~= event_views(before_events).push(event_view(events@.last())));
                        assert(self.current_view(event_views(events@), string_views(asked)) =~= eval_step(prev, lv[i as int], c, outs));
                    }
                },
                Some(PreStatus::Ready) => {
                    let o = decide(id, signal_type);
                    proof {
                        lemma_fold_prefix(st0, lv, i as int, c, outs, seq![o]);
                        assert(outs.push(o) =~= outs + seq![o]);
                        outs = outs.push(o);
                        assert(eval_fold(st0, lv, i as int, c, outs) == prev);
                        asked = asked.push(*id);
                        assert(string_views(asked) =~= prev.asked.push(id@));
                        assert(outs[prev.asked.len() as int] == o);
                    }
                    match o {
                        DecisionOutcome::Approved { .. } => {
                            self.record_ledger(id, signal_id, now);
                            self.fire_times.push((id.clone(), now));
                            self.project_fires.push((project.duplicate(), now));
                            let mut rid: Vec<char> = Vec::new();
                            push_str(&mut rid, "run_trigger_");
                            push_str(&mut rid, id.as_str());
                            push_str(&mut rid, "_");
                            let digits = decimal_chars(now);
                            push_all(&mut rid, digits.as_slice());
                            let run_id = string_from_chars(rid.as_slice());
                            let next: u8 = match depth {
                                Some(d) => d.saturating_add(1),
                                None => 1,
                            };
                            events.push(TriggerEvent::TriggerFired {
                                trigger_id: id.clone(),
                                signal_id: signal_id.clone(),
                                signal_type: signal_type.to_owned(),
                                run_id,
                                chain_depth: next,
                                fired_at: now,
                            });
                            proof {
                                assert(event_views(events@) =~= event_views(before_events).push(event_view(events@.last())));
                                assert(self.fire_times() =~= prev.fire_times.push((id@, now)));
                                assert(self.project_fires() =~= prev.project_fires.push((project@, now)));
                                assert(run_id@ =~= fired_run_id(id@, now));
                                assert(self.current_view(event_views(events@), string_views(asked)) =~= eval_step(prev, lv[i as int], c, outs));
                            }
                        },
                        DecisionOutcome::Denied { decision_id, reason } => {
                            events.push(TriggerEvent::TriggerDenied {
                                trigger_id: id.clone(),
                                signal_id: signal_id.clone(),
                                decision_id,
                                reason,
                                denied_at: now,
                            });
                            proof {
                                assert(event_views(events@) =~= event_views(before_events).push(event_view(events@.last())));
                                assert(self.current_view(event_views(events@), string_views(asked)) =~= eval_step(prev, lv[i as int], c, outs));
                            }
                        },
                        DecisionOutcome::PendingApproval { approval_id } => {
                            events.push(TriggerEvent::TriggerPendingApproval {
                                trigger_id: id.clone(),
                                signal_id: signal_id.clone(),
                                approval_id,
                                pending_at: now,
                            });
                            proof {
                                assert(event_views(events@) =~= event_views(before_events).push(event_view(events@.last())));
                                assert(self.current_view(event_views(events@), string_views(asked)) =~= eval_step(prev, lv[i as int], c, outs));
                            }
                        },
                    }
                },
            }
            proof {
                assert(self.current_view(event_views(events@), string_views(asked)) =~= eval_step(prev, lv[i as int], c, outs));
                assert(eval_fold(st0, lv, i + 1, c, outs) == eval_step(eval_fold(st0, lv, i as int, c, outs), lv[i as int], c, outs));
            }
            i = i + 1;
        }
        proof {
            assert(lv.len() == ids@.len());
            let res = eval_fold(st0, lv, lv.len() as int, c, outs);
            assert(self.current_view(res.events, res.asked) == res);
            assert(evaluated_as(*old(self), *self, events@, lv, c, *decide, signal_type, outs, asked));
        }
        events
    }
}

impl TriggerService {
    /// Evaluates a signal now (see [`TriggerService::evaluate_signal_at`]).
    pub fn evaluate_signal<F: Fn(&String, &str) -> DecisionOutcome>(
        &mut self,
        project: &ProjectKey,
        signal_id: &String,
        signal_type: &str,
        plugin_id: &str,
        payload: &JsonValue,
        depth: Option<u8>,
        decide: &F,
    ) -> (r: Vec<TriggerEvent>)
        requires
            old(self).wf(),
            forall|t: &String, s: &str| decide.requires((t, s)),
        ensures
            final(self).wf(),
            final(self).template_map() == old(self).template_map(),
            exists|now: u64, outs: Seq<DecisionOutcome>, asked: Seq<String>| #[trigger] evaluated_as(
                *old(self), *final(self), r@,
                listening(old(self).trigger_order(), project@, signal_type@, plugin_id@),
                signal_ctx(project@, signal_id@, signal_type@, *payload, depth, now, old(self).project_budget(), old(self).template_map()),
                *decide, signal_type, outs, asked),
            final(self).template_order() == old(self).template_order(),
            final(self).project_budget() == old(self).project_budget(),
            final(self).trigger_order().len() == old(self).trigger_order().len(),
            exists|tm: u64| #[trigger] at_time(tm)
                && (exists|outs: Seq<DecisionOutcome>, asked: Seq<String>| #[trigger] evaluated_as(
                    *old(self), *final(self), r@,
                    listening(old(self).trigger_order(), project@, signal_type@, plugin_id@),
                    signal_ctx(project@, signal_id@, signal_type@, *payload, depth, tm, old(self).project_budget(), old(self).template_map()),
                    *decide, signal_type, outs, asked)),
    {
        let now = now_ms();
        let r = self.evaluate_signal_at(project, signal_id, signal_type, plugin_id, payload, depth, decide, now);
        assert(at_time(now));
        r
    }

    /// The triggers that would be put to the decision layer now.
    pub fn decision_candidates_for_signal(
        &self,
        project: &ProjectKey,
        signal_id: &String,
        signal_type: &str,
        plugin_id: &str,
        payload: &JsonValue,
        depth: Option<u8>,
    ) -> (r: Vec<String>)
        requires
            self.wf(),
        ensures
            exists|now: u64| string_views(r@) == #[trigger] ready_candidates(*self, project@, signal_id@, signal_type@, plugin_id@, *payload, depth, now),
            exists|tm: u64| #[trigger] at_time(tm)
                && (string_views(r@) == ready_candidates(*self, project@, signal_id@, signal_type@, plugin_id@, *payload, depth, tm)),
    {
        let now = now_ms();
        let r = self.decision_candidates_for_signal_at(project, signal_id, signal_type, plugin_id, payload, depth, now);
        assert(at_time(now));
        r
    }
}

/// The id of an automatic approval made at `now`.
pub open spec fn auto_decision_id(now: u64) -> Seq<char> {
    "auto_"@ + decimal(now as nat)
}

/// The decision layer that approves every fire (with an `auto_<now>` id).
pub fn auto_approve_decision(trigger_id: &String, signal_type: &str) -> (r: DecisionOutcome)
    ensures
        r matches DecisionOutcome::Approved { decision_id } && exists|now: u64| decision_id@ == #[trigger] auto_decision_id(now),
{
    let now = now_ms();
    let mut v: Vec<char> = Vec::new();
    push_str(&mut v, "auto_");
    let d = decimal_chars(now);
    push_all(&mut v, d.as_slice());
    let id = string_from_chars(v.as_slice());
    assert(id@ == auto_decision_id(now));
    DecisionOutcome::Approved { decision_id: id }
}

/// A trigger that already fired for a signal is skipped when the signal
/// comes again (a retried webhook or a replay): it never fires twice for
/// one signal.
pub proof fn law_fired_trigger_is_skipped(st: EvalView, id: Seq<char>, c: SignalCtx, outs: Seq<DecisionOutcome>)
    requires
        has_fired(st.ledger, st.triggers[id].id@, c.signal_id),
    ensures
        eval_step(st, id, c, outs).events == st.events.push(EventView::Skipped {
            trigger_id: id,
            signal_id: c.signal_id,
            reason: SkipView::AlreadyFired,
            at: c.now,
        }),
        eval_step(st, id, c, outs).ledger == st.ledger,
{
}

/// An evaluation only adds to the ledger, and every trigger it fires is in
/// the ledger for the signal afterwards.
pub proof fn law_fires_are_recorded(st0: EvalView, ids: Seq<Seq<char>>, k: int, c: SignalCtx, outs: Seq<DecisionOutcome>)
    requires
        0 <= k <= ids.len(),
        forall|j: int| 0 <= j < ids.len() ==> st0.triggers.contains_key(#[trigger] ids[j]) && st0.triggers[ids[j]].id@ == ids[j],
    ensures
        forall|t: Seq<char>, s: Seq<char>| has_fired(st0.ledger, t, s) ==> has_fired(eval_fold(st0, ids, k, c, outs).ledger, t, s),
        forall|j: int| 0 <= j < k && (#[trigger] eval_fold(st0, ids, j + 1, c, outs).events.last()) is Fired
            && eval_fold(st0, ids, j + 1, c, outs).events.len() > eval_fold(st0, ids, j, c, outs).events.len()
            ==> has_fired(eval_fold(st0, ids, k, c, outs).ledger, ids[j], c.signal_id),
    decreases k,
{
    if k > 0 {
        law_fires_are_recorded(st0, ids, k - 1, c, outs);
        let prev = eval_fold(st0, ids, k - 1, c, outs);
        let cur = eval_fold(st0, ids, k, c, outs);
        assert forall|t: Seq<char>, s: Seq<char>| has_fired(prev.ledger, t, s) implies has_fired(cur.ledger, t, s) by {
            let j = choose|j: int| 0 <= j < prev.ledger.len() && (#[trigger] prev.ledger[j]).0 == t && prev.ledger[j].1 == s;
            if cur.ledger != prev.ledger {
                assert(cur.ledger == prev.ledger.push((ids[k - 1], c.signal_id, c.now)));
                assert(cur.ledger[j] == prev.ledger[j]);
            }
        }
        assert forall|j: int| 0 <= j < k && (#[trigger] eval_fold(st0, ids, j + 1, c, outs).events.last()) is Fired
            && eval_fold(st0, ids, j + 1, c, outs).events.len() > eval_fold(st0, ids, j, c, outs).events.len()
            implies has_fired(cur.ledger, ids[j], c.signal_id) by {
            if j < k - 1 {
            } else {
                let st = prev;
                if cur.events.last() is Fired && cur.events.len() > prev.events.len() {
                    assert(cur.ledger == prev.ledger.push((ids[k - 1], c.signal_id, c.now)));
                    assert(cur.ledger[prev.ledger.len() as int] == (ids[k - 1], c.signal_id, c.now));
                }
            }
        }
    }
}

/// A trigger fires only for a signal it has not fired for, whose payload
/// meets its conditions, within its chain depth, under its per-minute rate
/// and the project's hourly budget, and with its run template present.
pub proof fn law_fire_respects_chain_depth(st: EvalView, id: Seq<char>, c: SignalCtx, outs: Seq<DecisionOutcome>)
    requires
        eval_step(st, id, c, outs).events.len() > st.events.len(),
        eval_step(st, id, c, outs).events.last() is Fired,
    ensures
        next_depth(c.depth) <= st.triggers[id].max_chain_depth,
        all_hold(st.triggers[id].conditions@, c.payload),
        !has_fired(st.ledger, st.triggers[id].id@, c.signal_id),
        (count_after(st.fire_times, st.triggers[id].id@, sat_sub(c.now, 60_000)) as u32) < st.triggers[id].rate_limit.max_per_minute,
        (count_after(st.project_fires, c.project, sat_sub(c.now, 3_600_000)) as u32) < c.budget,
        c.templates.contains_key(st.triggers[id].run_template_id@),
{
}

} // verus!
