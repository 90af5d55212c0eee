//! The proposal cache of tool-call approvals: the state machine that the
//! operator's approve, reject and amend, and an approval timeout, drive.
//!
//! Each decision first claims its transition here, then the caller appends
//! the decision event to the log; if that append fails, the caller reverts
//! the claim, and the cache is as it was. A proposal is resolved at most
//! once: once approved or rejected, every later claim is refused.
use vstd::prelude::*;
use crate::alist::TextMap;
use crate::domain::ProjectKey;
use crate::json::{json_copy, json_copy_of, JsonValue};
use crate::runtime_error::{not_found, RuntimeError};
use crate::text::{clone_opt_string, opt_str_view};

verus! {

/// Lifecycle of a cached proposal.
#[derive(Debug, Clone, Copy, PartialEq, Eq, Structural)]
pub enum ProposalState {
    Pending,
    Amended,
    Approved,
    Rejected,
}

/// The state's name, as the transition errors print it.
pub open spec fn state_name(s: ProposalState) -> Seq<char> {
    match s {
        ProposalState::Pending => "pending"@,
        ProposalState::Amended => "amended"@,
        ProposalState::Approved => "approved"@,
        ProposalState::Rejected => "rejected"@,
    }
}

fn state_name_of(s: ProposalState) -> (r: String)
    ensures
        r@ == state_name(s),
{
    match s {
        ProposalState::Pending => "pending".to_owned(),
        ProposalState::Amended => "amended".to_owned(),
        ProposalState::Approved => "approved".to_owned(),
        ProposalState::Rejected => "rejected".to_owned(),
    }
}

/// Whether a proposal has been decided.
pub open spec fn resolved(s: ProposalState) -> bool {
    s == ProposalState::Approved || s == ProposalState::Rejected
}

/// A cached proposal.
#[derive(Debug)]
pub struct ProposalEntry {
    pub project: ProjectKey,
    pub session_id: String,
    pub tool_name: String,
    pub tool_args: JsonValue,
    pub state: ProposalState,
    /// The latest amended arguments, if any.
    pub amended_args: Option<JsonValue>,
    /// The arguments the operator approved, if any.
    pub approved_args: Option<JsonValue>,
    /// Why it was rejected, if it was.
    pub rejection_reason: Option<String>,
}

/// The arguments a proposal runs with: the approved ones, else the amended
/// ones, else those proposed.
pub open spec fn effective_args(e: ProposalEntry) -> JsonValue {
    match e.approved_args {
        Some(a) => a,
        None => match e.amended_args {
            Some(a) => a,
            None => e.tool_args,
        },
    }
}

/// An approval's scope: this call only, or every later matching call of the
/// session under the given match policy.
#[derive(Debug)]
pub enum ApprovalScope<P> {
    Once,
    Session { match_policy: P },
}

/// A session-wide approval: a tool, the arguments it was approved with and
/// the policy by which later proposals match it.
#[derive(Debug)]
pub struct AllowRule<P> {
    pub tool_name: String,
    pub tool_args: JsonValue,
    pub policy: P,
}

/// How a new proposal was received.
#[derive(Debug, Clone, Copy, PartialEq, Eq, Structural)]
pub enum ApprovalDecision {
    AutoApproved,
    PendingOperator,
}

/// Why a decision on a proposal was refused.
#[derive(Debug)]
pub enum ApprovalError {
    /// No proposal with that call id is cached.
    NotFound,
    /// The proposal is in a state that does not allow the transition.
    InvalidTransition { from: String, to: String },
}

impl ApprovalError {
    /// The service error for a refused decision on the proposal `call_id`:
    /// a `NotFound` or `InvalidTransition` of a `tool_call_approval`.
    pub fn into_runtime(self, call_id: &str) -> (r: RuntimeError)
        ensures
            match self {
                ApprovalError::NotFound => r matches RuntimeError::NotFound { entity, id } && entity@ == "tool_call_approval"@
                    && id@ == call_id@,
                ApprovalError::InvalidTransition { from, to } => r matches RuntimeError::InvalidTransition { entity, from: f, to: t }
                    && entity@ == "tool_call_approval"@ && f == from && t == to,
            },
    {
        match self {
            ApprovalError::NotFound => not_found("tool_call_approval", call_id),
            ApprovalError::InvalidTransition { from, to } => RuntimeError::InvalidTransition {
                entity: "tool_call_approval".to_owned(),
                from,
                to,
            },
        }
    }
}

/// What an approval claimed: what its event and its waiting caller need,
/// and what a revert restores.
#[derive(Debug)]
pub struct ApproveClaim<P> {
    pub project: ProjectKey,
    pub session_id: String,
    pub previous_state: ProposalState,
    pub effective_args: JsonValue,
    pub allow_rule: Option<AllowRule<P>>,
}

/// What a rejection claimed.
#[derive(Debug)]
pub struct RejectClaim {
    pub project: ProjectKey,
    pub session_id: String,
    pub previous_state: ProposalState,
    pub previous_reason: Option<String>,
}

/// What an amendment claimed.
#[derive(Debug)]
pub struct AmendClaim {
    pub project: ProjectKey,
    pub session_id: String,
    pub previous_state: ProposalState,
    pub previous_amended: Option<JsonValue>,
}

/// A decided proposal, as a waiting caller receives it.
#[derive(Debug)]
pub enum OperatorDecision {
    Approved { approved_args: JsonValue },
    Rejected { reason: Option<String> },
}

/// The reason recorded when nobody decided in time.
pub open spec fn timeout_reason() -> Seq<char> {
    "operator_timeout"@
}

/// The cache of proposals and the session allow registry.
pub struct ApprovalCache<P> {
    proposals: TextMap<ProposalEntry>,
    allow_registry: TextMap<Vec<AllowRule<P>>>,
}

/// The entry after a successful approval claim.
pub open spec fn approved_entry(e: ProposalEntry, args: Option<JsonValue>) -> ProposalEntry {
    ProposalEntry {
        state: ProposalState::Approved,
        approved_args: match args {
            Some(a) => Some(a),
            None => e.approved_args,
        },
        ..e
    }
}

/// The entry after a successful rejection claim.
pub open spec fn rejected_entry(e: ProposalEntry, reason: Option<String>) -> ProposalEntry {
    ProposalEntry { state: ProposalState::Rejected, rejection_reason: reason, ..e }
}

/// The entry after a successful amendment claim.
pub open spec fn amended_entry(e: ProposalEntry, args: JsonValue) -> ProposalEntry {
    ProposalEntry { state: ProposalState::Amended, amended_args: Some(args), ..e }
}

impl<P> ApprovalCache<P> {
    pub closed spec fn proposals(&self) -> Map<Seq<char>, ProposalEntry> {
        self.proposals@
    }

    pub closed spec fn rules(&self) -> Map<Seq<char>, Seq<AllowRule<P>>> {
        self.allow_registry@.map_values(|v: Vec<AllowRule<P>>| v@)
    }

    pub closed spec fn wf(&self) -> bool {
        self.proposals.wf() && self.allow_registry.wf()
    }

    /// An empty cache.
    pub fn new() -> (r: Self)
        ensures
            r.wf(),
            r.proposals() == Map::<Seq<char>, ProposalEntry>::empty(),
            r.rules() == Map::<Seq<char>, Seq<AllowRule<P>>>::empty(),
    {
        let r = ApprovalCache { proposals: TextMap::new(), allow_registry: TextMap::new() };
        assert(r.rules() =~= Map::<Seq<char>, Seq<AllowRule<P>>>::empty());
        r
    }

    /// The cached proposal under `call_id`.
    pub fn entry(&self, call_id: &String) -> (r: Option<&ProposalEntry>)
        requires
            self.wf(),
        ensures
            match r {
                Some(e) => self.proposals().contains_key(call_id@) && *e == self.proposals()[call_id@],
                None => !self.proposals().contains_key(call_id@),
            },
    {
        self.proposals.get(call_id)
    }

    /// The allow rules of a session, to test a new proposal against.
    pub fn session_rules(&self, session_id: &String) -> (r: Option<&Vec<AllowRule<P>>>)
        requires
            self.wf(),
        ensures
            match r {
                Some(v) => self.rules().contains_key(session_id@) && v@ == self.rules()[session_id@],
                None => !self.rules().contains_key(session_id@),
            },
    {
        self.allow_registry.get(session_id)
    }

    /// Caches a new proposal, pending. When one of its session's allow rules
    /// matches it (`rule_matches`), it is approved at once.
    pub fn submit(
        &mut self,
        call_id: String,
        project: ProjectKey,
        session_id: String,
        tool_name: String,
        tool_args: JsonValue,
        rule_matches: bool,
    ) -> (r: ApprovalDecision)
        requires
            old(self).wf(),
        ensures
            final(self).wf(),
            final(self).rules() == old(self).rules(),
            final(self).proposals() == old(self).proposals().insert(call_id@, ProposalEntry {
                project,
                session_id,
                tool_name,
                tool_args,
                state: if rule_matches { ProposalState::Approved } else { ProposalState::Pending },
                amended_args: None,
                approved_args: None,
                rejection_reason: None,
            }),
            r == if rule_matches { ApprovalDecision::AutoApproved } else { ApprovalDecision::PendingOperator },
    {
        let state = if rule_matches { ProposalState::Approved } else { ProposalState::Pending };
        let e = ProposalEntry {
            project,
            session_id,
            tool_name,
            tool_args,
            state,
            amended_args: None,
            approved_args: None,
            rejection_reason: None,
        };
        self.proposals.insert(call_id, e);
        if rule_matches { ApprovalDecision::AutoApproved } else { ApprovalDecision::PendingOperator }
    }

    fn refuse(state: ProposalState, to: &str) -> (r: ApprovalError)
        ensures
            r matches ApprovalError::InvalidTransition { from, to: t } && from@ == state_name(state) && t@ == to@,
    {
        ApprovalError::InvalidTransition { from: state_name_of(state), to: to.to_owned() }
    }

    /// Claims the approval of a pending or amended proposal: folds in the
    /// operator's arguments, marks it approved, and returns its effective
    /// arguments and, for a session-wide approval, the allow rule to
    /// register once the event is stored.
    pub fn claim_approve(&mut self, call_id: &String, scope: ApprovalScope<P>, approved_args: Option<JsonValue>) -> (r: Result<ApproveClaim<P>, ApprovalError>)
        requires
            old(self).wf(),
        ensures
            final(self).wf(),
            final(self).rules() == old(self).rules(),
            !old(self).proposals().contains_key(call_id@) ==> r matches Err(ApprovalError::NotFound),
            old(self).proposals().contains_key(call_id@) && resolved(old(self).proposals()[call_id@].state) ==> (
                r matches Err(ApprovalError::InvalidTransition { from, to }) && from@ == state_name(old(self).proposals()[call_id@].state)
                    && to@ == "approved"@),
            r is Err ==> final(self).proposals() == old(self).proposals(),
            r matches Ok(c) ==> {
                let e = old(self).proposals()[call_id@];
                let n = approved_entry(e, approved_args);
                &&& old(self).proposals().contains_key(call_id@)
                &&& !resolved(e.state)
                &&& final(self).proposals() == old(self).proposals().insert(call_id@, n)
                &&& c.previous_state == e.state
                &&& c.project@ == e.project@
                &&& c.session_id@ == e.session_id@
                &&& json_copy_of(effective_args(n), c.effective_args)
                &&& match scope {
                    ApprovalScope::Once => c.allow_rule is None,
                    ApprovalScope::Session { match_policy } => c.allow_rule matches Some(rule)
                        && rule.tool_name@ == e.tool_name@ && rule.policy == match_policy
                        && json_copy_of(effective_args(n), rule.tool_args),
                }
            },
            old(self).proposals().contains_key(call_id@) && !resolved(old(self).proposals()[call_id@].state) ==> r is Ok,
    {
        let e = match self.proposals.remove(call_id) {
            Some(e) => e,
            None => return Err(ApprovalError::NotFound),
        };
        if e.state == ProposalState::Approved || e.state == ProposalState::Rejected {
            let st = e.state;
            self.proposals.insert(call_id.clone(), e);
            proof {
                assert(self.proposals@ =~= old(self).proposals@);
            }
            return Err(Self::refuse(st, "approved"));
        }
        let previous_state = e.state;
        let n = ProposalEntry {
            project: e.project,
            session_id: e.session_id,
            tool_name: e.tool_name,
            tool_args: e.tool_args,
            state: ProposalState::Approved,
            amended_args: e.amended_args,
            approved_args: match approved_args {
                Some(a) => Some(a),
                None => e.approved_args,
            },
            rejection_reason: e.rejection_reason,
        };
        let effective = match &n.approved_args {
            Some(a) => json_copy(a),
            None => match &n.amended_args {
                Some(a) => json_copy(a),
                None => json_copy(&n.tool_args),
            },
        };
        let allow_rule = match scope {
            ApprovalScope::Once => None,
            ApprovalScope::Session { match_policy } => {
                let args = match &n.approved_args {
                    Some(a) => json_copy(a),
                    None => match &n.amended_args {
                        Some(a) => json_copy(a),
                        None => json_copy(&n.tool_args),
                    },
                };
                Some(AllowRule { tool_name: n.tool_name.clone(), tool_args: args, policy: match_policy })
            },
        };
        let project = n.project.duplicate();
        let session_id = n.session_id.clone();
        self.proposals.insert(call_id.clone(), n);
        proof {
            assert(self.proposals@ =~= old(self).proposals@.insert(call_id@, n));
        }
        Ok(ApproveClaim { project, session_id, previous_state, effective_args: effective, allow_rule })
    }

    /// Undoes an approval claim whose event could not be stored: an entry
    /// still approved goes back to its previous state, without the
    /// operator's arguments when the approval brought some.
    pub fn revert_approve(&mut self, call_id: &String, previous_state: ProposalState, had_args: bool)
        requires
            old(self).wf(),
        ensures
            final(self).wf(),
            final(self).rules() == old(self).rules(),
            final(self).proposals() == if old(self).proposals().contains_key(call_id@)
                && old(self).proposals()[call_id@].state == ProposalState::Approved {
                let e = old(self).proposals()[call_id@];
                old(self).proposals().insert(call_id@, ProposalEntry {
                    state: previous_state,
                    approved_args: if had_args { None } else { e.approved_args },
                    ..e
                })
            } else {
                old(self).proposals()
            },
    {
        match self.proposals.remove(call_id) {
            Some(e) => {
                if e.state == ProposalState::Approved {
                    let n = ProposalEntry {
                        project: e.project,
                        session_id: e.session_id,
                        tool_name: e.tool_name,
                        tool_args: e.tool_args,
                        state: previous_state,
                        amended_args: e.amended_args,
                        approved_args: if had_args { None } else { e.approved_args },
                        rejection_reason: e.rejection_reason,
                    };
                    self.proposals.insert(call_id.clone(), n);
                    proof {
                        assert(self.proposals@ =~= old(self).proposals@.insert(call_id@, n));
                    }
                } else {
                    self.proposals.insert(call_id.clone(), e);
                    proof {
                        assert(self.proposals@ =~= old(self).proposals@);
                    }
                }
            },
            None => {},
        }
    }

    /// Registers a session-wide approval, after its event was stored.
    pub fn register_rule(&mut self, session_id: &String, rule: AllowRule<P>)
        requires
            old(self).wf(),
        ensures
            final(self).wf(),
            final(self).proposals() == old(self).proposals(),
            final(self).rules() == old(self).rules().insert(session_id@, if old(self).rules().contains_key(session_id@) {
                old(self).rules()[session_id@].push(rule)
            } else {
                seq![rule]
            }),
    {
        let mut rules = match self.allow_registry.remove(session_id) {
            Some(v) => v,
            None => Vec::new(),
        };
        let ghost before = rules@;
        rules.push(rule);
        self.allow_registry.insert(session_id.clone(), rules);
        proof {
            if old(self).rules().contains_key(session_id@) {
                assert(before == old(self).rules()[session_id@]);
            } else {
                assert(rules@ =~= seq![rule]);
            }
            assert(self.rules() =~= old(self).rules().insert(session_id@, rules@));
        }
    }

    /// Finishes an approval once its event was appended (or not): when the
    /// append failed, the claim is reverted (see
    /// [`ApprovalCache::revert_approve`]) and the append's error returned;
    /// when it succeeded, a session-scoped approval registers its allow rule
    /// for the session, and the effective arguments are returned for the
    /// caller waiting on the decision.
    pub fn finish_approve<E>(&mut self, call_id: &String, claim: ApproveClaim<P>, had_args: bool, append: Result<(), E>) -> (r: Result<JsonValue, E>)
        requires
            old(self).wf(),
        ensures
            final(self).wf(),
            match append {
                Err(e) => r == Err::<JsonValue, E>(e) && final(self).rules() == old(self).rules()
                    && final(self).proposals() == if old(self).proposals().contains_key(call_id@)
                    && old(self).proposals()[call_id@].state == ProposalState::Approved {
                    let en = old(self).proposals()[call_id@];
                    old(self).proposals().insert(call_id@, ProposalEntry {
                        state: claim.previous_state,
                        approved_args: if had_args { None } else { en.approved_args },
                        ..en
                    })
                } else {
                    old(self).proposals()
                },
                Ok(_) => r == Ok::<JsonValue, E>(claim.effective_args) && final(self).proposals() == old(self).proposals()
                    && final(self).rules() == match claim.allow_rule {
                    Some(rule) => old(self).rules().insert(claim.session_id@, if old(self).rules().contains_key(claim.session_id@) {
                        old(self).rules()[claim.session_id@].push(rule)
                    } else {
                        seq![rule]
                    }),
                    None => old(self).rules(),
                },
            },
    {
        match append {
            Err(e) => {
                self.revert_approve(call_id, claim.previous_state, had_args);
                Err(e)
            },
            Ok(()) => {
                let ApproveClaim { project, session_id, previous_state, effective_args, allow_rule } = claim;
                match allow_rule {
                    Some(rule) => {
                        self.register_rule(&session_id, rule);
                    },
                    None => {},
                }
                Ok(effective_args)
            },
        }
    }

    /// Claims the rejection of a pending or amended proposal.
    pub fn claim_reject(&mut self, call_id: &String, reason: Option<String>) -> (r: Result<RejectClaim, ApprovalError>)
        requires
            old(self).wf(),
        ensures
            final(self).wf(),
            final(self).rules() == old(self).rules(),
            !old(self).proposals().contains_key(call_id@) ==> r matches Err(ApprovalError::NotFound),
            old(self).proposals().contains_key(call_id@) && resolved(old(self).proposals()[call_id@].state) ==> (
                r matches Err(ApprovalError::InvalidTransition { from, to }) && from@ == state_name(old(self).proposals()[call_id@].state)
                    && to@ == "rejected"@),
            r is Err ==> final(self).proposals() == old(self).proposals(),
            r matches Ok(c) ==> {
                let e = old(self).proposals()[call_id@];
                &&& old(self).proposals().contains_key(call_id@)
                &&& !resolved(e.state)
                &&& final(self).proposals() == old(self).proposals().insert(call_id@, rejected_entry(e, reason))
                &&& c.previous_state == e.state
                &&& opt_str_view(c.previous_reason) == opt_str_view(e.rejection_reason)
                &&& c.project@ == e.project@
                &&& c.session_id@ == e.session_id@
            },
            old(self).proposals().contains_key(call_id@) && !resolved(old(self).proposals()[call_id@].state) ==> r is Ok,
    {
        let e = match self.proposals.remove(call_id) {
            Some(e) => e,
            None => return Err(ApprovalError::NotFound),
        };
        if e.state == ProposalState::Approved || e.state == ProposalState::Rejected {
            let st = e.state;
            self.proposals.insert(call_id.clone(), e);
            proof {
                assert(self.proposals@ =~= old(self).proposals@);
            }
            return Err(Self::refuse(st, "rejected"));
        }
        let previous_state = e.state;
        let previous_reason = clone_opt_string(&e.rejection_reason);
        let project = e.project.duplicate();
        let session_id = e.session_id.clone();
        let n = ProposalEntry {
            project: e.project,
            session_id: e.session_id,
            tool_name: e.tool_name,
            tool_args: e.tool_args,
            state: ProposalState::Rejected,
            amended_args: e.amended_args,
            approved_args: e.approved_args,
            rejection_reason: reason,
        };
        self.proposals.insert(call_id.clone(), n);
        proof {
            assert(self.proposals@ =~= old(self).proposals@.insert(call_id@, n));
        }
        Ok(RejectClaim { project, session_id, previous_state, previous_reason })
    }

    /// Claims the rejection of a proposal nobody decided in time, with the
    /// timeout reason; nothing when it was decided meanwhile or is not cached.
    pub fn claim_timeout(&mut self, call_id: &String) -> (r: Option<RejectClaim>)
        requires
            old(self).wf(),
        ensures
            final(self).wf(),
            final(self).rules() == old(self).rules(),
            r is None <==> !old(self).proposals().contains_key(call_id@) || resolved(old(self).proposals()[call_id@].state),
            r is None ==> final(self).proposals() == old(self).proposals(),
            r matches Some(c) ==> {
                let e = old(self).proposals()[call_id@];
                &&& final(self).proposals()[call_id@].state == ProposalState::Rejected
                &&& opt_str_view(final(self).proposals()[call_id@].rejection_reason) == Some(timeout_reason())
                &&& final(self).proposals() == old(self).proposals().insert(call_id@, final(self).proposals()[call_id@])
                &&& final(self).proposals()[call_id@] == ProposalEntry {
                    state: ProposalState::Rejected,
                    rejection_reason: final(self).proposals()[call_id@].rejection_reason,
                    ..e
                }
                &&& c.previous_state == e.state
                &&& opt_str_view(c.previous_reason) == opt_str_view(e.rejection_reason)
            },
    {
        let reason = "operator_timeout".to_owned();
        match self.claim_reject(call_id, Some(reason)) {
            Ok(c) => Some(c),
            Err(_) => None,
        }
    }

    /// Undoes a rejection claim whose event could not be stored.
    pub fn revert_reject(&mut self, call_id: &String, previous_state: ProposalState, previous_reason: Option<String>)
        requires
            old(self).wf(),
        ensures
            final(self).wf(),
            final(self).rules() == old(self).rules(),
            final(self).proposals() == if old(self).proposals().contains_key(call_id@)
                && old(self).proposals()[call_id@].state == ProposalState::Rejected {
                let e = old(self).proposals()[call_id@];
                old(self).proposals().insert(call_id@, ProposalEntry {
                    state: previous_state,
                    rejection_reason: previous_reason,
                    ..e
                })
            } else {
                old(self).proposals()
            },
    {
        match self.proposals.remove(call_id) {
            Some(e) => {
                if e.state == ProposalState::Rejected {
                    let n = ProposalEntry {
                        project: e.project,
                        session_id: e.session_id,
                        tool_name: e.tool_name,
                        tool_args: e.tool_args,
                        state: previous_state,
                        amended_args: e.amended_args,
                        approved_args: e.approved_args,
                        rejection_reason: previous_reason,
                    };
                    self.proposals.insert(call_id.clone(), n);
                    proof {
                        assert(self.proposals@ =~= old(self).proposals@.insert(call_id@, n));
                    }
                } else {
                    self.proposals.insert(call_id.clone(), e);
                    proof {
                        assert(self.proposals@ =~= old(self).proposals@);
                    }
                }
            },
            None => {},
        }
    }

    /// Claims an amendment of a pending or amended proposal: its new
    /// arguments replace any earlier amendment; it stays undecided.
    pub fn claim_amend(&mut self, call_id: &String, new_args: JsonValue) -> (r: Result<AmendClaim, ApprovalError>)
        requires
            old(self).wf(),
        ensures
            final(self).wf(),
            final(self).rules() == old(self).rules(),
            !old(self).proposals().contains_key(call_id@) ==> r matches Err(ApprovalError::NotFound),
            old(self).proposals().contains_key(call_id@) && resolved(old(self).proposals()[call_id@].state) ==> (
                r matches Err(ApprovalError::InvalidTransition { from, to }) && from@ == state_name(old(self).proposals()[call_id@].state)
                    && to@ == "amended"@),
            r is Err ==> final(self).proposals() == old(self).proposals(),
            r matches Ok(c) ==> {
                let e = old(self).proposals()[call_id@];
                &&& old(self).proposals().contains_key(call_id@)
                &&& !resolved(e.state)
                &&& final(self).proposals() == old(self).proposals().insert(call_id@, amended_entry(e, new_args))
                &&& c.previous_state == e.state
                &&& c.project@ == e.project@
                &&& c.session_id@ == e.session_id@
                &&& c.previous_amended is Some == e.amended_args is Some
                &&& (c.previous_amended matches Some(a) ==> json_copy_of(e.amended_args->0, a))
            },
            old(self).proposals().contains_key(call_id@) && !resolved(old(self).proposals()[call_id@].state) ==> r is Ok,
    {
        let e = match self.proposals.remove(call_id) {
            Some(e) => e,
            None => return Err(ApprovalError::NotFound),
        };
        if e.state == ProposalState::Approved || e.state == ProposalState::Rejected {
            let st = e.state;
            self.proposals.insert(call_id.clone(), e);
            proof {
                assert(self.proposals@ =~= old(self).proposals@);
            }
            return Err(Self::refuse(st, "amended"));
        }
        let previous_state = e.state;
        let previous_amended = match &e.amended_args {
            Some(a) => Some(json_copy(a)),
            None => None,
        };
        let project = e.project.duplicate();
        let session_id = e.session_id.clone();
        let n = ProposalEntry {
            project: e.project,
            session_id: e.session_id,
            tool_name: e.tool_name,
            tool_args: e.tool_args,
            state: ProposalState::Amended,
            amended_args: Some(new_args),
            approved_args: e.approved_args,
            rejection_reason: e.rejection_reason,
        };
        self.proposals.insert(call_id.clone(), n);
        proof {
            assert(self.proposals@ =~= old(self).proposals@.insert(call_id@, n));
        }
        Ok(AmendClaim { project, session_id, previous_state, previous_amended })
    }

    /// Undoes an amendment claim whose event could not be stored.
    pub fn revert_amend(&mut self, call_id: &String, previous_state: ProposalState, previous_amended: Option<JsonValue>)
        requires
            old(self).wf(),
        ensures
            final(self).wf(),
            final(self).rules() == old(self).rules(),
            final(self).proposals() == if old(self).proposals().contains_key(call_id@) {
                let e = old(self).proposals()[call_id@];
                old(self).proposals().insert(call_id@, ProposalEntry {
                    state: previous_state,
                    amended_args: previous_amended,
                    ..e
                })
            } else {
                old(self).proposals()
            },
    {
        match self.proposals.remove(call_id) {
            Some(e) => {
                let n = ProposalEntry {
                    project: e.project,
                    session_id: e.session_id,
                    tool_name: e.tool_name,
                    tool_args: e.tool_args,
                    state: previous_state,
                    amended_args: previous_amended,
                    approved_args: e.approved_args,
                    rejection_reason: e.rejection_reason,
                };
                self.proposals.insert(call_id.clone(), n);
                proof {
                    assert(self.proposals@ =~= old(self).proposals@.insert(call_id@, n));
                }
            },
            None => {},
        }
    }

    /// The decision already taken on a proposal, for a caller about to wait
    /// for one: the effective arguments of an approved proposal, the
    /// reason of a rejected one; nothing while it is undecided or unknown.
    pub fn decided(&self, call_id: &String) -> (r: Option<OperatorDecision>)
        requires
            self.wf(),
        ensures
            r is None <==> !self.proposals().contains_key(call_id@) || !resolved(self.proposals()[call_id@].state),
            r matches Some(OperatorDecision::Approved { approved_args }) ==> self.proposals()[call_id@].state
                == ProposalState::Approved && json_copy_of(effective_args(self.proposals()[call_id@]), approved_args),
            r matches Some(OperatorDecision::Rejected { reason }) ==> self.proposals()[call_id@].state
                == ProposalState::Rejected && opt_str_view(reason) == opt_str_view(self.proposals()[call_id@].rejection_reason),
    {
        match self.proposals.get(call_id) {
            Some(e) => {
                if e.state == ProposalState::Approved {
                    Some(OperatorDecision::Approved { approved_args: Self::effective_of(e) })
                } else if e.state == ProposalState::Rejected {
                    Some(OperatorDecision::Rejected { reason: clone_opt_string(&e.rejection_reason) })
                } else {
                    None
                }
            },
            None => None,
        }
    }

    fn effective_of(e: &ProposalEntry) -> (r: JsonValue)
        ensures
            json_copy_of(effective_args(*e), r),
    {
        match &e.approved_args {
            Some(a) => json_copy(a),
            None => match &e.amended_args {
                Some(a) => json_copy(a),
                None => json_copy(&e.tool_args),
            },
        }
    }

    /// The tool and effective arguments of an approved proposal found in the
    /// cache; an error for one in another state; nothing when the cache
    /// does not hold it (the store is asked then).
    pub fn retrieve_approved(&self, call_id: &String) -> (r: Option<Result<(String, JsonValue), ApprovalError>>)
        requires
            self.wf(),
        ensures
            r is None <==> !self.proposals().contains_key(call_id@),
            r matches Some(Ok((name, args))) ==> self.proposals()[call_id@].state == ProposalState::Approved
                && name@ == self.proposals()[call_id@].tool_name@
                && json_copy_of(effective_args(self.proposals()[call_id@]), args),
            r matches Some(Err(err)) ==> (self.proposals()[call_id@].state != ProposalState::Approved
                && (err matches ApprovalError::InvalidTransition { from, to }
                && from@ == state_name(self.proposals()[call_id@].state) && to@ == "retrieved"@)),
            self.proposals().contains_key(call_id@) && self.proposals()[call_id@].state == ProposalState::Approved
                ==> r matches Some(Ok(_)),
    {
        match self.proposals.get(call_id) {
            Some(e) => {
                if e.state != ProposalState::Approved {
                    Some(Err(Self::refuse(e.state, "retrieved")))
                } else {
                    Some(Ok((e.tool_name.clone(), Self::effective_of(e))))
                }
            },
            None => None,
        }
    }
}

/// An approved proposal as the runtime runs it: its call, its tool and its
/// effective arguments.
#[derive(Debug)]
pub struct ApprovedProposal {
    pub call_id: String,
    pub tool_name: String,
    pub tool_args: JsonValue,
}

/// What a stored approval record yields to a caller that runs approved
/// calls: nothing for a missing record or one not approved; otherwise the
/// call with the record's effective arguments.
pub fn approved_proposal(call_id: &str, record: Option<&ProposalEntry>) -> (r: Option<ApprovedProposal>)
    ensures
        match record {
            Some(e) if e.state == ProposalState::Approved => r matches Some(p) && p.call_id@ == call_id@
                && p.tool_name == e.tool_name && json_copy_of(effective_args(*e), p.tool_args),
            _ => r is None,
        },
{
    match record {
        Some(e) => {
            if e.state != ProposalState::Approved {
                return None;
            }
            let args = match &e.approved_args {
                Some(a) => json_copy(a),
                None => match &e.amended_args {
                    Some(a) => json_copy(a),
                    None => json_copy(&e.tool_args),
                },
            };
            Some(ApprovedProposal { call_id: call_id.to_owned(), tool_name: e.tool_name.clone(), tool_args: args })
        },
        None => None,
    }
}

/// Approving an undecided proposal and reverting that claim (after a failed
/// append) gives back the proposal in its previous state, with its approved
/// arguments cleared when the approval gave some and kept otherwise, and
/// everything else as it was; an undecided proposal without approved
/// arguments comes back exactly as it was.
pub proof fn law_approve_revert_restores(e: ProposalEntry, args: Option<JsonValue>)
    requires
        !resolved(e.state),
    ensures
        ({
            let n = approved_entry(e, args);
            let back = ProposalEntry { state: e.state, approved_args: if args is Some { None } else { n.approved_args }, ..n };
            &&& back.state == e.state
            &&& back.approved_args == if args is Some { None } else { e.approved_args }
            &&& ProposalEntry { approved_args: e.approved_args, ..back } == e
            &&& e.approved_args is None ==> back == e
        }),
{
}

/// Rejecting an undecided proposal and reverting that claim gives back the
/// proposal as it was.
pub proof fn law_reject_revert_restores(e: ProposalEntry, reason: Option<String>)
    requires
        !resolved(e.state),
    ensures
        ({
            let n = rejected_entry(e, reason);
            ProposalEntry { state: e.state, rejection_reason: e.rejection_reason, ..n } == e
        }),
{
}

/// The arguments an approved proposal runs with: those the operator gave,
/// else the latest amendment, else the proposed ones.
pub proof fn law_effective_args_precedence(e: ProposalEntry, approved: Option<JsonValue>, amended: JsonValue)
    ensures
        effective_args(approved_entry(amended_entry(e, amended), approved)) == match approved {
            Some(a) => a,
            None => match e.approved_args {
                Some(b) => b,
                None => amended,
            },
        },
{
}

} // verus!
