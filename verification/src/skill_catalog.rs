//! The skill catalog: registered skills, which of them are enabled, and
//! the invocation record made when an enabled skill is invoked.
use vstd::prelude::*;
use crate::alist::TextMap;
use crate::clock::{at_time, now_ms};
use crate::json::JsonValue;
use crate::runtime_error::{fails_denied, fails_not_found, not_found, RuntimeError};
use crate::text::{concat3, contains_string, decimal, decimal_string, string_views};

verus! {

/// Where a skill is in its review.
#[derive(Debug, Clone, Copy, PartialEq, Eq, Structural)]
pub enum SkillStatus {
    Proposed,
    Approved,
    Deprecated,
}

/// A skill.
#[derive(Debug)]
pub struct Skill {
    pub skill_id: String,
    pub name: String,
    pub description: String,
    pub version: String,
    pub entry_point: String,
    pub required_permissions: Vec<String>,
    pub tags: Vec<String>,
    pub enabled: bool,
    pub status: SkillStatus,
}

/// Where an invocation is.
#[derive(Debug, Clone, Copy, PartialEq, Eq, Structural)]
pub enum SkillInvocationStatus {
    Running,
    Completed,
    Failed,
}

/// The record of one invocation of a skill.
#[derive(Debug)]
pub struct SkillInvocation {
    pub invocation_id: String,
    pub skill_id: String,
    pub args: JsonValue,
    pub result: Option<JsonValue>,
    pub status: SkillInvocationStatus,
    pub created_at_ms: u64,
    pub updated_at_ms: u64,
}

/// Whether a skill passes a tag filter: an empty filter passes every skill,
/// otherwise the skill carries one of the filter's tags.
pub open spec fn passes_tags(tags: Seq<Seq<char>>, filter: Seq<Seq<char>>) -> bool {
    filter.len() == 0 || exists|i: int| 0 <= i < filter.len() && tags.contains(#[trigger] filter[i])
}

/// The id of an invocation made at `now`.
pub open spec fn invocation_id_spec(now: u64) -> Seq<char> {
    "inv_"@ + decimal(now as nat)
}

/// The reason invoking a disabled skill is refused.
pub open spec fn not_enabled_reason(skill_id: Seq<char>) -> Seq<char> {
    "skill '"@ + skill_id + "' is not enabled"@
}

/// Registered skills by id, in registration order.
pub struct SkillCatalogServiceImpl {
    skills: TextMap<Skill>,
}

impl SkillCatalogServiceImpl {
    pub closed spec fn skills(&self) -> Map<Seq<char>, Skill> {
        self.skills@
    }

    pub closed spec fn order(&self) -> Seq<Skill> {
        self.skills.entry_seq().map_values(|e: (Seq<char>, Skill)| e.1)
    }

    pub closed spec fn wf(&self) -> bool {
        &&& self.skills.wf()
        &&& forall|k: Seq<char>| #[trigger] self.skills@.contains_key(k) ==> self.skills@[k].skill_id@ == k
    }

    pub fn new() -> (r: Self)
        ensures
            r.wf(),
            r.skills() == Map::<Seq<char>, Skill>::empty(),
    {
        SkillCatalogServiceImpl { skills: TextMap::new() }
    }

    /// Registers a skill, replacing any skill with its id.
    pub fn register(&mut self, skill: Skill)
        requires
            old(self).wf(),
        ensures
            final(self).wf(),
            final(self).skills() == old(self).skills().insert(skill.skill_id@, skill),
    {
        let id = skill.skill_id.clone();
        self.skills.insert(id, skill);
    }

    /// A skill, if registered.
    pub fn get(&self, skill_id: &str) -> (r: Option<&Skill>)
        requires
            self.wf(),
        ensures
            match r {
                Some(s) => self.skills().contains_key(skill_id@) && *s == self.skills()[skill_id@],
                None => !self.skills().contains_key(skill_id@),
            },
    {
        self.skills.get(&skill_id.to_owned())
    }

    /// The skills that pass a tag filter, in registration order.
    pub fn list(&self, tags_filter: &Vec<String>) -> (r: Vec<&Skill>)
        requires
            self.wf(),
        ensures
            r@.map_values(|s: &Skill| *s) == self.order().filter(|s: Skill| passes_tags(string_views(s.tags@), string_views(tags_filter@))),
    {
        let ghost f = |s: Skill| passes_tags(string_views(s.tags@), string_views(tags_filter@));
        let ghost o = self.order();
        let n = self.skills.len();
        let mut out: Vec<&Skill> = Vec::new();
        let mut i: usize = 0;
        while i < n
            invariant
                i <= n,
                self.wf(),
                n == o.len(),
                o == self.order(),
                f == (|s: Skill| passes_tags(string_views(s.tags@), string_views(tags_filter@))),
                out@.map_values(|s: &Skill| *s) == o.take(i as int).filter(f),
            decreases n - i,
        {
            let (_k, s) = self.skills.entry_at(i);
            proof {
                assert(o[i as int] == *s);
                assert(o.take(i + 1) =~= o.take(i as int).push(o[i as int]));
                o.take(i as int).lemma_filter_push(o[i as int], f);
            }
            let mut pass = tags_filter.len() == 0;
            let mut j: usize = 0;
            while j < tags_filter.len() && !pass
                invariant
                    j <= tags_filter@.len(),
                    pass ==> passes_tags(string_views(s.tags@), string_views(tags_filter@)),
                    !pass ==> tags_filter@.len() > 0 && forall|k: int| 0 <= k < j ==> !string_views(s.tags@).contains(#[trigger] string_views(tags_filter@)[k]),
                decreases tags_filter@.len() - j,
            {
                if contains_string(&s.tags, &tags_filter[j]) {
                    pass = true;
                    assert(string_views(tags_filter@)[j as int] == tags_filter@[j as int]@);
                }
                j = j + 1;
            }
            proof {
                if !pass {
                    assert forall|k: int| 0 <= k < string_views(tags_filter@).len() implies !string_views(s.tags@).contains(#[trigger] string_views(tags_filter@)[k]) by {}
                }
            }
            if pass {
                let ghost before = out@;
                out.push(s);
                assert(out@.map_values(|s: &Skill| *s) =~= before.map_values(|s: &Skill| *s).push(*s));
            }
            i = i + 1;
        }
        assert(o.take(n as int) =~= o);
        out
    }

    fn set_enabled(&mut self, skill_id: &str, enabled: bool) -> (r: Result<(), RuntimeError>)
        requires
            old(self).wf(),
        ensures
            final(self).wf(),
            !old(self).skills().contains_key(skill_id@) ==> fails_not_found(r, "skill"@, skill_id@)
                && final(self).skills() == old(self).skills(),
            old(self).skills().contains_key(skill_id@) ==> r is Ok && final(self).skills() == old(self).skills().insert(
                skill_id@,
                Skill { enabled, ..old(self).skills()[skill_id@] },
            ),
    {
        let key = skill_id.to_owned();
        let i = match self.skills.index_of(&key) {
            Some(i) => i,
            None => return Err(not_found("skill", skill_id)),
        };
        let (k, mut s) = self.skills.take_at(i);
        s.enabled = enabled;
        self.skills.put_at(i, k, s);
        proof {
            assert forall|q: Seq<char>| #[trigger] self.skills@.contains_key(q) implies self.skills@[q].skill_id@ == q by {
                if q != skill_id@ {
                    assert(old(self).skills@.contains_key(q));
                }
            }
        }
        Ok(())
    }

    /// Enables a skill; refused with `NotFound` for an unknown skill.
    pub fn enable(&mut self, skill_id: &str) -> (r: Result<(), RuntimeError>)
        requires
            old(self).wf(),
        ensures
            final(self).wf(),
            !old(self).skills().contains_key(skill_id@) ==> fails_not_found(r, "skill"@, skill_id@)
                && final(self).skills() == old(self).skills(),
            old(self).skills().contains_key(skill_id@) ==> r is Ok && final(self).skills() == old(self).skills().insert(
                skill_id@,
                Skill { enabled: true, ..old(self).skills()[skill_id@] },
            ),
    {
        self.set_enabled(skill_id, true)
    }

    /// Disables a skill; refused with `NotFound` for an unknown skill.
    pub fn disable(&mut self, skill_id: &str) -> (r: Result<(), RuntimeError>)
        requires
            old(self).wf(),
        ensures
            final(self).wf(),
            !old(self).skills().contains_key(skill_id@) ==> fails_not_found(r, "skill"@, skill_id@)
                && final(self).skills() == old(self).skills(),
            old(self).skills().contains_key(skill_id@) ==> r is Ok && final(self).skills() == old(self).skills().insert(
                skill_id@,
                Skill { enabled: false, ..old(self).skills()[skill_id@] },
            ),
    {
        self.set_enabled(skill_id, false)
    }

    /// Starts an invocation of an enabled skill at time `now`, with id
    /// `inv_<now>`. Refused with `NotFound` for an unknown skill and with
    /// `PolicyDenied` for a disabled one.
    pub fn invoke_at(&self, skill_id: &str, args: JsonValue, now: u64) -> (r: Result<SkillInvocation, RuntimeError>)
        requires
            self.wf(),
        ensures
            !self.skills().contains_key(skill_id@) ==> fails_not_found(r, "skill"@, skill_id@),
            self.skills().contains_key(skill_id@) && !self.skills()[skill_id@].enabled ==> fails_denied(r, not_enabled_reason(skill_id@)),
            self.skills().contains_key(skill_id@) && self.skills()[skill_id@].enabled ==> (r matches Ok(inv) && ({
                &&& inv.invocation_id@ == invocation_id_spec(now)
                &&& inv.skill_id@ == skill_id@
                &&& inv.args == args
                &&& inv.result is None
                &&& inv.status == SkillInvocationStatus::Running
                &&& inv.created_at_ms == now
                &&& inv.updated_at_ms == now
            })),
    {
        let skill = match self.skills.get(&skill_id.to_owned()) {
            Some(s) => s,
            None => return Err(not_found("skill", skill_id)),
        };
        if !skill.enabled {
            let reason = concat3("skill '", skill_id, "' is not enabled");
            return Err(RuntimeError::PolicyDenied { reason });
        }
        let digits = decimal_string(now);
        let id = concat3("inv_", digits.as_str(), "");
        proof {
            reveal_strlit("");
            assert(id@ =~= invocation_id_spec(now));
        }
        Ok(SkillInvocation {
            invocation_id: id,
            skill_id: skill_id.to_owned(),
            args,
            result: None,
            status: SkillInvocationStatus::Running,
            created_at_ms: now,
            updated_at_ms: now,
        })
    }

    /// `invoke_at` at the clock's present reading.
    pub fn invoke(&self, skill_id: &str, args: JsonValue) -> (r: Result<SkillInvocation, RuntimeError>)
        requires
            self.wf(),
        ensures
            !self.skills().contains_key(skill_id@) ==> fails_not_found(r, "skill"@, skill_id@),
            self.skills().contains_key(skill_id@) && !self.skills()[skill_id@].enabled ==> fails_denied(r, not_enabled_reason(skill_id@)),
            self.skills().contains_key(skill_id@) && self.skills()[skill_id@].enabled ==> (r matches Ok(inv) && inv.skill_id@ == skill_id@
                && inv.args == args && inv.status == SkillInvocationStatus::Running),
            exists|tm: u64| #[trigger] at_time(tm)
                && (self.skills().contains_key(skill_id@) && self.skills()[skill_id@].enabled ==> (r matches Ok(inv) && ({
                    &&& inv.invocation_id@ == invocation_id_spec(tm)
                    &&& inv.skill_id@ == skill_id@
                    &&& inv.args == args
                    &&& inv.result is None
                    &&& inv.status == SkillInvocationStatus::Running
                    &&& inv.created_at_ms == tm
                    &&& inv.updated_at_ms == tm
                }))),
    {
        let now = now_ms();
        let r = self.invoke_at(skill_id, args, now);
        assert(at_time(now));
        r
    }
}

} // verus!
