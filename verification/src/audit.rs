//! The audit log: one entry per recorded operator action, numbered in the
//! order they were recorded.
use vstd::prelude::*;
use crate::clock::{at_time, now_ms};
use crate::json::JsonValue;
use crate::text::{concat3, decimal, decimal_string};

verus! {

/// How an audited action ended.
#[derive(Debug, Clone, Copy, PartialEq, Eq, Structural)]
pub enum AuditOutcome {
    Success,
    Failure,
}

/// One entry of the audit log.
#[derive(Debug)]
pub struct AuditLogEntry {
    pub entry_id: String,
    pub tenant_id: String,
    pub actor_id: String,
    pub action: String,
    pub resource_type: String,
    pub resource_id: String,
    pub outcome: AuditOutcome,
    pub request_id: Option<String>,
    pub ip_address: Option<String>,
    pub occurred_at_ms: u64,
    pub metadata: JsonValue,
}

/// The id of the `n`-th entry a log records.
pub open spec fn audit_id_spec(n: nat) -> Seq<char> {
    "audit_"@ + decimal(n)
}

/// What the log keeps of an entry (its metadata aside).
pub struct AuditSummary {
    pub entry_id: Seq<char>,
    pub tenant_id: Seq<char>,
    pub actor_id: Seq<char>,
    pub action: Seq<char>,
    pub resource_type: Seq<char>,
    pub resource_id: Seq<char>,
    pub outcome: AuditOutcome,
    pub occurred_at_ms: u64,
}

/// The summary of an entry.
pub open spec fn summary_of(e: AuditLogEntry) -> AuditSummary {
    AuditSummary {
        entry_id: e.entry_id@,
        tenant_id: e.tenant_id@,
        actor_id: e.actor_id@,
        action: e.action@,
        resource_type: e.resource_type@,
        resource_id: e.resource_id@,
        outcome: e.outcome,
        occurred_at_ms: e.occurred_at_ms,
    }
}

/// Recorded entries, oldest first. The log keeps what an entry says but
/// not its metadata (kept as `Null`); the entry handed back by a record
/// carries it.
pub struct AuditServiceImpl {
    entries: Vec<AuditLogEntry>,
}

impl AuditServiceImpl {
    pub closed spec fn entries(&self) -> Seq<AuditLogEntry> {
        self.entries@
    }

    pub fn new() -> (r: Self)
        ensures
            r.entries() == Seq::<AuditLogEntry>::empty(),
    {
        AuditServiceImpl { entries: Vec::new() }
    }

    /// Records an action at `now`; the entry's id is `audit_<n>` for the
    /// `n`-th entry of this log, and the entry is handed back.
    pub fn record_at(
        &mut self,
        tenant_id: String,
        actor_id: String,
        action: String,
        resource_type: String,
        resource_id: String,
        outcome: AuditOutcome,
        metadata: JsonValue,
        now: u64,
    ) -> (r: AuditLogEntry)
        requires
            old(self).entries().len() < u64::MAX,
        ensures
            r.entry_id@ == audit_id_spec(old(self).entries().len() + 1),
            r.tenant_id == tenant_id,
            r.actor_id == actor_id,
            r.action == action,
            r.resource_type == resource_type,
            r.resource_id == resource_id,
            r.outcome == outcome,
            r.request_id is None,
            r.ip_address is None,
            r.occurred_at_ms == now,
            r.metadata == metadata,
            final(self).entries().len() == old(self).entries().len() + 1,
            final(self).entries().drop_last() == old(self).entries(),
            summary_of(final(self).entries().last()) == summary_of(r),
    {
        let n = self.entries.len() as u64 + 1;
        let digits = decimal_string(n);
        let id = concat3("audit_", digits.as_str(), "");
        proof {
            reveal_strlit("");
            assert(id@ =~= audit_id_spec(old(self).entries().len() + 1));
        }
        let kept = AuditLogEntry {
            entry_id: id.clone(),
            tenant_id: tenant_id.clone(),
            actor_id: actor_id.clone(),
            action: action.clone(),
            resource_type: resource_type.clone(),
            resource_id: resource_id.clone(),
            outcome,
            request_id: None,
            ip_address: None,
            occurred_at_ms: now,
            metadata: JsonValue::Null,
        };
        let ghost before = self.entries@;
        self.entries.push(kept);
        assert(self.entries@.drop_last() =~= before);
        AuditLogEntry {
            entry_id: id,
            tenant_id,
            actor_id,
            action,
            resource_type,
            resource_id,
            outcome,
            request_id: None,
            ip_address: None,
            occurred_at_ms: now,
            metadata,
        }
    }

    /// Records an action, stamped with the current time.
    pub fn record(
        &mut self,
        tenant_id: String,
        actor_id: String,
        action: String,
        resource_type: String,
        resource_id: String,
        outcome: AuditOutcome,
        metadata: JsonValue,
    ) -> (r: AuditLogEntry)
        requires
            old(self).entries().len() < u64::MAX,
        ensures
            r.entry_id@ == audit_id_spec(old(self).entries().len() + 1),
            r.tenant_id == tenant_id,
            r.actor_id == actor_id,
            r.action == action,
            r.resource_type == resource_type,
            r.resource_id == resource_id,
            r.outcome == outcome,
            r.request_id is None,
            r.ip_address is None,
            r.metadata == metadata,
            final(self).entries().len() == old(self).entries().len() + 1,
            final(self).entries().drop_last() == old(self).entries(),
            summary_of(final(self).entries().last()) == summary_of(r),
            exists|tm: u64| #[trigger] at_time(tm)
                && (r.occurred_at_ms == tm),
    {
        let now = now_ms();
        let r = self.record_at(tenant_id, actor_id, action, resource_type, resource_id, outcome, metadata, now);
        assert(at_time(now));
        r
    }
}

} // verus!
