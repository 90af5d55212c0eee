//! Mailboxes of runs and tasks: messages appended for a run or a task, and
//! the messages one task sends another.
use vstd::prelude::*;
use crate::clock::now_ms;
use crate::domain::ProjectKey;
use crate::tenancy::page;
use crate::text::{concat3, decimal, decimal_string, str_eq};

verus! {

/// A mailbox message.
#[derive(Debug)]
pub struct MailboxRecord {
    pub message_id: String,
    pub project: ProjectKey,
    pub run_id: Option<String>,
    pub task_id: Option<String>,
    pub from_run_id: Option<String>,
    pub from_task_id: Option<String>,
    pub content: String,
    pub deliver_at_ms: u64,
}

fn copy_opt(o: &Option<String>) -> (r: Option<String>)
    ensures
        r == *o,
{
    match o {
        Some(s) => Some(s.clone()),
        None => None,
    }
}

impl MailboxRecord {
    /// A field-by-field copy.
    pub fn duplicate(&self) -> (r: Self)
        ensures
            r == *self,
    {
        MailboxRecord {
            message_id: self.message_id.clone(),
            project: self.project.duplicate(),
            run_id: copy_opt(&self.run_id),
            task_id: copy_opt(&self.task_id),
            from_run_id: copy_opt(&self.from_run_id),
            from_task_id: copy_opt(&self.from_task_id),
            content: self.content.clone(),
            deliver_at_ms: self.deliver_at_ms,
        }
    }
}

/// Whether an optional id is the given one.
pub open spec fn is_id(o: Option<String>, id: Seq<char>) -> bool {
    o matches Some(x) && x@ == id
}

fn opt_is(o: &Option<String>, id: &str) -> (r: bool)
    ensures
        r == is_id(*o, id@),
{
    match o {
        Some(x) => str_eq(x.as_str(), id),
        None => false,
    }
}

/// The id of a message a task sends at `now`.
pub open spec fn sent_id_spec(from: Seq<char>, now: u64) -> Seq<char> {
    "msg_"@ + from + "_"@ + decimal(now as nat)
}

/// Some message has the id.
pub open spec fn has_message(s: Seq<MailboxRecord>, id: Seq<char>) -> bool {
    exists|i: int| 0 <= i < s.len() && #[trigger] s[i].message_id@ == id
}

/// The messages with `m` put in: in place of the message with its id, or
/// last.
pub open spec fn put_message(s: Seq<MailboxRecord>, m: MailboxRecord) -> Seq<MailboxRecord> {
    if has_message(s, m.message_id@) {
        s.update(choose|i: int| 0 <= i < s.len() && #[trigger] s[i].message_id@ == m.message_id@, m)
    } else {
        s.push(m)
    }
}

/// Messages in the order they were first appended.
pub struct MailboxServiceImpl {
    messages: Vec<MailboxRecord>,
}

impl MailboxServiceImpl {
    pub closed spec fn messages(&self) -> Seq<MailboxRecord> {
        self.messages@
    }

    /// No two messages share an id.
    pub closed spec fn wf(&self) -> bool {
        forall|a: int, b: int|
            0 <= a < self.messages@.len() && 0 <= b < self.messages@.len() && a != b
                ==> #[trigger] self.messages@[a].message_id@ != #[trigger] self.messages@[b].message_id@
    }

    pub fn new() -> (r: Self)
        ensures
            r.wf(),
            r.messages() == Seq::<MailboxRecord>::empty(),
    {
        MailboxServiceImpl { messages: Vec::new() }
    }

    fn position(&self, message_id: &str) -> (r: Option<usize>)
        requires
            self.wf(),
        ensures
            match r {
                Some(i) => i < self.messages@.len() && self.messages@[i as int].message_id@ == message_id@
                    && (choose|k: int| 0 <= k < self.messages@.len() && #[trigger] self.messages@[k].message_id@ == message_id@) == i,
                None => !has_message(self.messages@, message_id@),
            },
    {
        let mut i: usize = 0;
        while i < self.messages.len()
            invariant
                self.wf(),
                i <= self.messages@.len(),
                forall|j: int| 0 <= j < i ==> #[trigger] self.messages@[j].message_id@ != message_id@,
            decreases self.messages@.len() - i,
        {
            if str_eq(self.messages[i].message_id.as_str(), message_id) {
                proof {
                    let k = choose|k: int| 0 <= k < self.messages@.len() && #[trigger] self.messages@[k].message_id@ == message_id@;
                    if k != i as int {
                        assert(self.messages@[k].message_id@ != self.messages@[i as int].message_id@);
                    }
                }
                return Some(i);
            }
            i = i + 1;
        }
        None
    }

    /// Puts a message in by its id.
    fn put(&mut self, m: MailboxRecord)
        requires
            old(self).wf(),
        ensures
            final(self).wf(),
            final(self).messages() == put_message(old(self).messages(), m),
    {
        let ghost s = self.messages@;
        let ghost mv = m;
        match self.position(m.message_id.as_str()) {
            Some(i) => {
                self.messages.set(i, m);
                proof {
                    let t = self.messages@;
                    assert forall|a: int, b: int| 0 <= a < t.len() && 0 <= b < t.len() && a != b implies #[trigger] t[a].message_id@
                        != #[trigger] t[b].message_id@ by {
                        assert(s[a].message_id@ != s[b].message_id@);
                    }
                }
            },
            None => {
                self.messages.push(m);
                proof {
                    let t = self.messages@;
                    assert forall|a: int, b: int| 0 <= a < t.len() && 0 <= b < t.len() && a != b implies #[trigger] t[a].message_id@
                        != #[trigger] t[b].message_id@ by {
                        if a < s.len() && b < s.len() {
                            assert(s[a].message_id@ != s[b].message_id@);
                        } else if a < s.len() {
                            assert(t[a] == s[a]);
                        } else {
                            assert(t[b] == s[b]);
                        }
                    }
                }
            },
        }
    }

    /// Appends a message for a run or a task; a message with the same id is
    /// replaced.
    pub fn append(
        &mut self,
        project: &ProjectKey,
        message_id: &str,
        run_id: Option<String>,
        task_id: Option<String>,
        content: String,
        from_run_id: Option<String>,
        deliver_at_ms: u64,
    ) -> (r: MailboxRecord)
        requires
            old(self).wf(),
        ensures
            final(self).wf(),
            r.message_id@ == message_id@,
            r.project == *project,
            r.run_id == run_id,
            r.task_id == task_id,
            r.from_run_id == from_run_id,
            r.from_task_id is None,
            r.content == content,
            r.deliver_at_ms == deliver_at_ms,
            final(self).messages() == put_message(old(self).messages(), r),
    {
        let m = MailboxRecord {
            message_id: message_id.to_owned(),
            project: project.duplicate(),
            run_id,
            task_id,
            from_run_id,
            from_task_id: None,
            content,
            deliver_at_ms,
        };
        let out = m.duplicate();
        self.put(m);
        out
    }

    /// Sends a message from one task to another at `now`, for delivery at
    /// once; its id is `msg_<from>_<now>`. The content is stored as given.
    pub fn send_at(&mut self, project: &ProjectKey, from: &str, to: &str, content: String, now: u64) -> (r: MailboxRecord)
        requires
            old(self).wf(),
        ensures
            final(self).wf(),
            r.message_id@ == sent_id_spec(from@, now),
            r.project == *project,
            r.run_id is None,
            is_id(r.task_id, to@),
            r.from_run_id is None,
            is_id(r.from_task_id, from@),
            r.content == content,
            r.deliver_at_ms == 0,
            final(self).messages() == put_message(old(self).messages(), r),
    {
        let digits = decimal_string(now);
        let head = concat3("msg_", from, "_");
        let id = concat3(head.as_str(), digits.as_str(), "");
        proof {
            reveal_strlit("");
            assert(id@ =~= sent_id_spec(from@, now));
        }
        let m = MailboxRecord {
            message_id: id,
            project: project.duplicate(),
            run_id: None,
            task_id: Some(to.to_owned()),
            from_run_id: None,
            from_task_id: Some(from.to_owned()),
            content,
            deliver_at_ms: 0,
        };
        let out = m.duplicate();
        self.put(m);
        out
    }

    /// Sends a message from one task to another, stamped with the current
    /// time.
    pub fn send(&mut self, project: &ProjectKey, from: &str, to: &str, content: String) -> (r: MailboxRecord)
        requires
            old(self).wf(),
        ensures
            final(self).wf(),
            exists|t: u64| r.message_id@ == sent_id_spec(from@, t),
            r.project == *project,
            is_id(r.task_id, to@),
            is_id(r.from_task_id, from@),
            r.content == content,
            r.deliver_at_ms == 0,
            final(self).messages() == put_message(old(self).messages(), r),
    {
        let now = now_ms();
        let r = self.send_at(project, from, to, content, now);
        assert(r.message_id@ == sent_id_spec(from@, now));
        r
    }

    /// The message with an id.
    pub fn get(&self, message_id: &str) -> (r: Option<&MailboxRecord>)
        requires
            self.wf(),
        ensures
            match r {
                Some(m) => self.messages().contains(*m) && m.message_id@ == message_id@,
                None => !has_message(self.messages(), message_id@),
            },
    {
        match self.position(message_id) {
            Some(i) => Some(&self.messages[i]),
            None => None,
        }
    }

    fn page_of(all: &Vec<MailboxRecord>, limit: usize, offset: usize) -> (r: Vec<MailboxRecord>)
        ensures
            r@ == page(all@, limit, offset),
    {
        let start = if offset < all.len() { offset } else { all.len() };
        let end = if limit < all.len() - start { start + limit } else { all.len() };
        let mut out: Vec<MailboxRecord> = Vec::new();
        let mut j: usize = start;
        while j < end
            invariant
                start <= j <= end <= all@.len(),
                out@ == all@.subrange(start as int, j as int),
            decreases end - j,
        {
            out.push(all[j].duplicate());
            assert(out@ =~= all@.subrange(start as int, j + 1));
            j = j + 1;
        }
        out
    }

    /// A run's messages in the order they were first appended, skipping the
    /// first `offset` and keeping at most `limit`.
    pub fn list_by_run(&self, run_id: &str, limit: usize, offset: usize) -> (r: Vec<MailboxRecord>)
        ensures
            r@ == page(self.messages().filter(|m: MailboxRecord| is_id(m.run_id, run_id@)), limit, offset),
    {
        let ghost f = |m: MailboxRecord| is_id(m.run_id, run_id@);
        let mut all: Vec<MailboxRecord> = Vec::new();
        let mut i: usize = 0;
        while i < self.messages.len()
            invariant
                i <= self.messages@.len(),
                f == (|m: MailboxRecord| is_id(m.run_id, run_id@)),
                all@ == self.messages@.take(i as int).filter(f),
            decreases self.messages@.len() - i,
        {
            proof {
                assert(self.messages@.take(i + 1) =~= self.messages@.take(i as int).push(self.messages@[i as int]));
                self.messages@.take(i as int).lemma_filter_push(self.messages@[i as int], f);
            }
            if opt_is(&self.messages[i].run_id, run_id) {
                all.push(self.messages[i].duplicate());
            }
            i = i + 1;
        }
        assert(self.messages@.take(self.messages@.len() as int) =~= self.messages@);
        Self::page_of(&all, limit, offset)
    }

    /// A task's messages in the order they were first appended, skipping
    /// the first `offset` and keeping at most `limit`.
    pub fn list_by_task(&self, task_id: &str, limit: usize, offset: usize) -> (r: Vec<MailboxRecord>)
        ensures
            r@ == page(self.messages().filter(|m: MailboxRecord| is_id(m.task_id, task_id@)), limit, offset),
    {
        let ghost f = |m: MailboxRecord| is_id(m.task_id, task_id@);
        let mut all: Vec<MailboxRecord> = Vec::new();
        let mut i: usize = 0;
        while i < self.messages.len()
            invariant
                i <= self.messages@.len(),
                f == (|m: MailboxRecord| is_id(m.task_id, task_id@)),
                all@ == self.messages@.take(i as int).filter(f),
            decreases self.messages@.len() - i,
        {
            proof {
                assert(self.messages@.take(i + 1) =~= self.messages@.take(i as int).push(self.messages@[i as int]));
                self.messages@.take(i as int).lemma_filter_push(self.messages@[i as int], f);
            }
            if opt_is(&self.messages[i].task_id, task_id) {
                all.push(self.messages[i].duplicate());
            }
            i = i + 1;
        }
        assert(self.messages@.take(self.messages@.len() as int) =~= self.messages@);
        Self::page_of(&all, limit, offset)
    }

    /// The first `limit` messages for a task.
    pub fn receive(&self, task_id: &str, limit: usize) -> (r: Vec<MailboxRecord>)
        ensures
            r@ == page(self.messages().filter(|m: MailboxRecord| is_id(m.task_id, task_id@)), limit, 0),
    {
        self.list_by_task(task_id, limit, 0)
    }
}

} // verus!
