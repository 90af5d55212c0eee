//! Channels: named message queues within a project, from which consumers
//! take the oldest message not yet consumed.
use vstd::prelude::*;
use crate::clock::now_ms;
use crate::domain::ProjectKey;
use crate::runtime_error::{fails_not_found, not_found, RuntimeError};
use crate::text::{concat3, decimal, decimal_string};

verus! {

/// A channel.
#[derive(Debug)]
pub struct ChannelRecord {
    pub channel_id: String,
    pub project: ProjectKey,
    pub name: String,
    pub capacity: u32,
    pub created_at_ms: u64,
}

/// A message sent on a channel, and who consumed it, if anyone did.
#[derive(Debug)]
pub struct ChannelMessage {
    pub channel_id: String,
    pub sender_id: String,
    pub message_id: String,
    pub body: String,
    pub sent_at_ms: u64,
    pub consumed_by: Option<String>,
    pub consumed_at_ms: Option<u64>,
}

impl ChannelRecord {
    pub fn duplicate(&self) -> (r: Self)
        ensures
            r == *self,
    {
        ChannelRecord {
            channel_id: self.channel_id.clone(),
            project: self.project.duplicate(),
            name: self.name.clone(),
            capacity: self.capacity,
            created_at_ms: self.created_at_ms,
        }
    }
}

impl ChannelMessage {
    pub fn duplicate(&self) -> (r: Self)
        ensures
            r == *self,
    {
        ChannelMessage {
            channel_id: self.channel_id.clone(),
            sender_id: self.sender_id.clone(),
            message_id: self.message_id.clone(),
            body: self.body.clone(),
            sent_at_ms: self.sent_at_ms,
            consumed_by: match &self.consumed_by {
                Some(c) => Some(c.clone()),
                None => None,
            },
            consumed_at_ms: self.consumed_at_ms,
        }
    }
}

/// The id of the `n`-th channel a service creates.
pub open spec fn channel_id_spec(n: nat) -> Seq<char> {
    "channel_"@ + decimal(n)
}

/// The id of the `n`-th message a service accepts.
pub open spec fn message_id_spec(n: nat) -> Seq<char> {
    "channel_msg_"@ + decimal(n)
}

/// Whether a message is on a channel and not consumed yet.
pub open spec fn pending_on(m: ChannelMessage, channel_id: Seq<char>) -> bool {
    m.channel_id@ == channel_id && m.consumed_at_ms is None
}

/// Channels and their messages, in the order they were created and sent.
pub struct ChannelServiceImpl {
    channels: Vec<ChannelRecord>,
    messages: Vec<ChannelMessage>,
}

impl ChannelServiceImpl {
    pub closed spec fn channels(&self) -> Seq<ChannelRecord> {
        self.channels@
    }

    pub closed spec fn messages(&self) -> Seq<ChannelMessage> {
        self.messages@
    }

    /// The first channel with an id, if any.
    pub open spec fn channel_at(cs: Seq<ChannelRecord>, channel_id: Seq<char>) -> Option<int> {
        if exists|i: int| 0 <= i < cs.len() && cs[i].channel_id@ == channel_id {
            let i = choose|i: int|
                0 <= i < cs.len() && cs[i].channel_id@ == channel_id && forall|j: int| 0 <= j < i ==> cs[j].channel_id@ != channel_id;
            Some(i)
        } else {
            None
        }
    }

    pub fn new() -> (r: Self)
        ensures
            r.channels() == Seq::<ChannelRecord>::empty(),
            r.messages() == Seq::<ChannelMessage>::empty(),
    {
        ChannelServiceImpl { channels: Vec::new(), messages: Vec::new() }
    }

    fn find(&self, channel_id: &str) -> (r: Option<usize>)
        ensures
            match r {
                Some(i) => i < self.channels().len() && self.channels()[i as int].channel_id@ == channel_id@
                    && forall|j: int| 0 <= j < i ==> (#[trigger] self.channels()[j]).channel_id@ != channel_id@,
                None => forall|j: int| 0 <= j < self.channels().len() ==> (#[trigger] self.channels()[j]).channel_id@ != channel_id@,
            },
    {
        let id = channel_id.to_owned();
        let mut i: usize = 0;
        while i < self.channels.len()
            invariant
                i <= self.channels@.len(),
                id@ == channel_id@,
                forall|j: int| 0 <= j < i ==> (#[trigger] self.channels@[j]).channel_id@ != channel_id@,
            decreases self.channels@.len() - i,
        {
            if self.channels[i].channel_id == id {
                return Some(i);
            }
            i = i + 1;
        }
        None
    }

    /// Creates a channel in a project; its id is `channel_<n>` for the
    /// `n`-th channel this service created.
    pub fn create(&mut self, project: &ProjectKey, name: String, capacity: u32) -> (r: ChannelRecord)
        requires
            old(self).channels().len() < u64::MAX,
        ensures
            r.channel_id@ == channel_id_spec(old(self).channels().len() + 1),
            r.project == *project,
            r.name == name,
            r.capacity == capacity,
            final(self).channels() == old(self).channels().push(r),
            final(self).messages() == old(self).messages(),
    {
        let n = self.channels.len() as u64 + 1;
        let digits = decimal_string(n);
        let id = concat3("channel_", digits.as_str(), "");
        proof {
            reveal_strlit("");
            assert(id@ =~= channel_id_spec(old(self).channels().len() + 1));
        }
        let rec = ChannelRecord { channel_id: id, project: project.duplicate(), name, capacity, created_at_ms: now_ms() };
        let out = rec.duplicate();
        self.channels.push(rec);
        out
    }

    /// A channel, if it exists.
    pub fn get(&self, channel_id: &str) -> (r: Option<ChannelRecord>)
        ensures
            match r {
                Some(c) => Self::channel_at(self.channels(), channel_id@) matches Some(i) && c == self.channels()[i],
                None => Self::channel_at(self.channels(), channel_id@) is None,
            },
    {
        match self.find(channel_id) {
            Some(i) => {
                proof {
                    self.lemma_channel_at(channel_id@, i as int);
                }
                Some(self.channels[i].duplicate())
            },
            None => None,
        }
    }

    proof fn lemma_channel_at(&self, channel_id: Seq<char>, i: int)
        requires
            0 <= i < self.channels().len(),
            self.channels()[i].channel_id@ == channel_id,
            forall|j: int| 0 <= j < i ==> (#[trigger] self.channels()[j]).channel_id@ != channel_id,
        ensures
            Self::channel_at(self.channels(), channel_id) == Some(i),
    {
        let cs = self.channels();
        let c = choose|c: int|
            0 <= c < cs.len() && cs[c].channel_id@ == channel_id && forall|j: int| 0 <= j < c ==> cs[j].channel_id@ != channel_id;
        if c < i {
            assert(cs[c].channel_id@ != channel_id);
        } else if c > i {
            assert(cs[i].channel_id@ != channel_id);
        }
    }

    /// A project's channels in creation order, skipping the first `offset`
    /// and keeping at most `limit`.
    pub fn list_channels(&self, project: &ProjectKey, limit: usize, offset: usize) -> (r: Vec<ChannelRecord>)
        ensures
            ({
                let all = self.channels().filter(|c: ChannelRecord| c.project@ == project@);
                let start = if offset < all.len() { offset as int } else { all.len() as int };
                let end = if start + limit < all.len() { start + limit } else { all.len() as int };
                r@ == all.subrange(start, end)
            }),
    {
        let ghost f = |c: ChannelRecord| c.project@ == project@;
        let mut all: Vec<ChannelRecord> = Vec::new();
        let mut i: usize = 0;
        while i < self.channels.len()
            invariant
                i <= self.channels@.len(),
                f == (|c: ChannelRecord| c.project@ == project@),
                all@ == self.channels@.take(i as int).filter(f),
            decreases self.channels@.len() - i,
        {
            proof {
                assert(self.channels@.take(i + 1) =~= self.channels@.take(i as int).push(self.channels@[i as int]));
                self.channels@.take(i as int).lemma_filter_push(self.channels@[i as int], f);
            }
            if self.channels[i].project.same(project) {
                all.push(self.channels[i].duplicate());
            }
            i = i + 1;
        }
        assert(self.channels@.take(self.channels@.len() as int) =~= self.channels@);
        let start = if offset < all.len() { offset } else { all.len() };
        let end = if limit < all.len() - start { start + limit } else { all.len() };
        let mut out: Vec<ChannelRecord> = Vec::new();
        let mut j: usize = start;
        while j < end
            invariant
                start <= j <= end <= all@.len(),
                out@ == all@.subrange(start as int, j as int),
            decreases end - j,
        {
            out.push(all[j].duplicate());
            assert(out@ =~= all@.subrange(start as int, j + 1));
            j = j + 1;
        }
        out
    }

    /// Sends a message on a channel; its id is `channel_msg_<n>` for the
    /// `n`-th message this service accepted. Refused with `NotFound` for an
    /// unknown channel.
    pub fn send(&mut self, channel_id: &str, sender_id: String, body: String) -> (r: Result<String, RuntimeError>)
        requires
            old(self).messages().len() < u64::MAX,
        ensures
            final(self).channels() == old(self).channels(),
            match Self::channel_at(old(self).channels(), channel_id@) {
                None => fails_not_found(r, "channel"@, channel_id@) && final(self).messages() == old(self).messages(),
                Some(i) => r matches Ok(id) && id@ == message_id_spec(old(self).messages().len() + 1)
                    && final(self).messages().len() == old(self).messages().len() + 1
                    && final(self).messages().drop_last() == old(self).messages()
                    && ({
                        let m = final(self).messages().last();
                        &&& m.channel_id == old(self).channels()[i].channel_id
                        &&& m.sender_id == sender_id
                        &&& m.message_id@ == id@
                        &&& m.body == body
                        &&& m.consumed_by is None
                        &&& m.consumed_at_ms is None
                    }),
            },
    {
        let i = match self.find(channel_id) {
            Some(i) => i,
            None => {
                proof {
                    if Self::channel_at(self.channels(), channel_id@) is Some {
                        let c = choose|c: int| 0 <= c < self.channels().len() && self.channels()[c].channel_id@ == channel_id@;
                        assert(self.channels()[c].channel_id@ != channel_id@);
                    }
                }
                return Err(not_found("channel", channel_id));
            },
        };
        proof {
            self.lemma_channel_at(channel_id@, i as int);
        }
        let n = self.messages.len() as u64 + 1;
        let digits = decimal_string(n);
        let id = concat3("channel_msg_", digits.as_str(), "");
        proof {
            reveal_strlit("");
            assert(id@ =~= message_id_spec(old(self).messages().len() + 1));
        }
        let m = ChannelMessage {
            channel_id: self.channels[i].channel_id.clone(),
            sender_id,
            message_id: id.clone(),
            body,
            sent_at_ms: now_ms(),
            consumed_by: None,
            consumed_at_ms: None,
        };
        self.messages.push(m);
        assert(self.messages@.drop_last() =~= old(self).messages@);
        Ok(id)
    }

    /// Takes the oldest message on a channel not consumed yet, marking it
    /// consumed by `consumer_id`; `None` when every message was consumed.
    /// Refused with `NotFound` for an unknown channel.
    pub fn consume(&mut self, channel_id: &str, consumer_id: String) -> (r: Result<Option<ChannelMessage>, RuntimeError>)
        ensures
            final(self).channels() == old(self).channels(),
            match Self::channel_at(old(self).channels(), channel_id@) {
                None => fails_not_found(r, "channel"@, channel_id@) && final(self).messages() == old(self).messages(),
                Some(c) => match r {
                    Ok(None) => final(self).messages() == old(self).messages() && forall|j: int|
                        0 <= j < old(self).messages().len() ==> !pending_on(#[trigger] old(self).messages()[j], old(self).channels()[c].channel_id@),
                    Ok(Some(m)) => exists|k: int| {
                        &&& 0 <= k < old(self).messages().len()
                        &&& pending_on(old(self).messages()[k], old(self).channels()[c].channel_id@)
                        &&& forall|j: int| 0 <= j < k ==> !pending_on(#[trigger] old(self).messages()[j], old(self).channels()[c].channel_id@)
                        &&& m.consumed_by == Some(consumer_id)
                        &&& m.consumed_at_ms is Some
                        &&& m.message_id == old(self).messages()[k].message_id
                        &&& m.body == old(self).messages()[k].body
                        &&& m.sender_id == old(self).messages()[k].sender_id
                        &&& m.channel_id == old(self).messages()[k].channel_id
                        &&& final(self).messages() == old(self).messages().update(k, m)
                    },
                    Err(_) => false,
                },
            },
    {
        let c = match self.find(channel_id) {
            Some(c) => c,
            None => {
                proof {
                    if Self::channel_at(self.channels(), channel_id@) is Some {
                        let x = choose|x: int| 0 <= x < self.channels().len() && self.channels()[x].channel_id@ == channel_id@;
                        assert(self.channels()[x].channel_id@ != channel_id@);
                    }
                }
                return Err(not_found("channel", channel_id));
            },
        };
        proof {
            self.lemma_channel_at(channel_id@, c as int);
        }
        let cid = self.channels[c].channel_id.clone();
        let mut k: usize = 0;
        while k < self.messages.len()
            invariant
                k <= self.messages@.len(),
                forall|j: int| 0 <= j < k ==> !pending_on(#[trigger] self.messages@[j], cid@),
            ensures
                k <= self.messages@.len(),
                forall|j: int| 0 <= j < k ==> !pending_on(#[trigger] self.messages@[j], cid@),
                k < self.messages@.len() ==> pending_on(self.messages@[k as int], cid@),
            decreases self.messages@.len() - k,
        {
            if self.messages[k].channel_id == cid && self.messages[k].consumed_at_ms.is_none() {
                break;
            }
            k = k + 1;
        }
        if k == self.messages.len() {
            return Ok(None);
        }
        proof {
            assert(pending_on(old(self).messages()[k as int], old(self).channels()[c as int].channel_id@));
        }
        let at = now_ms();
        let mut m = self.messages[k].duplicate();
        m.consumed_by = Some(consumer_id);
        m.consumed_at_ms = Some(at);
        let out = m.duplicate();
        self.messages.set(k, m);
        Ok(Some(out))
    }

    /// The first `limit` messages of a channel, in the order they were sent.
    /// Refused with `NotFound` for an unknown channel.
    pub fn list_messages(&self, channel_id: &str, limit: usize) -> (r: Result<Vec<ChannelMessage>, RuntimeError>)
        ensures
            match Self::channel_at(self.channels(), channel_id@) {
                None => fails_not_found(r, "channel"@, channel_id@),
                Some(c) => r matches Ok(v) && ({
                    let all = self.messages().filter(|m: ChannelMessage| m.channel_id@ == self.channels()[c].channel_id@);
                    v@ == all.take(if limit < all.len() { limit as int } else { all.len() as int })
                }),
            },
    {
        let c = match self.find(channel_id) {
            Some(c) => c,
            None => {
                proof {
                    if Self::channel_at(self.channels(), channel_id@) is Some {
                        let x = choose|x: int| 0 <= x < self.channels().len() && self.channels()[x].channel_id@ == channel_id@;
                        assert(self.channels()[x].channel_id@ != channel_id@);
                    }
                }
                return Err(not_found("channel", channel_id));
            },
        };
        proof {
            self.lemma_channel_at(channel_id@, c as int);
        }
        let cid = self.channels[c].channel_id.clone();
        let ghost f = |m: ChannelMessage| m.channel_id@ == cid@;
        let mut all: Vec<ChannelMessage> = Vec::new();
        let mut i: usize = 0;
        while i < self.messages.len()
            invariant
                i <= self.messages@.len(),
                f == (|m: ChannelMessage| m.channel_id@ == cid@),
                all@ == self.messages@.take(i as int).filter(f),
            decreases self.messages@.len() - i,
        {
            proof {
                assert(self.messages@.take(i + 1) =~= self.messages@.take(i as int).push(self.messages@[i as int]));
                self.messages@.take(i as int).lemma_filter_push(self.messages@[i as int], f);
            }
            if self.messages[i].channel_id == cid {
                all.push(self.messages[i].duplicate());
            }
            i = i + 1;
        }
        assert(self.messages@.take(self.messages@.len() as int) =~= self.messages@);
        let end = if limit < all.len() { limit } else { all.len() };
        let mut out: Vec<ChannelMessage> = Vec::new();
        let mut j: usize = 0;
        while j < end
            invariant
                j <= end <= all@.len(),
                out@ == all@.take(j as int),
            decreases end - j,
        {
            out.push(all[j].duplicate());
            assert(out@ =~= all@.take(j + 1));
            j = j + 1;
        }
        Ok(out)
    }
}

} // verus!
