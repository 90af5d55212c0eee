//! Provider connection pools: a bounded set of provider connections per
//! pool, with the checks that keep a pool within its capacity.
use vstd::prelude::*;
use crate::alist::TextMap;
use crate::clock::now_ms;
use crate::runtime_error::{conflict, fails_conflict, fails_denied, fails_not_found, is_conflict, not_found, RuntimeError};
use crate::text::{concat3, contains_string, decimal, decimal_string, string_views, without_string};

verus! {

/// A pool of provider connections.
#[derive(Debug, Clone)]
pub struct ProviderConnectionPool {
    pub pool_id: String,
    pub tenant_id: String,
    pub max_connections: u32,
    pub active_connections: u32,
    pub connection_ids: Vec<String>,
    pub created_at_ms: u64,
}

impl ProviderConnectionPool {
    /// A copy of the pool.
    pub fn duplicate(&self) -> (r: Self)
        ensures
            r.pool_id@ == self.pool_id@,
            r.tenant_id@ == self.tenant_id@,
            r.max_connections == self.max_connections,
            r.active_connections == self.active_connections,
            string_views(r.connection_ids@) == string_views(self.connection_ids@),
            r.created_at_ms == self.created_at_ms,
    {
        let mut ids: Vec<String> = Vec::new();
        let mut i: usize = 0;
        while i < self.connection_ids.len()
            invariant
                i <= self.connection_ids@.len(),
                string_views(ids@) == string_views(self.connection_ids@).take(i as int),
            decreases self.connection_ids@.len() - i,
        {
            let ghost before = string_views(ids@);
            ids.push(self.connection_ids[i].clone());
            assert(string_views(ids@) =~= before.push(self.connection_ids@[i as int]@));
            assert(string_views(ids@) =~= string_views(self.connection_ids@).take(i + 1));
            i = i + 1;
        }
        assert(string_views(self.connection_ids@).take(self.connection_ids@.len() as int) =~= string_views(self.connection_ids@));
        ProviderConnectionPool {
            pool_id: self.pool_id.clone(),
            tenant_id: self.tenant_id.clone(),
            max_connections: self.max_connections,
            active_connections: self.active_connections,
            connection_ids: ids,
            created_at_ms: self.created_at_ms,
        }
    }
}

/// A pool as plain values: id, tenant, capacity, connection ids.
pub open spec fn pool_view(p: ProviderConnectionPool) -> (Seq<char>, Seq<char>, u32, Seq<Seq<char>>) {
    (p.pool_id@, p.tenant_id@, p.max_connections, string_views(p.connection_ids@))
}

/// The reason a full pool gives for refusing a connection.
pub open spec fn pool_full_reason(pool_id: Seq<char>, active: u32, max: u32) -> Seq<char> {
    "pool_full: pool '"@ + pool_id + "' is at max capacity ("@ + decimal(active as nat) + "/"@ + decimal(max as nat) + ")"@
}

/// The connection pools, by pool id.
pub struct ProviderConnectionPoolServiceImpl {
    pools: TextMap<ProviderConnectionPool>,
}

impl ProviderConnectionPoolServiceImpl {
    /// The pools as plain values, by pool id.
    pub closed spec fn pools(&self) -> Map<Seq<char>, (Seq<char>, Seq<char>, u32, Seq<Seq<char>>)> {
        self.pools@.map_values(|p: ProviderConnectionPool| pool_view(p))
    }

    pub closed spec fn wf(&self) -> bool {
        &&& self.pools.wf()
        &&& forall|k: Seq<char>| #[trigger] self.pools@.contains_key(k) ==> {
            let p = self.pools@[k];
            &&& p.pool_id@ == k
            &&& p.active_connections == p.connection_ids@.len()
            &&& p.active_connections <= p.max_connections
            &&& string_views(p.connection_ids@).no_duplicates()
        }
    }

    /// A pool never holds more connections than its capacity, nor the same
    /// connection twice.
    pub proof fn law_pool_within_capacity(&self)
        requires
            self.wf(),
        ensures
            forall|k: Seq<char>| #[trigger] self.pools().contains_key(k) ==> self.pools()[k].3.len() <= self.pools()[k].2
                && self.pools()[k].3.no_duplicates(),
    {
        assert forall|k: Seq<char>| #[trigger] self.pools().contains_key(k) implies self.pools()[k].3.len() <= self.pools()[k].2
            && self.pools()[k].3.no_duplicates() by {
            assert(self.pools@.contains_key(k));
        }
    }

    pub fn new() -> (r: Self)
        ensures
            r.wf(),
            r.pools() == Map::<Seq<char>, (Seq<char>, Seq<char>, u32, Seq<Seq<char>>)>::empty(),
    {
        let r = ProviderConnectionPoolServiceImpl { pools: TextMap::new() };
        assert(r.pools() =~= Map::<Seq<char>, (Seq<char>, Seq<char>, u32, Seq<Seq<char>>)>::empty());
        r
    }

    /// Creates an empty pool; refused with `Conflict` when the id is taken.
    pub fn create_pool(&mut self, tenant_id: &str, pool_id: &str, max_connections: u32) -> (r: Result<ProviderConnectionPool, RuntimeError>)
        requires
            old(self).wf(),
        ensures
            final(self).wf(),
            match r {
                Ok(p) => !old(self).pools().contains_key(pool_id@)
                    && pool_view(p) == (pool_id@, tenant_id@, max_connections, Seq::<Seq<char>>::empty())
                    && p.active_connections == 0
                    && final(self).pools() == old(self).pools().insert(pool_id@, pool_view(p)),
                Err(e) => old(self).pools().contains_key(pool_id@) && is_conflict(e, "provider_pool"@, pool_id@)
                    && final(self).pools() == old(self).pools(),
            },
    {
        let key = pool_id.to_owned();
        if self.pools.contains_key(&key) {
            proof {
                assert(self.pools@.contains_key(pool_id@));
            }
            return Err(conflict("provider_pool", pool_id));
        }
        let p = ProviderConnectionPool {
            pool_id: pool_id.to_owned(),
            tenant_id: tenant_id.to_owned(),
            max_connections,
            active_connections: 0,
            connection_ids: Vec::new(),
            created_at_ms: now_ms(),
        };
        let out = p.duplicate();
        proof {
            assert(string_views(p.connection_ids@) =~= Seq::<Seq<char>>::empty());
        }
        self.pools.insert(key, p);
        proof {
            assert(self.pools() =~= old(self).pools().insert(pool_id@, pool_view(out)));
        }
        Ok(out)
    }

    /// Adds a connection to a pool. Refused with `NotFound` for an unknown
    /// pool, `PolicyDenied` (`pool_full: ...`) when the pool is at capacity,
    /// and `Conflict` when the connection is in the pool already.
    pub fn add_connection(&mut self, pool_id: &str, connection_id: &str) -> (r: Result<ProviderConnectionPool, RuntimeError>)
        requires
            old(self).wf(),
        ensures
            final(self).wf(),
            !old(self).pools().contains_key(pool_id@) ==> fails_not_found(r, "provider_pool"@, pool_id@),
            old(self).pools().contains_key(pool_id@) ==> {
                let p = old(self).pools()[pool_id@];
                let active = p.3.len();
                if active >= p.2 {
                    fails_denied(r, pool_full_reason(pool_id@, active as u32, p.2))
                } else if p.3.contains(connection_id@) {
                    fails_conflict(r, "pool_connection"@, connection_id@)
                } else {
                    r matches Ok(q) && pool_view(q) == (p.0, p.1, p.2, p.3.push(connection_id@))
                        && q.active_connections == active + 1
                        && final(self).pools() == old(self).pools().insert(pool_id@, pool_view(q))
                }
            },
            r is Err ==> final(self).pools() == old(self).pools(),
    {
        let key = pool_id.to_owned();
        let i = match self.pools.index_of(&key) {
            None => return Err(not_found("provider_pool", pool_id)),
            Some(i) => i,
        };
        proof {
            assert(self.pools()[pool_id@] == pool_view(self.pools@[pool_id@]));
        }
        let (k, mut pool) = self.pools.take_at(i);
        proof {
            assert(pool == old(self).pools@[pool_id@]);
        }
        if pool.active_connections >= pool.max_connections {
            let reason = concat3("pool_full: pool '", pool_id, "' is at max capacity (");
            let a = decimal_string(pool.active_connections as u64);
            let m = decimal_string(pool.max_connections as u64);
            let reason = concat3(reason.as_str(), a.as_str(), "/");
            let reason = concat3(reason.as_str(), m.as_str(), ")");
            proof {
                assert(reason@ =~= pool_full_reason(pool_id@, pool.active_connections, pool.max_connections));
            }
            self.pools.put_at(i, k, pool);
            proof {
                assert(self.pools@ =~= old(self).pools@);
            }
            return Err(RuntimeError::PolicyDenied { reason });
        }
        let cid = connection_id.to_owned();
        if contains_string(&pool.connection_ids, &cid) {
            self.pools.put_at(i, k, pool);
            proof {
                assert(self.pools@ =~= old(self).pools@);
            }
            return Err(conflict("pool_connection", connection_id));
        }
        let ghost before = string_views(pool.connection_ids@);
        pool.connection_ids.push(cid);
        pool.active_connections = pool.active_connections + 1;
        proof {
            assert(string_views(pool.connection_ids@) =~= before.push(connection_id@));
            assert forall|a: int, b: int| 0 <= a < string_views(pool.connection_ids@).len() && 0 <= b < string_views(pool.connection_ids@).len() && a != b
                implies string_views(pool.connection_ids@)[a] != string_views(pool.connection_ids@)[b] by {
                if a < before.len() && b < before.len() {
                    assert(before[a] == string_views(pool.connection_ids@)[a]);
                    assert(before[b] == string_views(pool.connection_ids@)[b]);
                } else if a < before.len() {
                    assert(before[a] == string_views(pool.connection_ids@)[a]);
                } else {
                    assert(before[b] == string_views(pool.connection_ids@)[b]);
                }
            }
        }
        let out = pool.duplicate();
        self.pools.put_at(i, k, pool);
        proof {
            assert(self.pools() =~= old(self).pools().insert(pool_id@, pool_view(out)));
        }
        Ok(out)
    }

    /// Removes a connection from a pool. Refused with `NotFound` for an
    /// unknown pool or a connection not in it.
    pub fn remove_connection(&mut self, pool_id: &str, connection_id: &str) -> (r: Result<ProviderConnectionPool, RuntimeError>)
        requires
            old(self).wf(),
        ensures
            final(self).wf(),
            !old(self).pools().contains_key(pool_id@) ==> fails_not_found(r, "provider_pool"@, pool_id@),
            old(self).pools().contains_key(pool_id@) ==> {
                let p = old(self).pools()[pool_id@];
                if !p.3.contains(connection_id@) {
                    fails_not_found(r, "pool_connection"@, connection_id@)
                } else {
                    r matches Ok(q) && pool_view(q).0 == p.0 && pool_view(q).1 == p.1 && pool_view(q).2 == p.2
                        && pool_view(q).3.to_set() == p.3.to_set().remove(connection_id@)
                        && q.active_connections == p.3.len() - 1
                        && final(self).pools() == old(self).pools().insert(pool_id@, pool_view(q))
                }
            },
            r is Err ==> final(self).pools() == old(self).pools(),
    {
        let key = pool_id.to_owned();
        let i = match self.pools.index_of(&key) {
            None => return Err(not_found("provider_pool", pool_id)),
            Some(i) => i,
        };
        proof {
            assert(self.pools()[pool_id@] == pool_view(self.pools@[pool_id@]));
        }
        let (k, mut pool) = self.pools.take_at(i);
        proof {
            assert(pool == old(self).pools@[pool_id@]);
        }
        let cid = connection_id.to_owned();
        if !contains_string(&pool.connection_ids, &cid) {
            self.pools.put_at(i, k, pool);
            proof {
                assert(self.pools@ =~= old(self).pools@);
            }
            return Err(not_found("pool_connection", connection_id));
        }
        let ghost before = string_views(pool.connection_ids@);
        let rest = without_string(&pool.connection_ids, &cid);
        proof {
            assert(old(self).pools@.contains_key(pool_id@));
            assert(string_views(pool.connection_ids@).no_duplicates());
            assert(string_views(rest@).to_set() =~= before.to_set().remove(connection_id@));
            before.unique_seq_to_set();
            string_views(rest@).unique_seq_to_set();
            assert(before.to_set().contains(connection_id@));
            vstd::seq_lib::seq_to_set_is_finite(before);
            vstd::set::axiom_set_remove_len(before.to_set(), connection_id@);
            assert(string_views(rest@).len() == before.len() - 1);
        }
        pool.connection_ids = rest;
        pool.active_connections = pool.connection_ids.len() as u32;
        let out = pool.duplicate();
        self.pools.put_at(i, k, pool);
        proof {
            assert(self.pools() =~= old(self).pools().insert(pool_id@, pool_view(out)));
        }
        Ok(out)
    }

    /// A pool, if it exists.
    pub fn get_pool(&self, pool_id: &str) -> (r: Option<ProviderConnectionPool>)
        requires
            self.wf(),
        ensures
            match r {
                Some(p) => self.pools().contains_key(pool_id@) && pool_view(p) == self.pools()[pool_id@]
                    && p.active_connections == pool_view(p).3.len(),
                None => !self.pools().contains_key(pool_id@),
            },
    {
        let key = pool_id.to_owned();
        match self.pools.get(&key) {
            Some(p) => Some(p.duplicate()),
            None => None,
        }
    }

    /// The first connection of a pool, if the pool exists and has one.
    pub fn get_available(&self, pool_id: &str) -> (r: Option<String>)
        requires
            self.wf(),
        ensures
            match r {
                Some(c) => self.pools().contains_key(pool_id@) && self.pools()[pool_id@].3.len() > 0
                    && c@ == self.pools()[pool_id@].3[0],
                None => !self.pools().contains_key(pool_id@) || self.pools()[pool_id@].3.len() == 0,
            },
    {
        let key = pool_id.to_owned();
        match self.pools.get(&key) {
            Some(p) => {
                if p.connection_ids.len() > 0 {
                    Some(p.connection_ids[0].clone())
                } else {
                    None
                }
            },
            None => None,
        }
    }

    /// The ids of a tenant's pools, in the order they were created.
    pub fn list_pools(&self, tenant_id: &str) -> (r: Vec<ProviderConnectionPool>)
        requires
            self.wf(),
        ensures
            forall|i: int| 0 <= i < r@.len() ==> #[trigger] self.pools().contains_key(r@[i].pool_id@)
                && pool_view(r@[i]) == self.pools()[r@[i].pool_id@] && r@[i].tenant_id@ == tenant_id@,
            forall|k: Seq<char>| #[trigger] self.pools().contains_key(k) && self.pools()[k].1 == tenant_id@
                ==> exists|i: int| 0 <= i < r@.len() && r@[i].pool_id@ == k,
    {
        proof {
            self.pools.lemma_entries();
        }
        let t = tenant_id.to_owned();
        let mut out: Vec<ProviderConnectionPool> = Vec::new();
        let n = self.pools.len();
        let mut i: usize = 0;
        while i < n
            invariant
                i <= n,
                self.wf(),
                n == self.pools.entry_seq().len(),
                t@ == tenant_id@,
                forall|j: int| 0 <= j < out@.len() ==> #[trigger] self.pools().contains_key(out@[j].pool_id@)
                    && pool_view(out@[j]) == self.pools()[out@[j].pool_id@] && out@[j].tenant_id@ == tenant_id@,
                forall|a: int| 0 <= a < i && (#[trigger] self.pools.entry_seq()[a]).1.tenant_id@ == tenant_id@
                    ==> exists|j: int| 0 <= j < out@.len() && out@[j].pool_id@ == self.pools.entry_seq()[a].0,
            decreases n - i,
        {
            let (k, p) = self.pools.entry_at(i);
            proof {
                self.pools.lemma_entries();
                assert(self.pools@.contains_key(k@));
                assert(self.pools@[k@] == *p);
                assert(self.pools()[k@] == pool_view(*p));
                assert(self.pools().contains_key(k@));
            }
            if p.tenant_id == t {
                let q = p.duplicate();
                let ghost before = out@;
                proof {
                    assert(p.pool_id@ == k@);
                }
                out.push(q);
                proof {
                    assert(out@[out@.len() - 1].pool_id@ == self.pools.entry_seq()[i as int].0);
                    assert forall|j: int| 0 <= j < out@.len() implies #[trigger] self.pools().contains_key(out@[j].pool_id@)
                        && pool_view(out@[j]) == self.pools()[out@[j].pool_id@] && out@[j].tenant_id@ == tenant_id@ by {
                        if j < before.len() {
                            assert(out@[j] == before[j]);
                        }
                    }
                    assert forall|a: int| 0 <= a < i + 1 && (#[trigger] self.pools.entry_seq()[a]).1.tenant_id@ == tenant_id@
                        implies exists|j: int| 0 <= j < out@.len() && out@[j].pool_id@ == self.pools.entry_seq()[a].0 by {
                        if a < i {
                            let j = choose|j: int| 0 <= j < before.len() && before[j].pool_id@ == self.pools.entry_seq()[a].0;
                            assert(out@[j] == before[j]);
                        } else {
                            assert(out@[before.len() as int].pool_id@ == self.pools.entry_seq()[a].0);
                        }
                    }
                }
            }
            i = i + 1;
        }
        proof {
            assert forall|k: Seq<char>| #[trigger] self.pools().contains_key(k) && self.pools()[k].1 == tenant_id@
                implies exists|j: int| 0 <= j < out@.len() && out@[j].pool_id@ == k by {
                let a = choose|a: int| 0 <= a < self.pools.entry_seq().len() && self.pools.entry_seq()[a].0 == k;
                assert(self.pools@[k] == self.pools.entry_seq()[a].1);
                assert(self.pools.entry_seq()[a].1.tenant_id@ == tenant_id@);
            }
        }
        out
    }
}

} // verus!
