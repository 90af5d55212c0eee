//! Association lists keyed by text: the storage used by the in-memory
//! registries of this crate, and their reading as a finite map.
use vstd::prelude::*;

verus! {

/// No key occurs twice in the list.
pub open spec fn keys_unique<V>(s: Seq<(Seq<char>, V)>) -> bool {
    forall|i: int, j: int|
        0 <= i < s.len() && 0 <= j < s.len() && i != j ==> #[trigger] s[i].0 != #[trigger] s[j].0
}

/// Some entry of the list has key `k`.
pub open spec fn has_key<V>(s: Seq<(Seq<char>, V)>, k: Seq<char>) -> bool {
    exists|i: int| 0 <= i < s.len() && #[trigger] s[i].0 == k
}

/// The list read as a map from key to value.
pub open spec fn alist_map<V>(s: Seq<(Seq<char>, V)>) -> Map<Seq<char>, V> {
    Map::new(
        |k: Seq<char>| has_key(s, k),
        |k: Seq<char>| s[choose|i: int| 0 <= i < s.len() && s[i].0 == k].1,
    )
}

pub proof fn lemma_alist_get<V>(s: Seq<(Seq<char>, V)>, i: int)
    requires
        keys_unique(s),
        0 <= i < s.len(),
    ensures
        alist_map(s).contains_key(s[i].0),
        alist_map(s)[s[i].0] == s[i].1,
{
    let k = s[i].0;
    assert(has_key(s, k));
    let j = choose|j: int| 0 <= j < s.len() && s[j].0 == k;
    assert(j == i);
}

pub proof fn lemma_alist_absent<V>(s: Seq<(Seq<char>, V)>, k: Seq<char>)
    requires
        forall|i: int| 0 <= i < s.len() ==> #[trigger] s[i].0 != k,
    ensures
        !alist_map(s).contains_key(k),
{
}

pub proof fn lemma_alist_update<V>(s: Seq<(Seq<char>, V)>, i: int, v: V)
    requires
        keys_unique(s),
        0 <= i < s.len(),
    ensures
        keys_unique(s.update(i, (s[i].0, v))),
        alist_map(s.update(i, (s[i].0, v))) =~= alist_map(s).insert(s[i].0, v),
{
    let t = s.update(i, (s[i].0, v));
    assert forall|a: int, b: int|
        0 <= a < t.len() && 0 <= b < t.len() && a != b implies #[trigger] t[a].0 != #[trigger] t[b].0 by {
        assert(t[a].0 == s[a].0);
        assert(t[b].0 == s[b].0);
    }
    assert forall|k: Seq<char>| has_key(t, k) <==> has_key(s, k) || k == s[i].0 by {
        if has_key(t, k) {
            let a = choose|a: int| 0 <= a < t.len() && t[a].0 == k;
            assert(s[a].0 == k);
        }
        if has_key(s, k) {
            let a = choose|a: int| 0 <= a < s.len() && s[a].0 == k;
            assert(t[a].0 == k);
        }
        if k == s[i].0 {
            assert(t[i].0 == k);
        }
    }
    assert forall|k: Seq<char>| #[trigger] alist_map(t).contains_key(k) implies alist_map(t)[k]
        == alist_map(s).insert(s[i].0, v)[k] by {
        let a = choose|a: int| 0 <= a < t.len() && t[a].0 == k;
        lemma_alist_get(t, a);
        if a != i {
            assert(s[a].0 == k);
            lemma_alist_get(s, a);
        }
    }
}

pub proof fn lemma_alist_push<V>(s: Seq<(Seq<char>, V)>, k: Seq<char>, v: V)
    requires
        keys_unique(s),
        !has_key(s, k),
    ensures
        keys_unique(s.push((k, v))),
        alist_map(s.push((k, v))) =~= alist_map(s).insert(k, v),
{
    let t = s.push((k, v));
    assert forall|a: int, b: int|
        0 <= a < t.len() && 0 <= b < t.len() && a != b implies #[trigger] t[a].0 != #[trigger] t[b].0 by {
        if a < s.len() && b < s.len() {
            assert(t[a] == s[a]);
            assert(t[b] == s[b]);
        } else if a < s.len() {
            assert(t[a] == s[a]);
        } else {
            assert(t[b] == s[b]);
        }
    }
    assert forall|q: Seq<char>| has_key(t, q) <==> has_key(s, q) || q == k by {
        if has_key(t, q) {
            let a = choose|a: int| 0 <= a < t.len() && t[a].0 == q;
            if a < s.len() {
                assert(s[a].0 == q);
            }
        }
        if has_key(s, q) {
            let a = choose|a: int| 0 <= a < s.len() && s[a].0 == q;
            assert(t[a].0 == q);
        }
        if q == k {
            assert(t[s.len() as int].0 == q);
        }
    }
    assert forall|q: Seq<char>| #[trigger] alist_map(t).contains_key(q) implies alist_map(t)[q]
        == alist_map(s).insert(k, v)[q] by {
        let a = choose|a: int| 0 <= a < t.len() && t[a].0 == q;
        lemma_alist_get(t, a);
        if a < s.len() {
            assert(t[a] == s[a]);
            lemma_alist_get(s, a);
        }
    }
}

pub proof fn lemma_alist_remove<V>(s: Seq<(Seq<char>, V)>, i: int)
    requires
        keys_unique(s),
        0 <= i < s.len(),
    ensures
        keys_unique(s.remove(i)),
        alist_map(s.remove(i)) =~= alist_map(s).remove(s[i].0),
{
    let t = s.remove(i);
    let k = s[i].0;
    assert forall|a: int| 0 <= a < t.len() implies #[trigger] t[a] == s[if a < i { a } else { a + 1 }] by {}
    assert forall|a: int, b: int|
        0 <= a < t.len() && 0 <= b < t.len() && a != b implies #[trigger] t[a].0 != #[trigger] t[b].0 by {
        let a2 = if a < i { a } else { a + 1 };
        let b2 = if b < i { b } else { b + 1 };
        assert(t[a] == s[a2]);
        assert(t[b] == s[b2]);
    }
    assert forall|q: Seq<char>| has_key(t, q) <==> has_key(s, q) && q != k by {
        if has_key(t, q) {
            let a = choose|a: int| 0 <= a < t.len() && t[a].0 == q;
            let a2 = if a < i { a } else { a + 1 };
            assert(t[a] == s[a2]);
            assert(s[a2].0 == q);
        }
        if has_key(s, q) && q != k {
            let a = choose|a: int| 0 <= a < s.len() && s[a].0 == q;
            assert(a != i);
            let a2 = if a < i { a } else { a - 1 };
            assert(t[a2] == s[a]);
        }
    }
    assert forall|q: Seq<char>| #[trigger] alist_map(t).contains_key(q) implies alist_map(t)[q]
        == alist_map(s).remove(k)[q] by {
        let a = choose|a: int| 0 <= a < t.len() && t[a].0 == q;
        let a2 = if a < i { a } else { a + 1 };
        assert(t[a] == s[a2]);
        lemma_alist_get(t, a);
        lemma_alist_get(s, a2);
    }
}

pub proof fn lemma_alist_insert_at<V>(s: Seq<(Seq<char>, V)>, i: int, k: Seq<char>, v: V)
    requires
        keys_unique(s),
        !has_key(s, k),
        0 <= i <= s.len(),
    ensures
        keys_unique(s.insert(i, (k, v))),
        alist_map(s.insert(i, (k, v))) =~= alist_map(s).insert(k, v),
{
    let t = s.insert(i, (k, v));
    assert forall|a: int| 0 <= a < t.len() implies #[trigger] t[a] == if a < i { s[a] } else if a == i { (k, v) } else { s[a - 1] } by {}
    assert forall|a: int, b: int|
        0 <= a < t.len() && 0 <= b < t.len() && a != b implies #[trigger] t[a].0 != #[trigger] t[b].0 by {
        let x = t[a];
        let y = t[b];
        if a != i && b != i {
            let a2 = if a < i { a } else { a - 1 };
            let b2 = if b < i { b } else { b - 1 };
            assert(x == s[a2]);
            assert(y == s[b2]);
        } else if a == i {
            let b2 = if b < i { b } else { b - 1 };
            assert(y == s[b2]);
        } else {
            let a2 = if a < i { a } else { a - 1 };
            assert(x == s[a2]);
        }
    }
    assert forall|q: Seq<char>| has_key(t, q) <==> has_key(s, q) || q == k by {
        if has_key(t, q) {
            let a = choose|a: int| 0 <= a < t.len() && t[a].0 == q;
            if a != i {
                let a2 = if a < i { a } else { a - 1 };
                assert(s[a2].0 == q);
            }
        }
        if has_key(s, q) {
            let a = choose|a: int| 0 <= a < s.len() && s[a].0 == q;
            let a2 = if a < i { a } else { a + 1 };
            assert(t[a2].0 == q);
        }
        if q == k {
            assert(t[i].0 == q);
        }
    }
    assert forall|q: Seq<char>| #[trigger] alist_map(t).contains_key(q) implies alist_map(t)[q]
        == alist_map(s).insert(k, v)[q] by {
        let a = choose|a: int| 0 <= a < t.len() && t[a].0 == q;
        lemma_alist_get(t, a);
        if a != i {
            let a2 = if a < i { a } else { a - 1 };
            assert(t[a] == s[a2]);
            lemma_alist_get(s, a2);
        }
    }
}

pub proof fn lemma_alist_len<V>(s: Seq<(Seq<char>, V)>)
    requires
        keys_unique(s),
    ensures
        alist_map(s).dom().finite(),
        alist_map(s).len() == s.len(),
    decreases s.len(),
{
    if s.len() == 0 {
        assert(alist_map(s).dom() =~= Set::<Seq<char>>::empty());
    } else {
        let t = s.drop_last();
        assert(keys_unique(t)) by {
            assert forall|a: int, b: int|
                0 <= a < t.len() && 0 <= b < t.len() && a != b implies #[trigger] t[a].0 != #[trigger] t[b].0 by {
                assert(t[a] == s[a]);
                assert(t[b] == s[b]);
            }
        }
        lemma_alist_len(t);
        let (k, v) = s.last();
        assert(!has_key(t, k)) by {
            if has_key(t, k) {
                let a = choose|a: int| 0 <= a < t.len() && t[a].0 == k;
                assert(t[a] == s[a]);
                assert(s[s.len() - 1].0 == k);
            }
        }
        lemma_alist_push(t, k, v);
        assert(t.push((k, v)) =~= s);
    }
}

/// Position of the entry whose key equals `key`, if any.
pub fn find_key<T>(entries: &Vec<(String, T)>, key: &String) -> (r: Option<usize>)
    ensures
        match r {
            Some(i) => i < entries@.len() && entries@[i as int].0@ == key@,
            None => forall|i: int| 0 <= i < entries@.len() ==> #[trigger] entries@[i].0@ != key@,
        },
{
    let mut i: usize = 0;
    while i < entries.len()
        invariant
            i <= entries@.len(),
            forall|j: int| 0 <= j < i ==> #[trigger] entries@[j].0@ != key@,
        decreases entries@.len() - i,
    {
        if entries[i].0 == *key {
            return Some(i);
        }
        i = i + 1;
    }
    None
}

/// A map from text keys to values, kept as a list in insertion order.
pub struct TextMap<V> {
    entries: Vec<(String, V)>,
}

pub open spec fn text_entries<V>(s: Seq<(String, V)>) -> Seq<(Seq<char>, V)> {
    s.map_values(|e: (String, V)| (e.0@, e.1))
}

impl<V> View for TextMap<V> {
    type V = Map<Seq<char>, V>;

    closed spec fn view(&self) -> Map<Seq<char>, V> {
        alist_map(text_entries(self.entries@))
    }
}

impl<V> TextMap<V> {
    /// The entries, in insertion order.
    pub closed spec fn entry_seq(&self) -> Seq<(Seq<char>, V)> {
        text_entries(self.entries@)
    }

    pub closed spec fn wf(&self) -> bool {
        keys_unique(text_entries(self.entries@))
    }

    pub proof fn lemma_entries(&self)
        requires
            self.wf(),
        ensures
            keys_unique(self.entry_seq()),
            self@ == alist_map(self.entry_seq()),
            self@.dom().finite(),
            self@.len() == self.entry_seq().len(),
            forall|i: int| 0 <= i < self.entry_seq().len() ==> #[trigger] self@.contains_key(self.entry_seq()[i].0)
                && self@[self.entry_seq()[i].0] == self.entry_seq()[i].1,
            forall|k: Seq<char>| #[trigger] self@.contains_key(k) ==> exists|i: int| 0 <= i < self.entry_seq().len() && self.entry_seq()[i].0 == k,
    {
        let s = text_entries(self.entries@);
        lemma_alist_len(s);
        assert forall|i: int| 0 <= i < s.len() implies #[trigger] self@.contains_key(s[i].0) && self@[s[i].0] == s[i].1 by {
            lemma_alist_get(s, i);
        }
        assert forall|k: Seq<char>| #[trigger] self@.contains_key(k) implies exists|i: int| 0 <= i < self.entry_seq().len() && self.entry_seq()[i].0 == k by {
            assert(has_key(s, k));
            let i = choose|i: int| 0 <= i < s.len() && #[trigger] s[i].0 == k;
            assert(self.entry_seq()[i].0 == k);
        }
    }

    /// An empty map.
    pub fn new() -> (r: Self)
        ensures
            r.wf(),
            r@ == Map::<Seq<char>, V>::empty(),
            r.entry_seq() == Seq::<(Seq<char>, V)>::empty(),
    {
        let r = TextMap { entries: Vec::new() };
        assert(r@ =~= Map::<Seq<char>, V>::empty());
        assert(r.entry_seq() =~= Seq::<(Seq<char>, V)>::empty());
        r
    }

    /// Number of entries.
    pub fn len(&self) -> (r: usize)
        requires
            self.wf(),
        ensures
            r == self@.len(),
            r == self.entry_seq().len(),
    {
        proof {
            self.lemma_entries();
        }
        self.entries.len()
    }

    /// The `i`-th entry in insertion order.
    pub fn entry_at(&self, i: usize) -> (r: (&String, &V))
        requires
            i < self.entry_seq().len(),
        ensures
            r.0@ == self.entry_seq()[i as int].0,
            *r.1 == self.entry_seq()[i as int].1,
    {
        let e = &self.entries[i];
        (&e.0, &e.1)
    }

    /// Position of key `k`.
    pub fn index_of(&self, k: &String) -> (r: Option<usize>)
        requires
            self.wf(),
        ensures
            match r {
                Some(i) => i < self.entry_seq().len() && self.entry_seq()[i as int].0 == k@
                    && self@.contains_key(k@) && self@[k@] == self.entry_seq()[i as int].1,
                None => !self@.contains_key(k@),
            },
    {
        let r = find_key(&self.entries, k);
        proof {
            let s = text_entries(self.entries@);
            match r {
                Some(i) => lemma_alist_get(s, i as int),
                None => {
                    assert forall|j: int| 0 <= j < s.len() implies #[trigger] s[j].0 != k@ by {
                        assert(s[j].0 == self.entries@[j].0@);
                    }
                    lemma_alist_absent(s, k@);
                },
            }
        }
        r
    }

    /// The value under `k`.
    pub fn get(&self, k: &String) -> (r: Option<&V>)
        requires
            self.wf(),
        ensures
            match r {
                Some(v) => self@.contains_key(k@) && *v == self@[k@],
                None => !self@.contains_key(k@),
            },
    {
        match self.index_of(k) {
            Some(i) => Some(&self.entries[i].1),
            None => None,
        }
    }

    /// Whether `k` has a value.
    pub fn contains_key(&self, k: &String) -> (r: bool)
        requires
            self.wf(),
        ensures
            r == self@.contains_key(k@),
    {
        self.index_of(k).is_some()
    }

    /// Sets the value under `k`, returning the previous one. A new key goes
    /// to the end of the insertion order; an existing one keeps its place.
    pub fn insert(&mut self, k: String, v: V) -> (r: Option<V>)
        requires
            old(self).wf(),
        ensures
            final(self).wf(),
            final(self)@ == old(self)@.insert(k@, v),
            match r {
                Some(p) => old(self)@.contains_key(k@) && p == old(self)@[k@],
                None => !old(self)@.contains_key(k@),
            },
            old(self)@.contains_key(k@) ==> final(self).entry_seq().len() == old(self).entry_seq().len(),
            !old(self)@.contains_key(k@) ==> final(self).entry_seq() == old(self).entry_seq().push((k@, v)),
    {
        let ghost s = text_entries(self.entries@);
        let ghost kv = k@;
        match self.index_of(&k) {
            Some(i) => {
                let mut pair = (k, v);
                std::mem::swap(&mut pair, &mut self.entries[i]);
                proof {
                    lemma_alist_update(s, i as int, self.entries@[i as int].1);
                    assert(text_entries(self.entries@) =~= s.update(i as int, (s[i as int].0, self.entries@[i as int].1)));
                }
                Some(pair.1)
            },
            None => {
                proof {
                    if has_key(s, kv) {
                        let j = choose|j: int| 0 <= j < s.len() && s[j].0 == kv;
                        lemma_alist_get(s, j);
                    }
                }
                self.entries.push((k, v));
                proof {
                    lemma_alist_push(s, kv, self.entries@.last().1);
                    assert(text_entries(self.entries@) =~= s.push((kv, self.entries@.last().1)));
                }
                None
            },
        }
    }

    /// Removes `k`, returning its value.
    pub fn remove(&mut self, k: &String) -> (r: Option<V>)
        requires
            old(self).wf(),
        ensures
            final(self).wf(),
            final(self)@ == old(self)@.remove(k@),
            match r {
                Some(p) => old(self)@.contains_key(k@) && p == old(self)@[k@],
                None => !old(self)@.contains_key(k@),
            },
    {
        let ghost s = text_entries(self.entries@);
        match self.index_of(k) {
            Some(i) => {
                let e = self.entries.remove(i);
                proof {
                    lemma_alist_remove(s, i as int);
                    assert(text_entries(self.entries@) =~= s.remove(i as int));
                }
                Some(e.1)
            },
            None => {
                assert(self@ =~= self@.remove(k@));
                None
            },
        }
    }

    /// Replaces the value at position `i`, keeping its key.
    pub fn set_at(&mut self, i: usize, v: V)
        requires
            old(self).wf(),
            i < old(self).entry_seq().len(),
        ensures
            final(self).wf(),
            final(self)@ == old(self)@.insert(old(self).entry_seq()[i as int].0, v),
            final(self).entry_seq() == old(self).entry_seq().update(i as int, (old(self).entry_seq()[i as int].0, v)),
    {
        let ghost s = text_entries(self.entries@);
        let mut pair = (String::new(), v);
        std::mem::swap(&mut pair.0, &mut self.entries[i].0);
        std::mem::swap(&mut pair, &mut self.entries[i]);
        proof {
            lemma_alist_update(s, i as int, self.entries@[i as int].1);
            assert(text_entries(self.entries@) =~= s.update(i as int, (s[i as int].0, self.entries@[i as int].1)));
        }
    }

    /// Takes out the entry at position `i`.
    pub fn take_at(&mut self, i: usize) -> (r: (String, V))
        requires
            old(self).wf(),
            i < old(self).entry_seq().len(),
        ensures
            final(self).wf(),
            final(self).entry_seq() == old(self).entry_seq().remove(i as int),
            final(self)@ == old(self)@.remove(old(self).entry_seq()[i as int].0),
            r.0@ == old(self).entry_seq()[i as int].0,
            r.1 == old(self).entry_seq()[i as int].1,
    {
        let ghost s = text_entries(self.entries@);
        let e = self.entries.remove(i);
        proof {
            lemma_alist_remove(s, i as int);
            assert(text_entries(self.entries@) =~= s.remove(i as int));
        }
        e
    }

    /// Puts an entry with a new key at position `i`.
    pub fn put_at(&mut self, i: usize, k: String, v: V)
        requires
            old(self).wf(),
            i <= old(self).entry_seq().len(),
            !old(self)@.contains_key(k@),
        ensures
            final(self).wf(),
            final(self).entry_seq() == old(self).entry_seq().insert(i as int, (k@, v)),
            final(self)@ == old(self)@.insert(k@, v),
    {
        let ghost s = text_entries(self.entries@);
        let ghost kv = k@;
        proof {
            if has_key(s, kv) {
                let j = choose|j: int| 0 <= j < s.len() && s[j].0 == kv;
                lemma_alist_get(s, j);
            }
        }
        self.entries.insert(i, (k, v));
        proof {
            lemma_alist_insert_at(s, i as int, kv, self.entries@[i as int].1);
            assert(text_entries(self.entries@) =~= s.insert(i as int, (kv, self.entries@[i as int].1)));
        }
    }
}

} // verus!
