//! The reference in-memory backend: a map from raw key to entry, with lazy
//! eviction of lapsed entries on lookup.

use vstd::prelude::*;
use crate::error::Error;
use crate::types::{clone_raw, raw_eq, Entry, Raw, Store, Ttl, TtlStore};

verus! {

/// One stored entry: payload bytes and an optional expiry instant.
struct MemoryItem {
    ttl: Option<Ttl>,
    data: Vec<u8>,
}

impl View for MemoryItem {
    type V = Entry;

    closed spec fn view(&self) -> Entry {
        Entry { expiry: self.ttl, data: self.data@ }
    }
}

/// The entry map denoted by an association list, later pairs shadowing
/// earlier ones (the representation keeps keys unique, so none shadow).
spec fn entries_map(s: Seq<(Raw, MemoryItem)>) -> Map<Seq<u8>, Entry>
    decreases s.len(),
{
    if s.len() == 0 {
        Map::empty()
    } else {
        entries_map(s.drop_last()).insert(s.last().0@, s.last().1@)
    }
}

/// No two pairs carry the same key.
spec fn unique_keys(s: Seq<(Raw, MemoryItem)>) -> bool {
    forall|i: int, j: int| 0 <= i < j < s.len() ==> s[i].0@ != s[j].0@
}

proof fn lemma_unique_drop_last(s: Seq<(Raw, MemoryItem)>)
    requires
        unique_keys(s),
        s.len() > 0,
    ensures
        unique_keys(s.drop_last()),
{
    assert forall|a: int, b: int|
        0 <= a < b < s.drop_last().len() implies s.drop_last()[a].0@ != s.drop_last()[b].0@ by {
        assert(s[a].0@ != s[b].0@);
    }
}

/// A key is in the map exactly when some pair carries it.
proof fn lemma_entries_map_domain(s: Seq<(Raw, MemoryItem)>, k: Seq<u8>)
    ensures
        entries_map(s).contains_key(k) <==> (exists|i: int| 0 <= i < s.len() && s[i].0@ == k),
    decreases s.len(),
{
    if s.len() > 0 {
        lemma_entries_map_domain(s.drop_last(), k);
        if s.last().0@ == k {
            assert(s[s.len() - 1].0@ == k);
        } else {
            if entries_map(s).contains_key(k) {
                let i = choose|i: int|
                    0 <= i < s.drop_last().len() && s.drop_last()[i].0@ == k;
                assert(s[i].0@ == k);
            }
            if exists|i: int| 0 <= i < s.len() && s[i].0@ == k {
                let i = choose|i: int| 0 <= i < s.len() && s[i].0@ == k;
                assert(i < s.len() - 1);
                assert(s.drop_last()[i].0@ == k);
            }
        }
    }
}

/// With unique keys, the pair at any index gives the map's value for its key.
proof fn lemma_entries_map_index(s: Seq<(Raw, MemoryItem)>, i: int)
    requires
        unique_keys(s),
        0 <= i < s.len(),
    ensures
        entries_map(s).contains_key(s[i].0@),
        entries_map(s)[s[i].0@] == s[i].1@,
    decreases s.len(),
{
    if i == s.len() - 1 {
    } else {
        lemma_unique_drop_last(s);
        lemma_entries_map_index(s.drop_last(), i);
        assert(s.drop_last()[i] == s[i]);
        assert(s[i].0@ != s[s.len() - 1].0@);
    }
}

/// Appending a pair with an unseen key inserts it into the map.
proof fn lemma_entries_map_push(s: Seq<(Raw, MemoryItem)>, p: (Raw, MemoryItem))
    requires
        unique_keys(s),
        forall|i: int| 0 <= i < s.len() ==> s[i].0@ != p.0@,
    ensures
        unique_keys(s.push(p)),
        entries_map(s.push(p)) == entries_map(s).insert(p.0@, p.1@),
{
    let s2 = s.push(p);
    assert(s2.drop_last() =~= s);
    assert(s2.last() == p);
    assert forall|a: int, b: int| 0 <= a < b < s2.len() implies s2[a].0@ != s2[b].0@ by {
        if b < s.len() {
            assert(s[a].0@ != s[b].0@);
        } else {
            assert(s2[b] == p);
            assert(s2[a] == s[a]);
        }
    }
}

/// Removing the pair at an index removes its key from the map.
proof fn lemma_entries_map_remove(s: Seq<(Raw, MemoryItem)>, i: int)
    requires
        unique_keys(s),
        0 <= i < s.len(),
    ensures
        unique_keys(s.remove(i)),
        entries_map(s.remove(i)) == entries_map(s).remove(s[i].0@),
{
    let s2 = s.remove(i);
    let k = s[i].0@;
    s.remove_ensures(i);
    assert forall|a: int, b: int| 0 <= a < b < s2.len() implies s2[a].0@ != s2[b].0@ by {
        let a0: int = if a < i {
            a
        } else {
            a + 1
        };
        let b0: int = if b < i {
            b
        } else {
            b + 1
        };
        assert(s2[a] == s[a0]);
        assert(s2[b] == s[b0]);
        assert(s[a0].0@ != s[b0].0@);
    }
    assert forall|k2: Seq<u8>|
        entries_map(s2).contains_key(k2) == entries_map(s).remove(k).contains_key(k2) by {
        lemma_entries_map_domain(s2, k2);
        lemma_entries_map_domain(s, k2);
        if entries_map(s2).contains_key(k2) {
            let j = choose|j: int| 0 <= j < s2.len() && s2[j].0@ == k2;
            let j0: int = if j < i {
                j
            } else {
                j + 1
            };
            assert(s[j0].0@ == k2);
            assert(j0 != i);
            assert(k2 != k);
        }
        if entries_map(s).remove(k).contains_key(k2) {
            let j = choose|j: int| 0 <= j < s.len() && s[j].0@ == k2;
            assert(j != i);
            let j2: int = if j < i {
                j
            } else {
                j - 1
            };
            assert(s2[j2].0@ == k2);
        }
    }
    assert forall|k2: Seq<u8>|
        entries_map(s2).contains_key(k2) implies entries_map(s2)[k2] == entries_map(s).remove(
        k,
    )[k2] by {
        lemma_entries_map_domain(s2, k2);
        let j = choose|j: int| 0 <= j < s2.len() && s2[j].0@ == k2;
        let j0: int = if j < i {
            j
        } else {
            j + 1
        };
        assert(s2[j] == s[j0]);
        lemma_entries_map_index(s2, j);
        lemma_entries_map_index(s, j0);
        assert(k2 != k);
    }
    assert(entries_map(s2) =~= entries_map(s).remove(k));
}

/// The reference in-memory backend. It holds one entry per raw key and is
/// driven entirely through the storage contract.
pub struct Memory {
    db: Vec<(Raw, MemoryItem)>,
}

impl Memory {
    /// Creates an empty backend.
    pub fn new() -> (m: Memory)
        ensures
            m.inv(),
            m.sv() == Map::<Seq<u8>, Entry>::empty(),
    {
        Memory { db: Vec::new() }
    }

    /// Finds the index of the pair carrying `key`, if any.
    fn find(&self, key: &Raw) -> (idx: Option<usize>)
        ensures
            (idx matches Some(i) ==> i < self.db@.len() && self.db@[i as int].0@ == key@),
            idx is None ==> forall|i: int| 0 <= i < self.db@.len() ==> self.db@[i].0@ != key@,
    {
        let n = self.db.len();
        let mut k: usize = 0;
        while k < n
            invariant
                k <= n,
                n == self.db@.len(),
                forall|i: int| 0 <= i < k ==> self.db@[i].0@ != key@,
            decreases n - k,
        {
            if raw_eq(&self.db[k].0, key) {
                return Some(k);
            }
            k = k + 1;
        }
        None
    }

    /// Deletes the entry carrying `key`, if any.
    fn del(&mut self, key: &Raw)
        requires
            old(self).inv(),
        ensures
            final(self).inv(),
            final(self).sv() == old(self).sv().remove(key@),
    {
        match self.find(key) {
            Some(i) => {
                proof {
                    lemma_entries_map_remove(self.db@, i as int);
                }
                self.db.remove(i);
            }
            None => {
                proof {
                    lemma_entries_map_domain(self.db@, key@);
                    assert(entries_map(self.db@).remove(key@) =~= entries_map(self.db@));
                }
            }
        }
    }
}

impl Store for Memory {
    closed spec fn sv(&self) -> Map<Seq<u8>, Entry> {
        entries_map(self.db@)
    }

    closed spec fn inv(&self) -> bool {
        unique_keys(self.db@)
    }

    fn insert(&mut self, key: Raw, value: Raw) -> (r: Result<(), Error>) {
        self.del(&key);
        proof {
            lemma_entries_map_domain(self.db@, key@);
        }
        let item = MemoryItem { ttl: None, data: value };
        proof {
            lemma_entries_map_push(self.db@, (key, item));
            assert(old(self).sv().remove(key@).insert(key@, item@) =~= old(self).sv().insert(
                key@,
                item@,
            ));
        }
        self.db.push((key, item));
        Ok(())
    }

    fn get(&mut self, key: &Raw, now: Ttl) -> (r: Result<Raw, Error>) {
        match self.find(key) {
            None => {
                proof {
                    lemma_entries_map_domain(self.db@, key@);
                }
                Err(Error::NotFound)
            }
            Some(i) => {
                proof {
                    lemma_entries_map_index(self.db@, i as int);
                }
                let lapsed = match self.db[i].1.ttl {
                    Some(t) => now > t,
                    None => false,
                };
                if lapsed {
                    self.del(key);
                    Err(Error::Expired)
                } else {
                    Ok(clone_raw(&self.db[i].1.data))
                }
            }
        }
    }

    fn remove(&mut self, key: &Raw) -> (r: Result<(), Error>) {
        self.del(key);
        Ok(())
    }
}

impl TtlStore for Memory {
    fn insert_ttl(&mut self, key: Raw, ttl: Ttl, value: Raw) -> (r: Result<(), Error>) {
        self.del(&key);
        proof {
            lemma_entries_map_domain(self.db@, key@);
        }
        let item = MemoryItem { ttl: Some(ttl), data: value };
        proof {
            lemma_entries_map_push(self.db@, (key, item));
            assert(old(self).sv().remove(key@).insert(key@, item@) =~= old(self).sv().insert(
                key@,
                item@,
            ));
        }
        self.db.push((key, item));
        Ok(())
    }

    fn touch(&mut self, key: &Raw, ttl: Ttl) -> (r: Result<(), Error>) {
        match self.find(key) {
            None => {
                proof {
                    lemma_entries_map_domain(self.db@, key@);
                }
                Err(Error::NotFound)
            }
            Some(i) => {
                proof {
                    lemma_entries_map_index(self.db@, i as int);
                }
                let data = clone_raw(&self.db[i].1.data);
                let key2 = clone_raw(key);
                self.del(key);
                proof {
                    lemma_entries_map_domain(self.db@, key@);
                }
                let item = MemoryItem { ttl: Some(ttl), data };
                proof {
                    lemma_entries_map_push(self.db@, (key2, item));
                    assert(old(self).sv().remove(key@).insert(key@, item@) =~= old(
                        self,
                    ).sv().insert(key@, item@));
                }
                self.db.push((key2, item));
                Ok(())
            }
        }
    }
}

} // verus!
