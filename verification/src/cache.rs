//! The result cache: a key/value store of previously fetched or computed
//! payloads, used cache-aside to avoid redundant external calls.
//!
//! A write replaces the prior value wholesale, a read observes exactly the
//! last write to its key, and an explicit eviction removes a malformed
//! entry. There is no cross-key transactionality and no versioning.

use vstd::prelude::*;

use crate::airtable::{Bases, Record};

verus! {

/// A cached payload: the page set an import fetched (records whose fields
/// travel through the pipeline as opaque text), or a derived payload such
/// as the list of accessible bases.
#[derive(Debug)]
pub enum CachedValue {
    Records(Vec<Record<String>>),
    BaseList(Bases),
}

/// The mathematical contents of an entry list: later entries win, though
/// the store keeps keys unique.
pub open spec fn entries_map(entries: Seq<(String, CachedValue)>) -> Map<Seq<char>, CachedValue>
    decreases entries.len(),
{
    if entries.len() == 0 {
        Map::empty()
    } else {
        entries_map(entries.drop_last()).insert(entries.last().0@, entries.last().1)
    }
}

/// Keys of the entry list are pairwise distinct.
pub open spec fn entry_keys_distinct(entries: Seq<(String, CachedValue)>) -> bool {
    forall|i: int, j: int|
        0 <= i < j < entries.len() ==> (#[trigger] entries[i].0)@ != (#[trigger] entries[j].0)@
}

/// An entry's key and value are in the map of a distinct-keyed list.
proof fn lemma_entries_map_lookup(entries: Seq<(String, CachedValue)>, i: int)
    requires
        entry_keys_distinct(entries),
        0 <= i < entries.len(),
    ensures
        entries_map(entries).contains_key(entries[i].0@),
        entries_map(entries)[entries[i].0@] == entries[i].1,
    decreases entries.len(),
{
    if i < entries.len() - 1 {
        lemma_entries_map_lookup(entries.drop_last(), i);
        assert(entries.drop_last()[i] == entries[i]);
        assert(entries[entries.len() - 1].0@ != entries[i].0@);
    }
}

/// A key no entry carries is not in the map.
proof fn lemma_entries_map_absent(entries: Seq<(String, CachedValue)>, k: Seq<char>)
    requires
        forall|i: int| 0 <= i < entries.len() ==> (#[trigger] entries[i].0)@ != k,
    ensures
        !entries_map(entries).contains_key(k),
    decreases entries.len(),
{
    if entries.len() > 0 {
        lemma_entries_map_absent(entries.drop_last(), k);
    }
}

/// Overwriting the entry that carries a key updates exactly that key in
/// the map.
proof fn lemma_entries_map_update(
    entries: Seq<(String, CachedValue)>,
    i: int,
    pair: (String, CachedValue),
)
    requires
        entry_keys_distinct(entries),
        0 <= i < entries.len(),
        pair.0@ == entries[i].0@,
    ensures
        entries_map(entries.update(i, pair)) == entries_map(entries).insert(pair.0@, pair.1),
    decreases entries.len(),
{
    let u = entries.update(i, pair);
    if i == entries.len() - 1 {
        assert(u.drop_last() =~= entries.drop_last());
        assert(entries_map(u) =~= entries_map(entries).insert(pair.0@, pair.1));
    } else {
        assert(u.drop_last() =~= entries.drop_last().update(i, pair));
        assert(entries.drop_last()[i] == entries[i]);
        lemma_entries_map_update(entries.drop_last(), i, pair);
        assert(u.last() == entries.last());
        assert(entries.last().0@ != pair.0@);
        assert(entries_map(u) =~= entries_map(entries).insert(pair.0@, pair.1));
    }
}

/// Removing the entry that carries a key removes exactly that key from
/// the map.
proof fn lemma_entries_map_remove(entries: Seq<(String, CachedValue)>, i: int)
    requires
        entry_keys_distinct(entries),
        0 <= i < entries.len(),
    ensures
        entries_map(entries.remove(i)) == entries_map(entries).remove(entries[i].0@),
    decreases entries.len(),
{
    let r = entries.remove(i);
    if i == entries.len() - 1 {
        assert(r =~= entries.drop_last());
        lemma_entries_map_absent_from_distinct(entries.drop_last(), entries[i].0@);
        assert(entries_map(r) =~= entries_map(entries).remove(entries[i].0@));
    } else {
        assert(r.drop_last() =~= entries.drop_last().remove(i));
        assert(entries.drop_last()[i] == entries[i]);
        lemma_entries_map_remove(entries.drop_last(), i);
        assert(r.last() == entries.last());
        assert(entries.last().0@ != entries[i].0@);
        assert(entries_map(r) =~= entries_map(entries).remove(entries[i].0@));
    }
}

/// In a distinct-keyed list, a key that only the dropped last entry could
/// carry is absent from the rest.
proof fn lemma_entries_map_absent_from_distinct(
    entries: Seq<(String, CachedValue)>,
    k: Seq<char>,
)
    requires
        forall|i: int| 0 <= i < entries.len() ==> (#[trigger] entries[i].0)@ != k,
    ensures
        !entries_map(entries).contains_key(k),
{
    lemma_entries_map_absent(entries, k);
}

/// The result cache. Its mathematical content is a map from key text to
/// cached payload; a write replaces the prior value wholesale.
pub struct Cache {
    entries: Vec<(String, CachedValue)>,
}

impl View for Cache {
    type V = Map<Seq<char>, CachedValue>;

    closed spec fn view(&self) -> Map<Seq<char>, CachedValue> {
        entries_map(self.entries@)
    }
}

impl Cache {
    /// The representation keeps one entry per key.
    pub closed spec fn wf(&self) -> bool {
        entry_keys_distinct(self.entries@)
    }

    /// An empty cache.
    pub fn new() -> (r: Cache)
        ensures
            r.wf(),
            r@ == Map::<Seq<char>, CachedValue>::empty(),
    {
        let r = Cache { entries: Vec::new() };
        proof {
            assert(r.entries@.len() == 0);
        }
        r
    }

    /// The position of the entry carrying this key, if any.
    fn find_index(&self, key: &str) -> (r: Option<usize>)
        requires
            self.wf(),
        ensures
            match r {
                Some(i) => (i as int) < self.entries@.len() && self.entries@[i as int].0@ == key@
                    && self@.contains_key(key@) && self@[key@] == self.entries@[i as int].1,
                None => !self@.contains_key(key@),
            },
    {
        let n = self.entries.len();
        let mut i: usize = 0;
        while i < n
            invariant
                self.wf(),
                n == self.entries.len(),
                i <= n,
                forall|j: int| 0 <= j < i ==> (#[trigger] self.entries[j].0)@ != key@,
            decreases n - i,
        {
            if crate::types::str_eq(self.entries[i].0.as_str(), key) {
                proof {
                    lemma_entries_map_lookup(self.entries@, i as int);
                }
                return Some(i);
            }
            i += 1;
        }
        proof {
            lemma_entries_map_absent(self.entries@, key@);
        }
        None
    }

    /// The payload stored under this key, if any: exactly the last value
    /// written and not yet evicted.
    pub fn get_json(&self, key: &str) -> (r: Option<&CachedValue>)
        requires
            self.wf(),
        ensures
            match r {
                Some(v) => self@.contains_key(key@) && *v == self@[key@],
                None => !self@.contains_key(key@),
            },
    {
        match self.find_index(key) {
            Some(i) => Some(&self.entries[i].1),
            None => None,
        }
    }

    /// Stores a payload under a key, replacing any prior value wholesale.
    pub fn set_json(&mut self, key: &str, value: CachedValue) -> (r: ())
        requires
            old(self).wf(),
        ensures
            final(self).wf(),
            final(self)@ == old(self)@.insert(key@, value),
    {
        let ghost e0 = self.entries@;
        match self.find_index(key) {
            Some(i) => {
                let pair = (key.to_owned(), value);
                let ghost p = pair;
                self.entries.set(i, pair);
                proof {
                    lemma_entries_map_update(e0, i as int, p);
                    assert forall|a: int, b: int|
                        0 <= a < b < self.entries@.len() implies (#[trigger] self.entries@[a].0)@
                        != (#[trigger] self.entries@[b].0)@ by {
                        assert(e0[a].0@ != e0[b].0@);
                    }
                }
            },
            None => {
                let pair = (key.to_owned(), value);
                let ghost p = pair;
                self.entries.push(pair);
                proof {
                    assert(self.entries@.drop_last() =~= e0);
                    assert(self@ == entries_map(e0).insert(p.0@, p.1));
                    assert forall|a: int, b: int|
                        0 <= a < b < self.entries@.len() implies (#[trigger] self.entries@[a].0)@
                        != (#[trigger] self.entries@[b].0)@ by {
                        if b < e0.len() {
                            assert(e0[a].0@ != e0[b].0@);
                        } else {
                            assert(self.entries@[b] == p);
                            lemma_entries_map_lookup(e0, a);
                        }
                    }
                }
            },
        }
    }

    /// Removes the entry under a key (the eviction path for a corrupt
    /// payload); returns whether an entry was removed.
    pub fn evict(&mut self, key: &str) -> (r: bool)
        requires
            old(self).wf(),
        ensures
            final(self).wf(),
            final(self)@ == old(self)@.remove(key@),
            r == old(self)@.contains_key(key@),
    {
        let ghost e0 = self.entries@;
        match self.find_index(key) {
            Some(i) => {
                self.entries.remove(i);
                proof {
                    lemma_entries_map_remove(e0, i as int);
                    assert(e0[i as int].0@ == key@);
                    assert forall|a: int, b: int|
                        0 <= a < b < self.entries@.len() implies (#[trigger] self.entries@[a].0)@
                        != (#[trigger] self.entries@[b].0)@ by {
                        let ra = if a < i as int {
                            a
                        } else {
                            a + 1
                        };
                        let rb = if b < i as int {
                            b
                        } else {
                            b + 1
                        };
                        assert(self.entries@[a] == e0[ra]);
                        assert(self.entries@[b] == e0[rb]);
                        assert(e0[ra].0@ != e0[rb].0@);
                    }
                }
                true
            },
            None => {
                proof {
                    assert(self@ =~= entries_map(e0).remove(key@));
                }
                false
            },
        }
    }
}

/// Cache-aside idempotence: a read immediately after a write to the same
/// key observes exactly the written payload. Two consecutive reads without
/// an intervening write observe the same map, and the read contract is a
/// function of that map alone, so they return the same value.
pub proof fn lemma_cache_aside_idempotence(
    m: Map<Seq<char>, CachedValue>,
    k: Seq<char>,
    v: CachedValue,
)
    ensures
        m.insert(k, v).contains_key(k),
        m.insert(k, v)[k] == v,
{
}

} // verus!
