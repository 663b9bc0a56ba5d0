//! A small string-keyed map with last-write-wins insertion.
//!
//! Both the vote books of the round state and the peer registry need a map
//! from one string to another in which a repeated key overwrites the earlier
//! entry.  `StrMap` keeps the entries in a vector with pairwise-distinct keys
//! and is viewed as a `Map<Seq<char>, Seq<char>>`.

use vstd::prelude::*;

verus! {

/// The mathematical contents of an entry list: later entries win.
pub open spec fn entries_as_map(entries: Seq<(String, String)>) -> Map<Seq<char>, Seq<char>>
    decreases entries.len(),
{
    if entries.len() == 0 {
        Map::empty()
    } else {
        entries_as_map(entries.drop_last()).insert(entries.last().0@, entries.last().1@)
    }
}

/// True when no two entries share a key.
pub open spec fn keys_distinct(entries: Seq<(String, String)>) -> bool {
    forall|i: int, j: int| 0 <= i < j < entries.len() ==> entries[i].0@ != entries[j].0@
}

/// A map from strings to strings; inserting an existing key replaces its
/// value, so the map never holds two entries for one key.
#[derive(Debug)]
pub struct StrMap {
    entries: Vec<(String, String)>,
}

proof fn lemma_as_map_contains(entries: Seq<(String, String)>, k: Seq<char>)
    ensures
        entries_as_map(entries).contains_key(k) <==> exists|i: int|
            0 <= i < entries.len() && entries[i].0@ == k,
    decreases entries.len(),
{
    if entries.len() > 0 {
        lemma_as_map_contains(entries.drop_last(), k);
        if entries_as_map(entries).contains_key(k) && entries.last().0@ != k {
            let i = choose|i: int| 0 <= i < entries.len() - 1 && entries.drop_last()[i].0@ == k;
            assert(entries[i].0@ == k);
        }
        if exists|i: int| 0 <= i < entries.len() && entries[i].0@ == k {
            let i = choose|i: int| 0 <= i < entries.len() && entries[i].0@ == k;
            if i < entries.len() - 1 {
                assert(entries.drop_last()[i].0@ == k);
            }
        }
    }
}

proof fn lemma_as_map_index(entries: Seq<(String, String)>, i: int)
    requires
        keys_distinct(entries),
        0 <= i < entries.len(),
    ensures
        entries_as_map(entries).contains_key(entries[i].0@),
        entries_as_map(entries)[entries[i].0@] == entries[i].1@,
    decreases entries.len(),
{
    if i == entries.len() - 1 {
        lemma_as_map_contains(entries, entries[i].0@);
    } else {
        lemma_as_map_index(entries.drop_last(), i);
        assert(entries.drop_last()[i] == entries[i]);
    }
}

proof fn lemma_as_map_len(entries: Seq<(String, String)>)
    requires
        keys_distinct(entries),
    ensures
        entries_as_map(entries).dom().finite(),
        entries_as_map(entries).len() == entries.len(),
    decreases entries.len(),
{
    if entries.len() > 0 {
        lemma_as_map_len(entries.drop_last());
        lemma_as_map_contains(entries.drop_last(), entries.last().0@);
    }
}

proof fn lemma_as_map_update(entries: Seq<(String, String)>, i: int, kv: (String, String))
    requires
        keys_distinct(entries),
        0 <= i < entries.len(),
        entries[i].0@ == kv.0@,
    ensures
        entries_as_map(entries.update(i, kv)) == entries_as_map(entries).insert(kv.0@, kv.1@),
    decreases entries.len(),
{
    let updated = entries.update(i, kv);
    if i == entries.len() - 1 {
        assert(updated.drop_last() =~= entries.drop_last());
        assert(entries_as_map(updated) =~= entries_as_map(entries).insert(kv.0@, kv.1@));
    } else {
        assert(updated.drop_last() =~= entries.drop_last().update(i, kv));
        lemma_as_map_update(entries.drop_last(), i, kv);
        assert(updated.last() == entries.last());
        assert(entries_as_map(updated) =~= entries_as_map(entries).insert(kv.0@, kv.1@));
    }
}

impl View for StrMap {
    type V = Map<Seq<char>, Seq<char>>;

    closed spec fn view(&self) -> Map<Seq<char>, Seq<char>> {
        entries_as_map(self.entries@)
    }
}

impl StrMap {
    /// The internal entry list never repeats a key.
    pub closed spec fn wf(&self) -> bool {
        keys_distinct(self.entries@)
    }

    /// The entries as a sequence of key/value views, for contracts that need
    /// the stored order.
    pub closed spec fn pairs(&self) -> Seq<(Seq<char>, Seq<char>)> {
        self.entries@.map_values(|e: (String, String)| (e.0@, e.1@))
    }

    /// Each stored pair is one entry of the map, and the keys are distinct.
    pub proof fn lemma_pairs(&self)
        requires
            self.wf(),
        ensures
            self.pairs().len() == self@.len(),
            forall|i: int| 0 <= i < self.pairs().len() ==> self@.contains_key(
                #[trigger] self.pairs()[i].0,
            ) && self@[self.pairs()[i].0] == self.pairs()[i].1,
            forall|i: int, j: int| 0 <= i < j < self.pairs().len() ==> self.pairs()[i].0
                != self.pairs()[j].0,
            forall|k: Seq<char>| self@.contains_key(k) ==> exists|i: int|
                0 <= i < self.pairs().len() && #[trigger] self.pairs()[i].0 == k,
    {
        lemma_as_map_len(self.entries@);
        assert forall|i: int| 0 <= i < self.pairs().len() implies self@.contains_key(
            #[trigger] self.pairs()[i].0,
        ) && self@[self.pairs()[i].0] == self.pairs()[i].1 by {
            lemma_as_map_index(self.entries@, i);
        }
        assert forall|k: Seq<char>| self@.contains_key(k) implies exists|i: int|
            0 <= i < self.pairs().len() && #[trigger] self.pairs()[i].0 == k by {
            lemma_as_map_contains(self.entries@, k);
            let i = choose|i: int| 0 <= i < self.entries@.len() && self.entries@[i].0@ == k;
            assert(self.pairs()[i].0 == k);
        }
    }

    /// Creates an empty map.
    pub fn new() -> (r: Self)
        ensures
            r@ == Map::<Seq<char>, Seq<char>>::empty(),
            r.wf(),
    {
        let r = Self { entries: Vec::new() };
        proof {
            assert(r@ =~= Map::<Seq<char>, Seq<char>>::empty());
        }
        r
    }

    /// Inserts `value` under `key`; an entry already stored under `key` is
    /// overwritten, never kept alongside the new one.
    pub fn insert(&mut self, key: String, value: String)
        requires
            old(self).wf(),
        ensures
            final(self)@ == old(self)@.insert(key@, value@),
            final(self).wf(),
    {
        let n = self.entries.len();
        let mut i: usize = 0;
        while i < n
            invariant
                *self == *old(self),
                self.wf(),
                n == self.entries@.len(),
                0 <= i <= n,
                forall|k: int| 0 <= k < i ==> self.entries@[k].0@ != key@,
            decreases n - i,
        {
            if self.entries[i].0 == key {
                proof {
                    lemma_as_map_update(self.entries@, i as int, (key, value));
                }
                self.entries.set(i, (key, value));
                assert(self.wf());
                return ;
            }
            i = i + 1;
        }
        self.entries.push((key, value));
        proof {
            assert(self.entries@.drop_last() =~= old(self).entries@);
        }
    }

    /// Returns the value stored under `key`, if any.
    pub fn get(&self, key: &str) -> (r: Option<&String>)
        requires
            self.wf(),
        ensures
            match r {
                Some(v) => self@.contains_key(key@) && self@[key@] == v@,
                None => !self@.contains_key(key@),
            },
    {
        let wanted = String::from_str(key);
        let n = self.entries.len();
        let mut i: usize = 0;
        while i < n
            invariant
                n == self.entries@.len(),
                0 <= i <= n,
                self.wf(),
                wanted@ == key@,
                forall|k: int| 0 <= k < i ==> self.entries@[k].0@ != key@,
            decreases n - i,
        {
            if self.entries[i].0 == wanted {
                proof {
                    lemma_as_map_index(self.entries@, i as int);
                }
                return Some(&self.entries[i].1);
            }
            i = i + 1;
        }
        proof {
            lemma_as_map_contains(self.entries@, key@);
        }
        None
    }

    /// Returns the number of keys held.
    pub fn len(&self) -> (r: usize)
        requires
            self.wf(),
        ensures
            r == self@.len(),
    {
        proof {
            lemma_as_map_len(self.entries@);
        }
        self.entries.len()
    }

    /// Removes every entry.
    pub fn clear(&mut self)
        ensures
            final(self)@ == Map::<Seq<char>, Seq<char>>::empty(),
            final(self).wf(),
    {
        self.entries = Vec::new();
        proof {
            assert(self@ =~= Map::<Seq<char>, Seq<char>>::empty());
        }
    }

    /// Returns a copy of all entries as plain pairs, in stored order.
    pub fn to_pairs(&self) -> (r: Vec<(String, String)>)
        requires
            self.wf(),
        ensures
            r@.map_values(|e: (String, String)| (e.0@, e.1@)) == self.pairs(),
    {
        let n = self.entries.len();
        let mut out: Vec<(String, String)> = Vec::new();
        let mut i: usize = 0;
        while i < n
            invariant
                n == self.entries@.len(),
                0 <= i <= n,
                out@.len() == i,
                forall|k: int| 0 <= k < i ==> #[trigger] out@[k].0@ == self.entries@[k].0@
                    && out@[k].1@ == self.entries@[k].1@,
            decreases n - i,
        {
            let key = self.entries[i].0.clone();
            let value = self.entries[i].1.clone();
            out.push((key, value));
            i = i + 1;
        }
        proof {
            assert(out@.map_values(|e: (String, String)| (e.0@, e.1@)) =~= self.pairs());
        }
        out
    }
}

} // verus!
