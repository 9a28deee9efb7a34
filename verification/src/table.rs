//! A small map from strings to values, kept as a vector of entries with
//! distinct keys: the session tables of the workers and of the pool.

use vstd::prelude::*;
use crate::text::str_eq;
use crate::entries::{has_key, keys_distinct, key_pos, lookup, string_entries_view, entries_map, lemma_view_remove, lemma_view_push, lemma_map_remove, lemma_map_push, lemma_key_pos_unique};

verus! {

/// A map from strings to values.
pub struct StringTable<V> {
    entries: Vec<(String, V)>,
}

impl<V> View for StringTable<V> {
    type V = Map<Seq<char>, V>;

    closed spec fn view(&self) -> Map<Seq<char>, V> {
        entries_map(string_entries_view(self.entries@))
    }
}

impl<V> StringTable<V> {
    #[verifier::type_invariant]
    spec fn inv(&self) -> bool {
        keys_distinct(string_entries_view(self.entries@))
    }

    /// An empty table.
    pub fn new() -> (r: Self)
        ensures
            r@ == Map::<Seq<char>, V>::empty(),
    {
        let r = StringTable { entries: Vec::new() };
        assert(r@ =~= Map::<Seq<char>, V>::empty());
        r
    }

    fn find(&self, key: &str) -> (r: Option<usize>)
        ensures
            match r {
                Some(i) => i < self.entries@.len() && self.entries@[i as int].0@ == key@,
                None => !self@.contains_key(key@),
            },
    {
        let ghost ev = string_entries_view(self.entries@);
        let mut i: usize = 0;
        while i < self.entries.len()
            invariant
                i <= self.entries@.len(),
                ev == string_entries_view(self.entries@),
                forall|j: int| 0 <= j < i ==> (#[trigger] self.entries@[j]).0@ != key@,
            decreases self.entries@.len() - i,
        {
            if str_eq(self.entries[i].0.as_str(), key) {
                return Some(i);
            }
            i = i + 1;
        }
        proof {
            if has_key(ev, key@) {
                let j = choose|j: int| 0 <= j < ev.len() && (#[trigger] ev[j]).0 == key@;
                assert(ev[j].0 == self.entries@[j].0@);
            }
        }
        None
    }

    /// The value stored under `key`, if any.
    pub fn get(&self, key: &str) -> (r: Option<&V>)
        ensures
            match r {
                Some(v) => self@.contains_key(key@) && *v == self@[key@],
                None => !self@.contains_key(key@),
            },
    {
        proof {
            use_type_invariant(self);
        }
        match self.find(key) {
            Some(i) => {
                proof {
                    let ev = string_entries_view(self.entries@);
                    assert(ev[i as int].0 == key@);
                    lemma_key_pos_unique(ev, i as int);
                }
                Some(&self.entries[i].1)
            },
            None => None,
        }
    }

    /// Stores `value` under `key`, replacing what was stored there.
    pub fn insert(&mut self, key: String, value: V)
        ensures
            final(self)@ == old(self)@.insert(key@, value),
    {
        proof {
            use_type_invariant(&*self);
        }
        let ghost ev = string_entries_view(self.entries@);
        let found = self.find(key.as_str());
        let mut entries: Vec<(String, V)> = Vec::new();
        std::mem::swap(&mut entries, &mut self.entries);
        match found {
            Some(i) => {
                proof {
                    assert(ev[i as int].0 == key@);
                    lemma_map_remove(ev, i as int);
                    lemma_view_remove(entries@, i as int);
                    crate::entries::lemma_distinct_remove(ev, i as int);
                }
                entries.remove(i);
            },
            None => {
                proof {
                    assert(!has_key(ev, key@));
                }
            },
        }
        let ghost mid = string_entries_view(entries@);
        assert(entries_map(mid) == entries_map(ev).remove(key@));
        assert(!has_key(mid, key@));
        let ghost before = entries@;
        proof {
            lemma_map_push(mid, (key@, value));
            lemma_view_push(before, (key, value));
        }
        entries.push((key, value));
        self.entries = entries;
        assert(self@ =~= old(self)@.insert(key@, value));
    }

    /// Takes the value stored under `key` out of the table, if there is one.
    pub fn remove(&mut self, key: &str) -> (r: Option<V>)
        ensures
            final(self)@ == old(self)@.remove(key@),
            match r {
                Some(v) => old(self)@.contains_key(key@) && v == old(self)@[key@],
                None => !old(self)@.contains_key(key@),
            },
    {
        proof {
            use_type_invariant(&*self);
        }
        let ghost ev = string_entries_view(self.entries@);
        match self.find(key) {
            Some(i) => {
                proof {
                    assert(ev[i as int].0 == key@);
                    lemma_key_pos_unique(ev, i as int);
                    lemma_map_remove(ev, i as int);
                    lemma_view_remove(self.entries@, i as int);
                    crate::entries::lemma_distinct_remove(ev, i as int);
                }
                let mut entries: Vec<(String, V)> = Vec::new();
                std::mem::swap(&mut entries, &mut self.entries);
                let e = entries.remove(i);
                self.entries = entries;
                Some(e.1)
            },
            None => {
                assert(old(self)@.remove(key@) =~= old(self)@);
                None
            },
        }
    }
}

} // verus!
