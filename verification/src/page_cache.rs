//! The per-worker in-memory cache of rendered pages, with least-recently-used
//! eviction.
//!
//! The cache is a sequence of `(key, page)` entries ordered from the least to
//! the most recently used, with no key twice and never more entries than the
//! cache's capacity.

use vstd::prelude::*;
use crate::text::str_eq;
use crate::entries::{has_key, key_pos, keys_distinct, key_set, remove_key, lookup, string_entries_view, lemma_view_remove, lemma_view_push, lemma_view_skip, lemma_distinct_remove, lemma_distinct_push, lemma_distinct_skip, lemma_key_pos_unique};

verus! {

/// The entries after a lookup of `k`: its entry, if any, becomes the most
/// recently used.
pub open spec fn spec_touch<P>(s: Seq<(Seq<char>, P)>, k: Seq<char>) -> Seq<(Seq<char>, P)> {
    if has_key(s, k) {
        s.remove(key_pos(s, k)).push(s[key_pos(s, k)])
    } else {
        s
    }
}

/// Keeps the `max` most recently used entries of `t`.
pub open spec fn keep_newest<P>(t: Seq<(Seq<char>, P)>, max: nat) -> Seq<(Seq<char>, P)> {
    if t.len() > max {
        t.skip(t.len() - max)
    } else {
        t
    }
}

/// The entries after storing `page` under `k` in a cache of capacity `max`:
/// any old entry of `k` goes, the new one becomes the most recently used,
/// and the least recently used entries are evicted down to the capacity.
pub open spec fn spec_put<P>(s: Seq<(Seq<char>, P)>, max: nat, k: Seq<char>, page: P) -> Seq<(Seq<char>, P)> {
    keep_newest(remove_key(s, k).push((k, page)), max)
}

/// A bounded cache of rendered pages keyed by strings, evicting the least
/// recently used page first.
pub struct MemoryPageCache<P> {
    entries: Vec<(String, P)>,
    max_entries: usize,
}

impl<P> MemoryPageCache<P> {
    /// The entries, least recently used first.
    pub closed spec fn entries_view(&self) -> Seq<(Seq<char>, P)> {
        string_entries_view(self.entries@)
    }

    /// The most entries the cache keeps.
    pub closed spec fn capacity(&self) -> nat {
        self.max_entries as nat
    }

    #[verifier::type_invariant]
    spec fn inv(&self) -> bool {
        &&& keys_distinct(self.entries_view())
        &&& self.entries@.len() <= self.max_entries
    }

    /// An empty cache that keeps at most `max_entries` pages.
    pub fn new(max_entries: usize) -> (r: Self)
        ensures
            r.entries_view() == Seq::<(Seq<char>, P)>::empty(),
            r.capacity() == max_entries,
    {
        let r = MemoryPageCache { entries: Vec::new(), max_entries };
        assert(r.entries_view() =~= Seq::<(Seq<char>, P)>::empty());
        r
    }

    fn find(entries: &Vec<(String, P)>, key: &str) -> (r: Option<usize>)
        ensures
            match r {
                Some(i) => i < entries@.len() && entries@[i as int].0@ == key@,
                None => forall|i: int| 0 <= i < entries@.len() ==> (#[trigger] entries@[i]).0@ != key@,
            },
    {
        let mut i: usize = 0;
        while i < entries.len()
            invariant
                i <= entries@.len(),
                forall|j: int| 0 <= j < i ==> (#[trigger] entries@[j]).0@ != key@,
            decreases entries@.len() - i,
        {
            if str_eq(entries[i].0.as_str(), key) {
                return Some(i);
            }
            i = i + 1;
        }
        None
    }
}

impl<P: Clone> MemoryPageCache<P> {
    /// Looks up the page stored under `key`. A hit makes that entry the most
    /// recently used and gives back a clone of its page; a miss changes
    /// nothing.
    pub fn get(&mut self, key: &str) -> (r: Option<P>)
        ensures
            final(self).capacity() == old(self).capacity(),
            final(self).entries_view() == spec_touch(old(self).entries_view(), key@),
            match r {
                Some(p) => has_key(old(self).entries_view(), key@) && cloned(
                    lookup(old(self).entries_view(), key@).unwrap(),
                    p,
                ),
                None => !has_key(old(self).entries_view(), key@),
            },
            keys_distinct(final(self).entries_view()),
            final(self).entries_view().len() <= final(self).capacity(),
            forall|i: int| 0 <= i < old(self).entries_view().len() && (#[trigger] old(self).entries_view()[i]).0 == key@
                ==> final(self).entries_view() == old(self).entries_view().remove(i).push(old(self).entries_view()[i])
                && r is Some && cloned(old(self).entries_view()[i].1, r.unwrap()),
            (forall|i: int| 0 <= i < old(self).entries_view().len() ==> (#[trigger] old(self).entries_view()[i]).0 != key@)
                ==> final(self).entries_view() == old(self).entries_view() && r is None,
    {
        proof {
            use_type_invariant(&*self);
        }
        let ghost ev = self.entries_view();
        proof {
            assert forall|i: int| 0 <= i < ev.len() && (#[trigger] ev[i]).0 == key@ implies spec_touch(ev, key@) == ev.remove(i).push(ev[i])
                && lookup(ev, key@) == Some(ev[i].1) by {
                lemma_touch_moves_to_most_recent(ev, key@, i);
                lemma_key_pos_unique(ev, i);
            }
        }
        match Self::find(&self.entries, key) {
            None => {
                proof {
                    if has_key(ev, key@) {
                        let j = choose|j: int| 0 <= j < ev.len() && (#[trigger] ev[j]).0 == key@;
                        assert(ev[j].0 == self.entries@[j].0@);
                    }
                }
                None
            },
            Some(i) => {
                proof {
                    assert(ev[i as int].0 == key@);
                    lemma_key_pos_unique(ev, i as int);
                    lemma_distinct_remove(ev, i as int);
                    lemma_distinct_push(ev.remove(i as int), ev[i as int]);
                }
                let page = self.entries[i].1.clone();
                let mut entries: Vec<(String, P)> = Vec::new();
                std::mem::swap(&mut entries, &mut self.entries);
                let ghost old_entries = entries@;
                let e = entries.remove(i);
                entries.push(e);
                proof {
                    lemma_view_remove(old_entries, i as int);
                    lemma_view_push(old_entries.remove(i as int), e);
                }
                self.entries = entries;
                Some(page)
            },
        }
    }

    /// Stores `page` under `key` as the most recently used entry, replacing
    /// an earlier page of that key, then evicts least recently used entries
    /// until the cache holds no more than its capacity.
    pub fn put(&mut self, key: String, page: P)
        ensures
            final(self).capacity() == old(self).capacity(),
            final(self).entries_view() == spec_put(
                old(self).entries_view(),
                old(self).capacity(),
                key@,
                page,
            ),
            keys_distinct(final(self).entries_view()),
            final(self).entries_view().len() <= final(self).capacity(),
            forall|i: int| 0 <= i < old(self).entries_view().len() && (#[trigger] old(self).entries_view()[i]).0 == key@
                ==> final(self).entries_view() == old(self).entries_view().remove(i).push((key@, page)),
            (forall|i: int| 0 <= i < old(self).entries_view().len() ==> (#[trigger] old(self).entries_view()[i]).0 != key@)
                && old(self).entries_view().len() < old(self).capacity()
                ==> final(self).entries_view() == old(self).entries_view().push((key@, page)),
            (forall|i: int| 0 <= i < old(self).entries_view().len() ==> (#[trigger] old(self).entries_view()[i]).0 != key@)
                && old(self).entries_view().len() == old(self).capacity() && old(self).capacity() > 0
                ==> final(self).entries_view() == old(self).entries_view().drop_first().push((key@, page)),
            old(self).capacity() == 0 ==> final(self).entries_view().len() == 0,
    {
        proof {
            use_type_invariant(&*self);
        }
        let ghost ev = self.entries_view();
        let ghost max = self.max_entries as nat;
        proof {
            assert forall|i: int| 0 <= i < ev.len() && (#[trigger] ev[i]).0 == key@ implies spec_put(ev, max, key@, page)
                == ev.remove(i).push((key@, page)) by {
                lemma_put_existing_key_keeps_order(ev, max, key@, page, i);
            }
            if forall|i: int| 0 <= i < ev.len() ==> (#[trigger] ev[i]).0 != key@ {
                if ev.len() < max {
                    lemma_put_new_key_with_room(ev, max, key@, page);
                } else if max > 0 {
                    lemma_put_new_key_when_full(ev, max, key@, page);
                }
            }
            lemma_put_within_capacity(ev, max, key@, page);
        }
        let mut entries: Vec<(String, P)> = Vec::new();
        std::mem::swap(&mut entries, &mut self.entries);
        assert(string_entries_view(entries@) == ev);
        match Self::find(&entries, key.as_str()) {
            Some(i) => {
                proof {
                    assert(ev[i as int].0 == key@);
                    lemma_key_pos_unique(ev, i as int);
                    lemma_distinct_remove(ev, i as int);
                    lemma_view_remove(entries@, i as int);
                }
                entries.remove(i);
            },
            None => {
                proof {
                    if has_key(ev, key@) {
                        let j = choose|j: int| 0 <= j < ev.len() && (#[trigger] ev[j]).0 == key@;
                        assert(ev[j].0 == entries@[j].0@);
                    }
                }
            },
        }
        assert(string_entries_view(entries@) == remove_key(ev, key@));
        let ghost before_push = entries@;
        entries.push((key, page));
        proof {
            lemma_view_push(before_push, (key, page));
            lemma_distinct_push(remove_key(ev, key@), (key@, page));
        }
        let ghost t = string_entries_view(entries@);
        assert(t == remove_key(ev, key@).push((key@, page)));
        let ghost full = entries@;
        let ghost mut d: int = 0;
        assert(full.skip(0) =~= full);
        while entries.len() > self.max_entries
            invariant
                self.max_entries == max,
                0 <= d <= full.len(),
                entries@ == full.skip(d),
                d > 0 ==> entries@.len() >= max,
                t == string_entries_view(full),
                keys_distinct(t),
                self.entries@.len() == 0,
            decreases entries@.len(),
        {
            entries.remove(0);
            proof {
                assert(entries@ =~= full.skip(d + 1));
                d = d + 1;
            }
        }
        proof {
            lemma_view_skip(full, d);
            lemma_distinct_skip(t, d);
            if d > 0 {
                assert(d == t.len() - max);
            }
        }
        self.entries = entries;
    }

    /// Empties the cache.
    pub fn clear(&mut self)
        ensures
            final(self).capacity() == old(self).capacity(),
            final(self).entries_view() == Seq::<(Seq<char>, P)>::empty(),
    {
        self.entries = Vec::new();
        assert(self.entries_view() =~= Seq::<(Seq<char>, P)>::empty());
    }
}

/// A cache never holds more pages than its capacity, and never two pages
/// under one key, whatever is stored in it.
pub proof fn lemma_put_within_capacity<P>(s: Seq<(Seq<char>, P)>, max: nat, k: Seq<char>, page: P)
    requires
        keys_distinct(s),
    ensures
        spec_put(s, max, k, page).len() <= max,
        keys_distinct(spec_put(s, max, k, page)),
{
    let r = remove_key(s, k);
    if has_key(s, k) {
        lemma_distinct_remove(s, key_pos(s, k));
    }
    lemma_distinct_push(r, (k, page));
    let t = r.push((k, page));
    if t.len() > max {
        lemma_distinct_skip(t, t.len() - max);
    }
}

/// Right after a page is stored under a key (in a cache that can hold a
/// page at all), that key is the most recently used and looking it up gives
/// the page just stored.
pub proof fn lemma_put_then_lookup<P>(s: Seq<(Seq<char>, P)>, max: nat, k: Seq<char>, page: P)
    requires
        keys_distinct(s),
        max > 0,
    ensures
        spec_put(s, max, k, page).last() == (k, page),
        lookup(spec_put(s, max, k, page), k) == Some(page),
{
    let r = remove_key(s, k);
    if has_key(s, k) {
        lemma_distinct_remove(s, key_pos(s, k));
    }
    lemma_distinct_push(r, (k, page));
    let t = r.push((k, page));
    let u = spec_put(s, max, k, page);
    lemma_put_within_capacity(s, max, k, page);
    assert(u.last() == (k, page));
    lemma_key_pos_unique(u, u.len() - 1);
}

/// Storing a new key in a full cache evicts exactly the least recently used
/// entry.
pub proof fn lemma_put_evicts_least_recent<P>(s: Seq<(Seq<char>, P)>, max: nat, k: Seq<char>, page: P)
    requires
        keys_distinct(s),
        s.len() == max,
        max > 0,
        !has_key(s, k),
    ensures
        spec_put(s, max, k, page) == s.drop_first().push((k, page)),
        !has_key(spec_put(s, max, k, page), s[0].0),
{
    let t = s.push((k, page));
    assert(t.skip(1) =~= s.drop_first().push((k, page)));
    lemma_distinct_remove(s, 0);
    assert(s.remove(0) =~= s.drop_first());
    lemma_distinct_push(s.drop_first(), (k, page));
    assert(k != s[0].0);
}

/// Storing a page under a key that the cache already holds evicts nothing:
/// the same keys stay.
pub proof fn lemma_put_existing_key_keeps_keys<P>(s: Seq<(Seq<char>, P)>, max: nat, k: Seq<char>, page: P)
    requires
        keys_distinct(s),
        s.len() <= max,
        has_key(s, k),
    ensures
        spec_put(s, max, k, page).len() == s.len(),
        key_set(spec_put(s, max, k, page)) == key_set(s),
{
    let i = key_pos(s, k);
    lemma_distinct_remove(s, i);
    lemma_distinct_push(s.remove(i), (k, page));
    assert(key_set(spec_put(s, max, k, page)) =~= key_set(s));
}

/// A lookup hit makes the key the most recently used and changes no page:
/// every key maps to the same page as before.
pub proof fn lemma_touch_keeps_pages<P>(s: Seq<(Seq<char>, P)>, k: Seq<char>, other: Seq<char>)
    requires
        keys_distinct(s),
        has_key(s, k),
    ensures
        spec_touch(s, k).len() == s.len(),
        spec_touch(s, k).last().0 == k,
        keys_distinct(spec_touch(s, k)),
        lookup(spec_touch(s, k), other) == lookup(s, other),
{
    let i = key_pos(s, k);
    lemma_distinct_remove(s, i);
    lemma_distinct_push(s.remove(i), s[i]);
    let u = spec_touch(s, k);
    if other == k {
        lemma_key_pos_unique(u, u.len() - 1);
    } else if has_key(s, other) {
        let j = key_pos(s, other);
        lemma_key_pos_unique(s, j);
        let j2 = if j < i { j } else { j - 1 };
        assert(u[j2] == s[j]);
        lemma_key_pos_unique(u, j2);
    }
}

/// Storing under a key the cache already holds (within capacity): that
/// key's old entry is taken out, every other entry keeps its place in the
/// least-to-most-recently-used order, and the new entry is the most recent.
pub proof fn lemma_put_existing_key_keeps_order<P>(s: Seq<(Seq<char>, P)>, max: nat, k: Seq<char>, page: P, i: int)
    requires
        keys_distinct(s),
        s.len() <= max,
        0 <= i < s.len(),
        s[i].0 == k,
    ensures
        spec_put(s, max, k, page) == s.remove(i).push((k, page)),
{
    lemma_key_pos_unique(s, i);
}

/// Storing under a new key while there is room appends the entry as the
/// most recent and evicts nothing.
pub proof fn lemma_put_new_key_with_room<P>(s: Seq<(Seq<char>, P)>, max: nat, k: Seq<char>, page: P)
    requires
        forall|i: int| 0 <= i < s.len() ==> (#[trigger] s[i]).0 != k,
        s.len() < max,
    ensures
        spec_put(s, max, k, page) == s.push((k, page)),
{
}

/// Storing under a new key in a full cache drops the least recently used
/// entry (the first) and appends the new one as the most recent.
pub proof fn lemma_put_new_key_when_full<P>(s: Seq<(Seq<char>, P)>, max: nat, k: Seq<char>, page: P)
    requires
        forall|i: int| 0 <= i < s.len() ==> (#[trigger] s[i]).0 != k,
        s.len() == max,
        max > 0,
    ensures
        spec_put(s, max, k, page) == s.drop_first().push((k, page)),
{
    assert(s.push((k, page)).skip(1) =~= s.drop_first().push((k, page)));
}

/// A lookup hit moves the entry found to the most recent place and keeps
/// the order of all the others; a miss changes nothing.
pub proof fn lemma_touch_moves_to_most_recent<P>(s: Seq<(Seq<char>, P)>, k: Seq<char>, i: int)
    requires
        keys_distinct(s),
        0 <= i < s.len(),
        s[i].0 == k,
    ensures
        spec_touch(s, k) == s.remove(i).push(s[i]),
{
    lemma_key_pos_unique(s, i);
}

/// A lookup of a key the cache does not hold changes nothing.
pub proof fn lemma_touch_miss_changes_nothing<P>(s: Seq<(Seq<char>, P)>, k: Seq<char>)
    requires
        forall|i: int| 0 <= i < s.len() ==> (#[trigger] s[i]).0 != k,
    ensures
        spec_touch(s, k) == s,
        lookup(s, k) is None,
{
}

} // verus!
