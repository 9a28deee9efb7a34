//! Sequences of `(key, value)` entries keyed by strings: the facts about
//! them that the caches and session tables rest on.

use vstd::prelude::*;

verus! {

/// Whether some entry of `s` has the key `k`.
pub open spec fn has_key<P>(s: Seq<(Seq<char>, P)>, k: Seq<char>) -> bool {
    exists|i: int| 0 <= i < s.len() && (#[trigger] s[i]).0 == k
}

/// The position of the entry with key `k` (meaningful when `has_key(s, k)`).
pub open spec fn key_pos<P>(s: Seq<(Seq<char>, P)>, k: Seq<char>) -> int {
    choose|i: int| 0 <= i < s.len() && (#[trigger] s[i]).0 == k
}

/// No key occurs twice in `s`.
pub open spec fn keys_distinct<P>(s: Seq<(Seq<char>, P)>) -> bool {
    forall|i: int, j: int| 0 <= i < s.len() && 0 <= j < s.len() && i != j ==> (#[trigger] s[i]).0 != (#[trigger] s[j]).0
}

/// The set of keys of `s`.
pub open spec fn key_set<P>(s: Seq<(Seq<char>, P)>) -> Set<Seq<char>> {
    Set::new(|k: Seq<char>| has_key(s, k))
}

/// `s` without the entry of key `k`, if it has one.
pub open spec fn remove_key<P>(s: Seq<(Seq<char>, P)>, k: Seq<char>) -> Seq<(Seq<char>, P)> {
    if has_key(s, k) {
        s.remove(key_pos(s, k))
    } else {
        s
    }
}

/// The value stored under `k`, if any.
pub open spec fn lookup<P>(s: Seq<(Seq<char>, P)>, k: Seq<char>) -> Option<P> {
    if has_key(s, k) {
        Some(s[key_pos(s, k)].1)
    } else {
        None
    }
}

/// The entries of a vector of `(String, page)` pairs, keys taken by view.
pub open spec fn string_entries_view<P>(s: Seq<(String, P)>) -> Seq<(Seq<char>, P)> {
    s.map_values(|e: (String, P)| (e.0@, e.1))
}

/// Removing an entry commutes with taking the keys by view.
pub proof fn lemma_view_remove<P>(s: Seq<(String, P)>, i: int)
    requires
        0 <= i < s.len(),
    ensures
        string_entries_view(s.remove(i)) == string_entries_view(s).remove(i),
{
    assert(string_entries_view(s.remove(i)) =~= string_entries_view(s).remove(i));
}

/// Appending an entry commutes with taking the keys by view.
pub proof fn lemma_view_push<P>(s: Seq<(String, P)>, e: (String, P))
    ensures
        string_entries_view(s.push(e)) == string_entries_view(s).push((e.0@, e.1)),
{
    assert(string_entries_view(s.push(e)) =~= string_entries_view(s).push((e.0@, e.1)));
}

/// Dropping a prefix commutes with taking the keys by view.
pub proof fn lemma_view_skip<P>(s: Seq<(String, P)>, n: int)
    requires
        0 <= n <= s.len(),
    ensures
        string_entries_view(s.skip(n)) == string_entries_view(s).skip(n),
{
    assert(string_entries_view(s.skip(n)) =~= string_entries_view(s).skip(n));
}

/// Removing an entry keeps the keys distinct, takes its key out and leaves
/// the other keys.
pub proof fn lemma_distinct_remove<P>(s: Seq<(Seq<char>, P)>, i: int)
    requires
        keys_distinct(s),
        0 <= i < s.len(),
    ensures
        keys_distinct(s.remove(i)),
        !has_key(s.remove(i), s[i].0),
        forall|k: Seq<char>| k != s[i].0 ==> (has_key(s.remove(i), k) == has_key(s, k)),
{
    let r = s.remove(i);
    assert forall|a: int, b: int| 0 <= a < r.len() && 0 <= b < r.len() && a != b implies (#[trigger] r[a]).0 != (#[trigger] r[b]).0 by {
        let a2 = if a < i { a } else { a + 1 };
        let b2 = if b < i { b } else { b + 1 };
        assert(r[a] == s[a2]);
        assert(r[b] == s[b2]);
    }
    if has_key(r, s[i].0) {
        let j = choose|j: int| 0 <= j < r.len() && (#[trigger] r[j]).0 == s[i].0;
        let j2 = if j < i { j } else { j + 1 };
        assert(r[j] == s[j2]);
    }
    assert forall|k: Seq<char>| k != s[i].0 implies (has_key(r, k) == has_key(s, k)) by {
        if has_key(s, k) {
            let j = choose|j: int| 0 <= j < s.len() && (#[trigger] s[j]).0 == k;
            let j2 = if j < i { j } else { j - 1 };
            assert(r[j2] == s[j]);
        }
        if has_key(r, k) {
            let j = choose|j: int| 0 <= j < r.len() && (#[trigger] r[j]).0 == k;
            let j2 = if j < i { j } else { j + 1 };
            assert(r[j] == s[j2]);
        }
    }
}

/// Appending an entry with a new key keeps the keys distinct and adds just
/// that key.
pub proof fn lemma_distinct_push<P>(s: Seq<(Seq<char>, P)>, e: (Seq<char>, P))
    requires
        keys_distinct(s),
        !has_key(s, e.0),
    ensures
        keys_distinct(s.push(e)),
        has_key(s.push(e), e.0),
        forall|k: Seq<char>| k != e.0 ==> (has_key(s.push(e), k) == has_key(s, k)),
{
    let t = s.push(e);
    assert(t[s.len() as int] == e);
    assert forall|a: int, b: int| 0 <= a < t.len() && 0 <= b < t.len() && a != b implies (#[trigger] t[a]).0 != (#[trigger] t[b]).0 by {
        if a < s.len() && b < s.len() {
            assert(t[a] == s[a] && t[b] == s[b]);
        } else if a < s.len() {
            assert(t[a] == s[a]);
        } else {
            assert(t[b] == s[b]);
        }
    }
    assert forall|k: Seq<char>| k != e.0 implies (has_key(t, k) == has_key(s, k)) by {
        if has_key(s, k) {
            let j = choose|j: int| 0 <= j < s.len() && (#[trigger] s[j]).0 == k;
            assert(t[j] == s[j]);
        }
        if has_key(t, k) {
            let j = choose|j: int| 0 <= j < t.len() && (#[trigger] t[j]).0 == k;
            assert(t[j] == s[j]);
        }
    }
}

/// Dropping a prefix keeps the keys distinct.
pub proof fn lemma_distinct_skip<P>(s: Seq<(Seq<char>, P)>, n: int)
    requires
        keys_distinct(s),
        0 <= n <= s.len(),
    ensures
        keys_distinct(s.skip(n)),
{
    let r = s.skip(n);
    assert forall|a: int, b: int| 0 <= a < r.len() && 0 <= b < r.len() && a != b implies (#[trigger] r[a]).0 != (#[trigger] r[b]).0 by {
        assert(r[a] == s[a + n] && r[b] == s[b + n]);
    }
}

/// In a sequence without repeated keys, the entry of key `k` is the one at
/// any position that holds `k`.
pub proof fn lemma_key_pos_unique<P>(s: Seq<(Seq<char>, P)>, i: int)
    requires
        keys_distinct(s),
        0 <= i < s.len(),
    ensures
        has_key(s, s[i].0),
        key_pos(s, s[i].0) == i,
{
    assert(s[i].0 == s[i].0);
    let j = key_pos(s, s[i].0);
    assert(0 <= j < s.len() && s[j].0 == s[i].0);
}

/// The map that a sequence of entries with distinct keys stands for.
pub open spec fn entries_map<P>(s: Seq<(Seq<char>, P)>) -> Map<Seq<char>, P> {
    Map::new(|k: Seq<char>| has_key(s, k), |k: Seq<char>| lookup(s, k).unwrap())
}

/// Removing an entry removes its key from the map the entries stand for.
pub proof fn lemma_map_remove<P>(s: Seq<(Seq<char>, P)>, i: int)
    requires
        keys_distinct(s),
        0 <= i < s.len(),
    ensures
        entries_map(s.remove(i)) == entries_map(s).remove(s[i].0),
{
    lemma_distinct_remove(s, i);
    let r = s.remove(i);
    assert forall|k: Seq<char>| k != s[i].0 && has_key(s, k) implies lookup(r, k) == lookup(s, k) by {
        let j = key_pos(s, k);
        lemma_key_pos_unique(s, j);
        let j2 = if j < i { j } else { j - 1 };
        assert(r[j2] == s[j]);
        lemma_key_pos_unique(r, j2);
    }
    assert(entries_map(r) =~= entries_map(s).remove(s[i].0));
}

/// Appending an entry with a new key inserts it into the map the entries
/// stand for.
pub proof fn lemma_map_push<P>(s: Seq<(Seq<char>, P)>, e: (Seq<char>, P))
    requires
        keys_distinct(s),
        !has_key(s, e.0),
    ensures
        entries_map(s.push(e)) == entries_map(s).insert(e.0, e.1),
        keys_distinct(s.push(e)),
{
    lemma_distinct_push(s, e);
    let t = s.push(e);
    assert forall|k: Seq<char>| k != e.0 && has_key(s, k) implies lookup(t, k) == lookup(s, k) by {
        let j = key_pos(s, k);
        lemma_key_pos_unique(s, j);
        assert(t[j] == s[j]);
        lemma_key_pos_unique(t, j);
    }
    assert(t[s.len() as int] == e);
    lemma_key_pos_unique(t, s.len() as int);
    assert(entries_map(t) =~= entries_map(s).insert(e.0, e.1));
}

} // verus!
