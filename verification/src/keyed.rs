//! Finite maps keyed by strings, kept as vectors of `(key, value)`
//! entries. A key's value is that of its first entry.

use vstd::prelude::*;

verus! {

/// The value of `key` in `entries`: that of the first entry with that
/// key.
pub open spec fn lookup<T>(entries: Seq<(String, T)>, key: Seq<char>) -> Option<T>
    decreases entries.len(),
{
    if entries.len() == 0 {
        None
    } else if entries[0].0@ == key {
        Some(entries[0].1)
    } else {
        lookup(entries.drop_first(), key)
    }
}

/// The map that `entries` stand for.
pub open spec fn entries_map<T>(entries: Seq<(String, T)>) -> Map<Seq<char>, T> {
    Map::new(|k: Seq<char>| lookup(entries, k) is Some, |k: Seq<char>| lookup(entries, k)->0)
}

/// No key occurs in two entries.
pub open spec fn distinct_keys<T>(entries: Seq<(String, T)>) -> bool {
    forall|i: int, j: int|
        0 <= i < j < entries.len() ==> #[trigger] entries[i].0@ != #[trigger] entries[j].0@
}

pub proof fn lemma_lookup_skip<T>(s: Seq<(String, T)>, i: int, key: Seq<char>)
    requires
        0 <= i < s.len(),
        forall|j: int| 0 <= j < i ==> s[j].0@ != key,
    ensures
        lookup(s, key) == lookup(s.subrange(i, s.len() as int), key),
    decreases i,
{
    if i == 0 {
        assert(s.subrange(0, s.len() as int) =~= s);
    } else {
        let t = s.drop_first();
        assert(s[0].0@ != key);
        assert forall|j: int| 0 <= j < i - 1 implies t[j].0@ != key by {
            assert(t[j] == s[j + 1]);
        }
        lemma_lookup_skip(t, i - 1, key);
        assert(t.subrange(i - 1, t.len() as int) =~= s.subrange(i, s.len() as int));
    }
}

pub proof fn lemma_lookup_found<T>(s: Seq<(String, T)>, i: int, key: Seq<char>)
    requires
        0 <= i < s.len(),
        s[i].0@ == key,
        forall|j: int| 0 <= j < i ==> s[j].0@ != key,
    ensures
        lookup(s, key) == Some(s[i].1),
{
    lemma_lookup_skip(s, i, key);
    assert(s.subrange(i, s.len() as int)[0] == s[i]);
}

pub proof fn lemma_lookup_absent<T>(s: Seq<(String, T)>, key: Seq<char>)
    requires
        forall|j: int| 0 <= j < s.len() ==> s[j].0@ != key,
    ensures
        lookup(s, key) is None,
    decreases s.len(),
{
    if s.len() > 0 {
        let t = s.drop_first();
        assert forall|j: int| 0 <= j < t.len() implies t[j].0@ != key by {
            assert(t[j] == s[j + 1]);
        }
        lemma_lookup_absent(t, key);
    }
}

/// A key that `lookup` finds occurs in some entry, with that value.
pub proof fn lemma_lookup_some<T>(s: Seq<(String, T)>, key: Seq<char>)
    requires
        lookup(s, key) is Some,
    ensures
        exists|j: int| 0 <= j < s.len() && s[j].0@ == key && s[j].1 == lookup(s, key)->0,
    decreases s.len(),
{
    if s[0].0@ != key {
        let t = s.drop_first();
        lemma_lookup_some(t, key);
        let j = choose|j: int| 0 <= j < t.len() && t[j].0@ == key && t[j].1 == lookup(t, key)->0;
        assert(s[j + 1] == t[j]);
    } else {
        assert(s[0].0@ == key && s[0].1 == lookup(s, key)->0);
    }
}

pub proof fn lemma_lookup_update<T>(s: Seq<(String, T)>, i: int, e: (String, T), key: Seq<char>)
    requires
        0 <= i < s.len(),
        s[i].0@ == e.0@,
        forall|j: int| 0 <= j < i ==> s[j].0@ != e.0@,
    ensures
        key == e.0@ ==> lookup(s.update(i, e), key) == Some(e.1),
        key != e.0@ ==> lookup(s.update(i, e), key) == lookup(s, key),
    decreases s.len(),
{
    let u = s.update(i, e);
    if i == 0 {
        if key != e.0@ {
            assert(u.drop_first() =~= s.drop_first());
        }
    } else {
        let t = s.drop_first();
        assert(u.drop_first() =~= t.update(i - 1, e));
        assert forall|j: int| 0 <= j < i - 1 implies t[j].0@ != e.0@ by {
            assert(t[j] == s[j + 1]);
        }
        lemma_lookup_update(t, i - 1, e, key);
    }
}

pub proof fn lemma_lookup_push<T>(s: Seq<(String, T)>, e: (String, T), key: Seq<char>)
    requires
        forall|j: int| 0 <= j < s.len() ==> s[j].0@ != e.0@,
    ensures
        key == e.0@ ==> lookup(s.push(e), key) == Some(e.1),
        key != e.0@ ==> lookup(s.push(e), key) == lookup(s, key),
    decreases s.len(),
{
    let u = s.push(e);
    if s.len() == 0 {
        assert(u.drop_first() =~= s);
    } else {
        let t = s.drop_first();
        assert(u[0] == s[0]);
        assert(u.drop_first() =~= t.push(e));
        assert forall|j: int| 0 <= j < t.len() implies t[j].0@ != e.0@ by {
            assert(t[j] == s[j + 1]);
        }
        lemma_lookup_push(t, e, key);
    }
}

pub proof fn lemma_lookup_remove<T>(s: Seq<(String, T)>, i: int, key: Seq<char>)
    requires
        0 <= i < s.len(),
        key != s[i].0@,
    ensures
        lookup(s.remove(i), key) == lookup(s, key),
    decreases s.len(),
{
    let u = s.remove(i);
    if i == 0 {
        assert(u =~= s.drop_first());
    } else {
        let t = s.drop_first();
        assert(u[0] == s[0]);
        assert(u.drop_first() =~= t.remove(i - 1));
        lemma_lookup_remove(t, i - 1, key);
    }
}

/// Entries as a map after replacing what `lookup` gives for one key.
pub proof fn lemma_map_after<T>(after: Seq<(String, T)>, before: Seq<(String, T)>, k0: Seq<char>, v: Option<T>)
    requires
        forall|k: Seq<char>|
            #![trigger lookup(after, k)]
            lookup(after, k) == (if k == k0 {
                v
            } else {
                lookup(before, k)
            }),
    ensures
        v matches Some(x) ==> entries_map(after) == entries_map(before).insert(k0, x),
        v is None ==> entries_map(after) == entries_map(before).remove(k0),
{
    let m = entries_map(before);
    assert forall|k: Seq<char>| #[trigger] entries_map(after).contains_key(k) == (if k == k0 {
        v is Some
    } else {
        m.contains_key(k)
    }) by {
        assert(lookup(after, k) == lookup(after, k));
    }
    assert forall|k: Seq<char>| #[trigger] entries_map(after).contains_key(k) implies entries_map(
        after,
    )[k] == (if k == k0 {
        v->0
    } else {
        m[k]
    }) by {
        assert(lookup(after, k) == lookup(after, k));
    }
    if v is Some {
        assert(entries_map(after) =~= m.insert(k0, v->0));
    } else {
        assert(entries_map(after) =~= m.remove(k0));
    }
}

} // verus!
