//! Association lists keyed by text: the model behind dimension vectors, the
//! unit registry and the scope. Where a key occurs more than once, the
//! entry nearest the end is the one that counts.

use vstd::prelude::*;

verus! {

/// A piece of text, as the sequence of its characters.
pub type Text = Seq<char>;

/// The value bound to `key`: that of the last entry with this key.
pub open spec fn lookup<V>(s: Seq<(Text, V)>, key: Text) -> Option<V>
    decreases s.len(),
{
    if s.len() == 0 {
        None
    } else if s.last().0 == key {
        Some(s.last().1)
    } else {
        lookup(s.drop_last(), key)
    }
}

/// The list as a map from key to value.
pub open spec fn to_map<V>(s: Seq<(Text, V)>) -> Map<Text, V> {
    Map::new(|k: Text| lookup(s, k) is Some, |k: Text| lookup(s, k)->0)
}

/// No key occurs twice.
pub open spec fn distinct_keys<V>(s: Seq<(Text, V)>) -> bool {
    forall|i: int, j: int| 0 <= i < j < s.len() ==> (#[trigger] s[i]).0 != (#[trigger] s[j]).0
}

/// What a lookup finds after one more entry was appended.
pub proof fn lemma_lookup_push<V>(s: Seq<(Text, V)>, entry: (Text, V), key: Text)
    ensures
        lookup(s.push(entry), key) == if key == entry.0 {
            Some(entry.1)
        } else {
            lookup(s, key)
        },
{
    assert(s.push(entry).drop_last() =~= s);
}

/// A successful lookup is witnessed by an entry, and no entry after it has
/// the key.
pub proof fn lemma_lookup_some<V>(s: Seq<(Text, V)>, key: Text) -> (i: int)
    requires
        lookup(s, key) is Some,
    ensures
        0 <= i < s.len(),
        s[i].0 == key,
        s[i].1 == lookup(s, key)->0,
        forall|j: int| i < j < s.len() ==> (#[trigger] s[j]).0 != key,
    decreases s.len(),
{
    if s.last().0 == key {
        s.len() - 1
    } else {
        let t = s.drop_last();
        let i = lemma_lookup_some(t, key);
        assert forall|j: int| i < j < s.len() implies (#[trigger] s[j]).0 != key by {
            if j < t.len() {
                assert(t[j] == s[j]);
            }
        }
        i
    }
}

/// A lookup fails exactly when no entry has the key.
pub proof fn lemma_lookup_none<V>(s: Seq<(Text, V)>, key: Text)
    ensures
        lookup(s, key) is None <==> forall|i: int| 0 <= i < s.len() ==> (#[trigger] s[i]).0 != key,
    decreases s.len(),
{
    if s.len() > 0 {
        lemma_lookup_none(s.drop_last(), key);
        if s.last().0 != key {
            if lookup(s, key) is None {
                assert forall|i: int| 0 <= i < s.len() implies (#[trigger] s[i]).0 != key by {
                    if i < s.len() - 1 {
                        assert(s.drop_last()[i] == s[i]);
                    }
                }
            } else {
                let i = lemma_lookup_some(s, key);
            }
        }
    }
}

/// A lookup in a prefix agrees with the whole list when nothing after the
/// prefix has the key.
pub proof fn lemma_lookup_prefix<V>(s: Seq<(Text, V)>, n: int, key: Text)
    requires
        0 <= n <= s.len(),
        forall|j: int| n <= j < s.len() ==> (#[trigger] s[j]).0 != key,
    ensures
        lookup(s, key) == lookup(s.take(n), key),
    decreases s.len() - n,
{
    if n == s.len() {
        assert(s.take(n) =~= s);
    } else {
        assert(s.last().0 != key);
        let t = s.drop_last();
        assert forall|j: int| n <= j < t.len() implies (#[trigger] t[j]).0 != key by {
            assert(t[j] == s[j]);
        }
        lemma_lookup_prefix(t, n, key);
        assert(t.take(n) =~= s.take(n));
    }
}

/// With distinct keys, every entry is the one that a lookup of its key finds.
pub proof fn lemma_lookup_entry<V>(s: Seq<(Text, V)>, i: int)
    requires
        distinct_keys(s),
        0 <= i < s.len(),
    ensures
        lookup(s, s[i].0) == Some(s[i].1),
{
    let key = s[i].0;
    assert forall|j: int| i + 1 <= j < s.len() implies (#[trigger] s[j]).0 != key by {
        assert(s[i].0 != s[j].0);
    }
    lemma_lookup_prefix(s, i + 1, key);
    assert(s.take(i + 1).last() == s[i]);
}

/// Replacing the value of the last entry that has `key` binds `key` to the
/// new value and leaves every other key as it was.
pub proof fn lemma_lookup_update<V>(s: Seq<(Text, V)>, i: int, key: Text, value: V, other: Text)
    requires
        0 <= i < s.len(),
        s[i].0 == key,
        forall|j: int| i < j < s.len() ==> (#[trigger] s[j]).0 != key,
    ensures
        lookup(s.update(i, (key, value)), other) == if other == key {
            Some(value)
        } else {
            lookup(s, other)
        },
    decreases s.len(),
{
    let u = s.update(i, (key, value));
    if i == s.len() - 1 {
        assert(u.drop_last() =~= s.drop_last());
    } else {
        let t = s.drop_last();
        assert(u.last() == s.last());
        assert(u.drop_last() =~= t.update(i, (key, value)));
        assert forall|j: int| i < j < t.len() implies (#[trigger] t[j]).0 != key by {
            assert(t[j] == s[j]);
        }
        lemma_lookup_update(t, i, key, value, other);
    }
}

/// Appending an entry to the list inserts it into the map.
pub proof fn lemma_to_map_push<V>(s: Seq<(Text, V)>, entry: (Text, V))
    ensures
        to_map(s.push(entry)) == to_map(s).insert(entry.0, entry.1),
{
    assert forall|k: Text|
        lookup(s.push(entry), k) == (if k == entry.0 {
            Some(entry.1)
        } else {
            lookup(s, k)
        }) by {
        lemma_lookup_push(s, entry, k);
    }
    assert(to_map(s.push(entry)) =~= to_map(s).insert(entry.0, entry.1));
}

/// Replacing the value of the last entry that has `key` inserts the new
/// value into the map.
pub proof fn lemma_to_map_update<V>(s: Seq<(Text, V)>, i: int, key: Text, value: V)
    requires
        0 <= i < s.len(),
        s[i].0 == key,
        forall|j: int| i < j < s.len() ==> (#[trigger] s[j]).0 != key,
    ensures
        to_map(s.update(i, (key, value))) == to_map(s).insert(key, value),
{
    assert forall|k: Text|
        lookup(s.update(i, (key, value)), k) == (if k == key {
            Some(value)
        } else {
            lookup(s, k)
        }) by {
        lemma_lookup_update(s, i, key, value, k);
    }
    assert(to_map(s.update(i, (key, value))) =~= to_map(s).insert(key, value));
}

} // verus!
