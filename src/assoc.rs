//! Association lists: a sequence of entries, each carrying a text key.
//! The entry stored under a key is the last one whose key matches; the
//! registry keeps keys unique, so "last" never has to choose.
use vstd::prelude::*;

verus! {

/// The entry of `s` stored under `k`, searching from the most recent entry.
pub open spec fn lookup<T>(s: Seq<T>, key: spec_fn(T) -> Seq<char>, k: Seq<char>) -> Option<T>
    decreases s.len(),
{
    if s.len() == 0 {
        None
    } else if key(s.last()) == k {
        Some(s.last())
    } else {
        lookup(s.drop_last(), key, k)
    }
}

/// No two entries of `s` share a key.
pub open spec fn keys_unique<T>(s: Seq<T>, key: spec_fn(T) -> Seq<char>) -> bool {
    forall|i: int, j: int| 0 <= i < j < s.len() ==> key(s[i]) != key(s[j])
}

/// Nothing is stored under `k` exactly when no entry has key `k`.
pub proof fn lemma_lookup_none<T>(s: Seq<T>, key: spec_fn(T) -> Seq<char>, k: Seq<char>)
    ensures
        lookup(s, key, k) is None <==> (forall|i: int| 0 <= i < s.len() ==> key(s[i]) != k),
    decreases s.len(),
{
    if s.len() > 0 {
        lemma_lookup_none(s.drop_last(), key, k);
        if key(s.last()) != k && lookup(s, key, k) is None {
            assert forall|i: int| 0 <= i < s.len() implies key(s[i]) != k by {
                if i < s.len() - 1 {
                    assert(s[i] == s.drop_last()[i]);
                }
            }
        }
        if (forall|i: int| 0 <= i < s.len() ==> key(s[i]) != k) {
            assert(key(s[s.len() - 1]) != k);
            assert forall|i: int| 0 <= i < s.drop_last().len() implies key(s.drop_last()[i]) != k by {
                assert(s[i] == s.drop_last()[i]);
            }
        }
    }
}

/// With unique keys, the entry at index `i` is the one stored under its key.
pub proof fn lemma_lookup_at<T>(s: Seq<T>, key: spec_fn(T) -> Seq<char>, i: int)
    requires
        keys_unique(s, key),
        0 <= i < s.len(),
    ensures
        lookup(s, key, key(s[i])) == Some(s[i]),
    decreases s.len(),
{
    if i < s.len() - 1 {
        assert(key(s[i]) != key(s[s.len() - 1]));
        assert(s[i] == s.drop_last()[i]);
        lemma_lookup_at(s.drop_last(), key, i);
    }
}

/// Appending an entry stores it under its key and leaves every other key alone.
pub proof fn lemma_lookup_push<T>(s: Seq<T>, key: spec_fn(T) -> Seq<char>, x: T, k: Seq<char>)
    ensures
        lookup(s.push(x), key, k) == (if key(x) == k { Some(x) } else { lookup(s, key, k) }),
{
    assert(s.push(x).drop_last() =~= s);
}

/// Replacing the entry at `p` by one with the same key changes only that key.
pub proof fn lemma_lookup_update<T>(s: Seq<T>, key: spec_fn(T) -> Seq<char>, p: int, x: T, k: Seq<char>)
    requires
        keys_unique(s, key),
        0 <= p < s.len(),
        key(x) == key(s[p]),
    ensures
        keys_unique(s.update(p, x), key),
        lookup(s.update(p, x), key, k) == (if key(x) == k { Some(x) } else { lookup(s, key, k) }),
{
    let t = s.update(p, x);
    assert forall|i: int, j: int| 0 <= i < j < t.len() implies key(t[i]) != key(t[j]) by {
        assert(key(t[i]) == key(s[i]));
        assert(key(t[j]) == key(s[j]));
    }
    if key(x) == k {
        lemma_lookup_at(t, key, p);
    } else {
        lemma_lookup_none(s, key, k);
        lemma_lookup_none(t, key, k);
        if lookup(s, key, k) is Some {
            let i = choose|i: int| 0 <= i < s.len() && key(s[i]) == k;
            lemma_lookup_at(s, key, i);
            lemma_lookup_at(t, key, i);
        }
    }
}

/// The entry stored under `k` carries key `k`.
pub proof fn lemma_lookup_key<T>(s: Seq<T>, key: spec_fn(T) -> Seq<char>, k: Seq<char>)
    ensures
        lookup(s, key, k) matches Some(x) ==> key(x) == k,
    decreases s.len(),
{
    if s.len() > 0 {
        lemma_lookup_key(s.drop_last(), key, k);
    }
}

} // verus!
