//! Name-to-value tables, kept in insertion order.
//!
//! A table is a sequence of pairs; the first pair with a matching key is
//! the binding in force. The evaluator only ever appends a key that is
//! absent, so keys stay unique.

use vstd::prelude::*;
use crate::strutil::str_eq;

verus! {

/// The index of the first pair with the given key, or -1.
pub open spec fn env_idx<T>(s: Seq<(Seq<char>, T)>, k: Seq<char>) -> int
    decreases s.len(),
{
    if s.len() == 0 {
        -1
    } else if s[0].0 == k {
        0
    } else {
        let r = env_idx(s.subrange(1, s.len() as int), k);
        if r < 0 {
            -1
        } else {
            r + 1
        }
    }
}

/// The value bound to a key, if any.
pub open spec fn env_lookup<T>(s: Seq<(Seq<char>, T)>, k: Seq<char>) -> Option<T> {
    if env_idx(s, k) < 0 {
        None
    } else {
        Some(s[env_idx(s, k)].1)
    }
}

/// Overwrites the binding in force; the key must be present.
pub open spec fn env_set<T>(s: Seq<(Seq<char>, T)>, k: Seq<char>, v: T) -> Seq<(Seq<char>, T)> {
    s.update(env_idx(s, k), (k, v))
}

/// Overwrites the binding in force, or appends a new one.
pub open spec fn env_upsert<T>(s: Seq<(Seq<char>, T)>, k: Seq<char>, v: T) -> Seq<(Seq<char>, T)> {
    if env_idx(s, k) < 0 {
        s.push((k, v))
    } else {
        s.update(env_idx(s, k), (k, v))
    }
}

/// Removes the binding in force; the key must be present.
pub open spec fn env_remove<T>(s: Seq<(Seq<char>, T)>, k: Seq<char>) -> Seq<(Seq<char>, T)> {
    s.remove(env_idx(s, k))
}

/// What `env_idx` finds: the first matching position.
pub proof fn lemma_env_idx<T>(s: Seq<(Seq<char>, T)>, k: Seq<char>)
    ensures
        env_idx(s, k) == -1 <==> (forall|j: int| 0 <= j < s.len() ==> (#[trigger] s[j]).0 != k),
        env_idx(s, k) >= 0 ==> env_idx(s, k) < s.len() && s[env_idx(s, k)].0 == k && (forall|
            j: int,
        |
            0 <= j < env_idx(s, k) ==> (#[trigger] s[j]).0 != k),
    decreases s.len(),
{
    if s.len() > 0 && s[0].0 != k {
        let rest = s.subrange(1, s.len() as int);
        lemma_env_idx(rest, k);
        let r = env_idx(rest, k);
        if r < 0 {
            assert forall|j: int| 0 <= j < s.len() implies (#[trigger] s[j]).0 != k by {
                if j > 0 {
                    assert(rest[j - 1] == s[j]);
                }
            }
        } else {
            assert(env_idx(s, k) == r + 1);
            assert(s[r + 1] == rest[r]);
            assert forall|j: int| 0 <= j < r + 1 implies (#[trigger] s[j]).0 != k by {
                if j > 0 {
                    assert(rest[j - 1] == s[j]);
                }
            }
        }
    }
}

/// Looking a key up ignores a head pair with a different key.
pub proof fn lemma_env_lookup_cons<T>(s: Seq<(Seq<char>, T)>, k: Seq<char>)
    requires
        s.len() > 0,
        s[0].0 != k,
    ensures
        env_lookup(s, k) == env_lookup(s.subrange(1, s.len() as int), k),
{
    let rest = s.subrange(1, s.len() as int);
    lemma_env_idx(rest, k);
    let r = env_idx(rest, k);
    if r >= 0 {
        assert(env_idx(s, k) == r + 1);
        assert(s[r + 1] == rest[r]);
    }
}

/// Finding a key after an update or an append.
pub proof fn lemma_env_upsert_lookup<T>(s: Seq<(Seq<char>, T)>, k: Seq<char>, v: T, k2: Seq<char>)
    ensures
        env_lookup(env_upsert(s, k, v), k2) == (if k2 == k {
            Some(v)
        } else {
            env_lookup(s, k2)
        }),
    decreases s.len(),
{
    lemma_env_idx(s, k);
    let s2 = env_upsert(s, k, v);
    if s.len() == 0 {
        assert(s2 =~= seq![(k, v)]);
        if k2 != k {
            assert(s2.subrange(1, s2.len() as int) =~= Seq::<(Seq<char>, T)>::empty());
            assert(env_idx(s2.subrange(1, s2.len() as int), k2) == -1);
            assert(env_idx(s2, k2) == -1);
            assert(env_idx(s, k2) == -1);
        }
    } else {
        let rest = s.subrange(1, s.len() as int);
        if s[0].0 == k {
            assert(env_idx(s, k) == 0);
            assert(s2 == s.update(0, (k, v)));
            assert(s2.len() == s.len());
            assert(s2[0] == (k, v));
            assert(s2.subrange(1, s2.len() as int) =~= rest);
            if k2 == k {
                assert(env_idx(s2, k2) == 0);
            } else {
                lemma_env_lookup_cons(s2, k2);
                lemma_env_lookup_cons(s, k2);
            }
        } else {
            lemma_env_upsert_lookup(rest, k, v, k2);
            let rest2 = env_upsert(rest, k, v);
            assert(s2 =~= seq![s[0]] + rest2);
            assert(s2.len() > 0 && s2[0] == s[0]);
            assert(s2.subrange(1, s2.len() as int) =~= rest2);
            if s[0].0 == k2 {
                assert(env_idx(s2, k2) == 0);
                assert(env_idx(s, k2) == 0);
                assert(k2 != k);
            } else {
                lemma_env_lookup_cons(s2, k2);
                lemma_env_lookup_cons(s, k2);
            }
        }
    }
}

/// A first match at `i` is exactly what `env_idx` finds.
pub proof fn lemma_env_idx_is<T>(s: Seq<(Seq<char>, T)>, k: Seq<char>, i: int)
    requires
        0 <= i < s.len(),
        s[i].0 == k,
        forall|j: int| 0 <= j < i ==> (#[trigger] s[j]).0 != k,
    ensures
        env_idx(s, k) == i,
        env_lookup(s, k) == Some(s[i].1),
{
    lemma_env_idx(s, k);
    let idx = env_idx(s, k);
    if idx == -1 {
        assert(s[i].0 != k);
    }
    if idx < i {
        assert(s[idx].0 != k);
    }
    if idx > i {
        assert(s[i].0 != k);
    }
}

/// No match anywhere means `env_idx` finds nothing.
pub proof fn lemma_env_idx_absent<T>(s: Seq<(Seq<char>, T)>, k: Seq<char>)
    requires
        forall|j: int| 0 <= j < s.len() ==> (#[trigger] s[j]).0 != k,
    ensures
        env_idx(s, k) == -1,
        env_lookup(s, k) is None,
{
    lemma_env_idx(s, k);
    if env_idx(s, k) >= 0 {
        assert(s[env_idx(s, k)].0 != k);
    }
}

/// No two pairs carry the same key.
pub open spec fn unique_keys<T>(s: Seq<(Seq<char>, T)>) -> bool {
    forall|i: int, j: int| 0 <= i < j < s.len() ==> (#[trigger] s[i]).0 != (#[trigger] s[j]).0
}

/// Writing a binding keeps the keys unique: an overwrite reuses its key,
/// and an append only happens for a key that is absent. Every write the
/// evaluator makes to a table goes through one of these operations, so
/// keys stay unique for the life of an interpreter instance.
pub proof fn lemma_upsert_unique_keys<T>(s: Seq<(Seq<char>, T)>, k: Seq<char>, v: T)
    requires
        unique_keys(s),
    ensures
        unique_keys(env_upsert(s, k, v)),
{
    lemma_env_idx(s, k);
    let s2 = env_upsert(s, k, v);
    if env_idx(s, k) < 0 {
        assert forall|i: int, j: int| 0 <= i < j < s2.len() implies (#[trigger] s2[i]).0 != (
        #[trigger] s2[j]).0 by {
            if j < s.len() {
                assert(s2[i] == s[i] && s2[j] == s[j]);
            } else {
                assert(s2[j].0 == k && s2[i] == s[i]);
            }
        }
    } else {
        let at = env_idx(s, k);
        assert(s[at].0 == k);
        assert forall|i: int, j: int| 0 <= i < j < s2.len() implies (#[trigger] s2[i]).0 != (
        #[trigger] s2[j]).0 by {
            assert(s2[i].0 == s[i].0 && s2[j].0 == s[j].0);
        }
    }
}

/// Overwriting the binding in force of a present key keeps keys unique.
pub proof fn lemma_set_unique_keys<T>(s: Seq<(Seq<char>, T)>, k: Seq<char>, v: T)
    requires
        unique_keys(s),
        env_lookup(s, k) is Some,
    ensures
        unique_keys(env_set(s, k, v)),
{
    lemma_upsert_unique_keys(s, k, v);
    assert(env_upsert(s, k, v) == env_set(s, k, v));
}

/// Removing a binding keeps keys unique.
pub proof fn lemma_remove_unique_keys<T>(s: Seq<(Seq<char>, T)>, k: Seq<char>)
    requires
        unique_keys(s),
        env_lookup(s, k) is Some,
    ensures
        unique_keys(env_remove(s, k)),
{
    lemma_env_idx(s, k);
    let at = env_idx(s, k);
    let s2 = env_remove(s, k);
    assert forall|i: int, j: int| 0 <= i < j < s2.len() implies (#[trigger] s2[i]).0 != (
    #[trigger] s2[j]).0 by {
        let i0 = if i < at { i } else { i + 1 };
        let j0 = if j < at { j } else { j + 1 };
        assert(s2[i] == s[i0] && s2[j] == s[j0]);
    }
}

/// Finds the position of the first pair whose key is `name`.
pub fn env_find<T>(v: &Vec<(String, T)>, name: &str) -> (r: Option<usize>)
    ensures
        match r {
            Some(i) => i < v@.len() && v@[i as int].0@ == name@ && (forall|j: int|
                0 <= j < i ==> (#[trigger] v@[j]).0@ != name@),
            None => forall|j: int| 0 <= j < v@.len() ==> (#[trigger] v@[j]).0@ != name@,
        },
{
    let mut i: usize = 0;
    while i < v.len()
        invariant
            i <= v@.len(),
            forall|j: int| 0 <= j < i ==> (#[trigger] v@[j]).0@ != name@,
        decreases v@.len() - i,
    {
        if str_eq(v[i].0.as_str(), name) {
            return Some(i);
        }
        i = i + 1;
    }
    None
}

} // verus!
