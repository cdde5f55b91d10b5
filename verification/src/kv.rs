//! String-keyed association vectors.
//!
//! Every table of the ledger state (accounts, token kinds, balances,
//! records, listings) is a vector of key/value pairs with pairwise
//! distinct keys, looked up by linear search. Keys are compared by their
//! character sequences, so contracts speak of `Seq<char>` keys.

use vstd::prelude::*;

verus! {

/// Pairwise distinct keys.
pub open spec fn kv_unique<V>(s: Seq<(String, V)>) -> bool {
    forall|i: int, j: int| 0 <= i < j < s.len() ==> s[i].0@ != s[j].0@
}

/// Some pair carries key `k`.
pub open spec fn kv_has<V>(s: Seq<(String, V)>, k: Seq<char>) -> bool {
    exists|i: int| 0 <= i < s.len() && s[i].0@ == k
}

/// The index of the pair carrying key `k` (meaningful only when one exists).
pub open spec fn kv_idx<V>(s: Seq<(String, V)>, k: Seq<char>) -> int {
    choose|i: int| 0 <= i < s.len() && s[i].0@ == k
}

/// The value bound to key `k`, if any.
pub open spec fn kv_get<V>(s: Seq<(String, V)>, k: Seq<char>) -> Option<V> {
    if kv_has(s, k) {
        Some(s[kv_idx(s, k)].1)
    } else {
        None
    }
}

/// With distinct keys, any index that carries `k` is the index `kv_get`
/// reads from.
pub proof fn lemma_kv_get_at<V>(s: Seq<(String, V)>, k: Seq<char>, i: int)
    requires
        kv_unique(s),
        0 <= i < s.len(),
        s[i].0@ == k,
    ensures
        kv_has(s, k),
        kv_idx(s, k) == i,
        kv_get(s, k) == Some(s[i].1),
{
    assert(kv_has(s, k));
    let w = kv_idx(s, k);
    assert(0 <= w < s.len() && s[w].0@ == k);
    if w < i {
        assert(s[w].0@ != s[i].0@);
    } else if i < w {
        assert(s[i].0@ != s[w].0@);
    }
}

/// Replacing the value at the index that carries `k` rebinds `k` and
/// leaves every other key's binding unchanged.
pub proof fn lemma_kv_update<V>(s0: Seq<(String, V)>, s1: Seq<(String, V)>, i: int, k: Seq<char>)
    requires
        kv_unique(s0),
        0 <= i < s0.len(),
        s0[i].0@ == k,
        s1.len() == s0.len(),
        s1[i].0@ == k,
        forall|j: int| 0 <= j < s0.len() && j != i ==> s1[j] == s0[j],
    ensures
        kv_unique(s1),
        kv_has(s1, k),
        kv_get(s1, k) == Some(s1[i].1),
        forall|k2: Seq<char>| k2 != k ==> kv_get(s1, k2) == kv_get(s0, k2),
{
    assert(forall|j: int| 0 <= j < s1.len() ==> s1[j].0@ == s0[j].0@);
    lemma_kv_get_at(s1, k, i);
    assert forall|k2: Seq<char>| k2 != k implies kv_get(s1, k2) == kv_get(s0, k2) by {
        if kv_has(s0, k2) {
            let w = kv_idx(s0, k2);
            assert(0 <= w < s0.len() && s0[w].0@ == k2);
            assert(w != i);
            lemma_kv_get_at(s0, k2, w);
            lemma_kv_get_at(s1, k2, w);
        } else {
            assert(!kv_has(s1, k2)) by {
                if kv_has(s1, k2) {
                    let w = kv_idx(s1, k2);
                    assert(0 <= w < s1.len() && s1[w].0@ == k2);
                    assert(s0[w].0@ == k2);
                }
            }
        }
    }
}

/// Appending a fresh key binds it and leaves every other key's binding
/// unchanged.
pub proof fn lemma_kv_push<V>(s0: Seq<(String, V)>, s1: Seq<(String, V)>, k: Seq<char>)
    requires
        kv_unique(s0),
        !kv_has(s0, k),
        s1.len() == s0.len() + 1,
        s1[s0.len() as int].0@ == k,
        forall|j: int| 0 <= j < s0.len() ==> s1[j] == s0[j],
    ensures
        kv_unique(s1),
        kv_has(s1, k),
        kv_get(s1, k) == Some(s1[s0.len() as int].1),
        forall|k2: Seq<char>| k2 != k ==> kv_get(s1, k2) == kv_get(s0, k2),
{
    let n = s0.len() as int;
    assert forall|i: int, j: int| 0 <= i < j < s1.len() implies s1[i].0@ != s1[j].0@ by {
        if j < n {
            assert(s1[i] == s0[i] && s1[j] == s0[j]);
        } else {
            assert(j == n);
            assert(s1[i] == s0[i]);
            assert(!(0 <= i < s0.len() && s0[i].0@ == k));
        }
    }
    lemma_kv_get_at(s1, k, n);
    assert forall|k2: Seq<char>| k2 != k implies kv_get(s1, k2) == kv_get(s0, k2) by {
        if kv_has(s0, k2) {
            let w = kv_idx(s0, k2);
            lemma_kv_get_at(s0, k2, w);
            lemma_kv_get_at(s1, k2, w);
        } else {
            assert(!kv_has(s1, k2)) by {
                if kv_has(s1, k2) {
                    let w = kv_idx(s1, k2);
                    assert(0 <= w < s1.len() && s1[w].0@ == k2);
                    assert(w != n);
                    assert(s0[w].0@ == k2);
                }
            }
        }
    }
}

/// Linear search for the pair carrying key `k`.
pub fn kv_find<V>(v: &Vec<(String, V)>, k: &String) -> (r: Option<usize>)
    ensures
        match r {
            Some(i) => 0 <= i < v@.len() && v@[i as int].0@ == k@,
            None => !kv_has(v@, k@),
        },
{
    let mut i: usize = 0;
    while i < v.len()
        invariant
            i <= v@.len(),
            forall|j: int| 0 <= j < i ==> v@[j].0@ != k@,
        decreases v@.len() - i,
    {
        if v[i].0 == *k {
            return Some(i);
        }
        i = i + 1;
    }
    None
}

/// Whether key `k` is bound.
pub fn kv_contains<V>(v: &Vec<(String, V)>, k: &String) -> (r: bool)
    ensures
        r == kv_has(v@, k@),
{
    match kv_find(v, k) {
        Some(_) => true,
        None => false,
    }
}

/// A reference to the value bound to key `k`, if any.
pub fn kv_lookup<'a, V>(v: &'a Vec<(String, V)>, k: &String) -> (r: Option<&'a V>)
    requires
        kv_unique(v@),
    ensures
        match r {
            Some(val) => kv_get(v@, k@) == Some(*val),
            None => kv_get(v@, k@) is None,
        },
{
    match kv_find(v, k) {
        Some(i) => {
            proof {
                lemma_kv_get_at(v@, k@, i as int);
            }
            Some(&v[i].1)
        },
        None => None,
    }
}

/// Binds key `k` to `val`, replacing any existing binding.
pub fn kv_set<V>(v: &mut Vec<(String, V)>, k: &String, val: V)
    requires
        kv_unique(old(v)@),
    ensures
        kv_unique(final(v)@),
        kv_get(final(v)@, k@) == Some(val),
        forall|k2: Seq<char>| k2 != k@ ==> kv_get(final(v)@, k2) == kv_get(old(v)@, k2),
        kv_has(final(v)@, k@),
        final(v)@.len() == old(v)@.len() + (if kv_has(old(v)@, k@) {
            0int
        } else {
            1int
        }),
        forall|j: int|
            0 <= j < old(v)@.len() && j < final(v)@.len() ==> (final(v)@[j] == old(v)@[j] || (
            final(v)@[j].0@ == k@ && final(v)@[j].1 == val)),
        forall|j: int|
            old(v)@.len() <= j < final(v)@.len() ==> (final(v)@[j].0@ == k@ && final(v)@[j].1
                == val),
{
    let ghost s0 = v@;
    match kv_find(v, k) {
        Some(i) => {
            vstd::pervasive::VecAdditionalExecFns::set(v, i, (k.clone(), val));
            proof {
                lemma_kv_get_at(s0, k@, i as int);
                lemma_kv_update(s0, v@, i as int, k@);
            }
        },
        None => {
            v.push((k.clone(), val));
            proof {
                lemma_kv_push(s0, v@, k@);
            }
        },
    }
}

} // verus!
