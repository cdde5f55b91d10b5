//! Identifiers of externally-issued assets held in custody.
//!
//! An asset lives on some other ledger and is named by the contract that
//! issues it, plus a per-item id for the non-fungible kinds. Internal
//! balances (what this contract holds of an asset on behalf of an
//! account) are association vectors keyed by these identifiers; a key
//! that is absent stands for a balance of zero.

use vstd::prelude::*;

use crate::errors::ContractError;

verus! {

/// An externally-issued asset: a fungible token, a non-fungible token,
/// or an item of another multi-token ledger.
#[derive(Debug, PartialEq, Eq)]
pub enum AssetId {
    Ft { contract_id: String },
    Nft { contract_id: String, token_id: String },
    Mt { contract_id: String, token_id: String },
}

/// The mathematical identity of an [`AssetId`]: the same shape over
/// character sequences.
pub enum AssetKey {
    Ft { contract_id: Seq<char> },
    Nft { contract_id: Seq<char>, token_id: Seq<char> },
    Mt { contract_id: Seq<char>, token_id: Seq<char> },
}

impl View for AssetId {
    type V = AssetKey;

    open spec fn view(&self) -> AssetKey {
        match self {
            AssetId::Ft { contract_id } => AssetKey::Ft { contract_id: contract_id@ },
            AssetId::Nft { contract_id, token_id } => AssetKey::Nft {
                contract_id: contract_id@,
                token_id: token_id@,
            },
            AssetId::Mt { contract_id, token_id } => AssetKey::Mt {
                contract_id: contract_id@,
                token_id: token_id@,
            },
        }
    }
}

impl Clone for AssetId {
    fn clone(&self) -> (r: Self)
        ensures
            r == *self,
    {
        match self {
            AssetId::Ft { contract_id } => AssetId::Ft { contract_id: contract_id.clone() },
            AssetId::Nft { contract_id, token_id } => AssetId::Nft {
                contract_id: contract_id.clone(),
                token_id: token_id.clone(),
            },
            AssetId::Mt { contract_id, token_id } => AssetId::Mt {
                contract_id: contract_id.clone(),
                token_id: token_id.clone(),
            },
        }
    }
}

/// Whether the key names a plainly fungible asset.
pub open spec fn key_is_ft(k: AssetKey) -> bool {
    match k {
        AssetKey::Ft { .. } => true,
        _ => false,
    }
}

impl AssetId {
    /// Whether this id names a plainly fungible asset.
    pub fn is_ft(&self) -> (r: bool)
        ensures
            r == key_is_ft(self@),
    {
        match self {
            AssetId::Ft { .. } => true,
            _ => false,
        }
    }

    /// Identity comparison, decided by the character sequences.
    pub fn same_asset(&self, other: &AssetId) -> (r: bool)
        ensures
            r == (self@ == other@),
    {
        match self {
            AssetId::Ft { contract_id: c1 } => match other {
                AssetId::Ft { contract_id: c2 } => *c1 == *c2,
                _ => false,
            },
            AssetId::Nft { contract_id: c1, token_id: t1 } => match other {
                AssetId::Nft { contract_id: c2, token_id: t2 } => *c1 == *c2 && *t1 == *t2,
                _ => false,
            },
            AssetId::Mt { contract_id: c1, token_id: t1 } => match other {
                AssetId::Mt { contract_id: c2, token_id: t2 } => *c1 == *c2 && *t1 == *t2,
                _ => false,
            },
        }
    }
}

/// Pairwise distinct asset keys.
pub open spec fn abal_unique(s: Seq<(AssetId, u128)>) -> bool {
    forall|i: int, j: int| 0 <= i < j < s.len() ==> s[i].0@ != s[j].0@
}

/// Some pair carries asset key `k`.
pub open spec fn abal_has(s: Seq<(AssetId, u128)>, k: AssetKey) -> bool {
    exists|i: int| 0 <= i < s.len() && s[i].0@ == k
}

/// The index of the pair carrying asset key `k`.
pub open spec fn abal_idx(s: Seq<(AssetId, u128)>, k: AssetKey) -> int {
    choose|i: int| 0 <= i < s.len() && s[i].0@ == k
}

/// The balance held for asset `k`; an absent key holds zero.
pub open spec fn abal_get(s: Seq<(AssetId, u128)>, k: AssetKey) -> u128 {
    if abal_has(s, k) {
        s[abal_idx(s, k)].1
    } else {
        0
    }
}

/// With distinct keys, any index that carries `k` is the index `abal_get`
/// reads from.
pub proof fn lemma_abal_get_at(s: Seq<(AssetId, u128)>, k: AssetKey, i: int)
    requires
        abal_unique(s),
        0 <= i < s.len(),
        s[i].0@ == k,
    ensures
        abal_has(s, k),
        abal_idx(s, k) == i,
        abal_get(s, k) == s[i].1,
{
    assert(abal_has(s, k));
    let w = abal_idx(s, k);
    if w < i {
        assert(s[w].0@ != s[i].0@);
    } else if i < w {
        assert(s[i].0@ != s[w].0@);
    }
}

/// Replacing the balance at the index that carries `k` rebinds `k` and
/// leaves every other asset's balance unchanged.
pub proof fn lemma_abal_update(s0: Seq<(AssetId, u128)>, s1: Seq<(AssetId, u128)>, i: int, k: AssetKey)
    requires
        abal_unique(s0),
        0 <= i < s0.len(),
        s0[i].0@ == k,
        s1.len() == s0.len(),
        s1[i].0@ == k,
        forall|j: int| 0 <= j < s0.len() && j != i ==> s1[j] == s0[j],
    ensures
        abal_unique(s1),
        abal_get(s1, k) == s1[i].1,
        forall|k2: AssetKey| k2 != k ==> abal_get(s1, k2) == abal_get(s0, k2),
{
    assert(forall|j: int| 0 <= j < s1.len() ==> s1[j].0@ == s0[j].0@);
    lemma_abal_get_at(s1, k, i);
    assert forall|k2: AssetKey| k2 != k implies abal_get(s1, k2) == abal_get(s0, k2) by {
        if abal_has(s0, k2) {
            let w = abal_idx(s0, k2);
            assert(0 <= w < s0.len() && s0[w].0@ == k2);
            assert(w != i);
            lemma_abal_get_at(s0, k2, w);
            lemma_abal_get_at(s1, k2, w);
        } else {
            assert(!abal_has(s1, k2)) by {
                if abal_has(s1, k2) {
                    let w = abal_idx(s1, k2);
                    assert(s0[w].0@ == k2);
                }
            }
        }
    }
}

/// Appending a fresh asset key binds it and leaves every other asset's
/// balance unchanged.
pub proof fn lemma_abal_push(s0: Seq<(AssetId, u128)>, s1: Seq<(AssetId, u128)>, k: AssetKey)
    requires
        abal_unique(s0),
        !abal_has(s0, k),
        s1.len() == s0.len() + 1,
        s1[s0.len() as int].0@ == k,
        forall|j: int| 0 <= j < s0.len() ==> s1[j] == s0[j],
    ensures
        abal_unique(s1),
        abal_get(s1, k) == s1[s0.len() as int].1,
        forall|k2: AssetKey| k2 != k ==> abal_get(s1, k2) == abal_get(s0, k2),
{
    let n = s0.len() as int;
    assert forall|i: int, j: int| 0 <= i < j < s1.len() implies s1[i].0@ != s1[j].0@ by {
        if j < n {
            assert(s1[i] == s0[i] && s1[j] == s0[j]);
        } else {
            assert(j == n);
            assert(s1[i] == s0[i]);
            assert(!(0 <= i < s0.len() && s0[i].0@ == k));
        }
    }
    lemma_abal_get_at(s1, k, n);
    assert forall|k2: AssetKey| k2 != k implies abal_get(s1, k2) == abal_get(s0, k2) by {
        if abal_has(s0, k2) {
            let w = abal_idx(s0, k2);
            lemma_abal_get_at(s0, k2, w);
            lemma_abal_get_at(s1, k2, w);
        } else {
            assert(!abal_has(s1, k2)) by {
                if abal_has(s1, k2) {
                    let w = abal_idx(s1, k2);
                    assert(w != n);
                    assert(s0[w].0@ == k2);
                }
            }
        }
    }
}

/// Linear search for the pair carrying asset `k`.
pub fn abal_find(v: &Vec<(AssetId, u128)>, k: &AssetId) -> (r: Option<usize>)
    ensures
        match r {
            Some(i) => 0 <= i < v@.len() && v@[i as int].0@ == k@,
            None => !abal_has(v@, k@),
        },
{
    let mut i: usize = 0;
    while i < v.len()
        invariant
            i <= v@.len(),
            forall|j: int| 0 <= j < i ==> v@[j].0@ != k@,
        decreases v@.len() - i,
    {
        if v[i].0.same_asset(k) {
            return Some(i);
        }
        i = i + 1;
    }
    None
}

/// The balance held for asset `k`; zero when the key is absent.
pub fn abal_balance(v: &Vec<(AssetId, u128)>, k: &AssetId) -> (r: u128)
    requires
        abal_unique(v@),
    ensures
        r == abal_get(v@, k@),
{
    match abal_find(v, k) {
        Some(i) => {
            proof {
                lemma_abal_get_at(v@, k@, i as int);
            }
            v[i].1
        },
        None => 0,
    }
}

/// Adds `amount` to the balance for asset `k`. Fails with `Overflow`,
/// changing nothing, exactly when the new balance would not fit.
pub fn abal_credit(v: &mut Vec<(AssetId, u128)>, k: &AssetId, amount: u128) -> (r: Result<
    (),
    ContractError,
>)
    requires
        abal_unique(old(v)@),
    ensures
        abal_unique(final(v)@),
        match r {
            Ok(()) => {
                &&& abal_get(old(v)@, k@) + amount <= u128::MAX
                &&& abal_get(final(v)@, k@) == abal_get(old(v)@, k@) + amount
                &&& forall|k2: AssetKey| k2 != k@ ==> abal_get(final(v)@, k2) == abal_get(
                    old(v)@,
                    k2,
                )
            },
            Err(e) => {
                &&& e == ContractError::Overflow
                &&& abal_get(old(v)@, k@) + amount > u128::MAX
                &&& final(v)@ == old(v)@
            },
        },
{
    let ghost s0 = v@;
    match abal_find(v, k) {
        Some(i) => {
            proof {
                lemma_abal_get_at(s0, k@, i as int);
            }
            let bal = v[i].1;
            match bal.checked_add(amount) {
                Some(nb) => {
                    vstd::pervasive::VecAdditionalExecFns::set(v, i, (k.clone(), nb));
                    proof {
                        lemma_abal_update(s0, v@, i as int, k@);
                    }
                    Ok(())
                },
                None => Err(ContractError::Overflow),
            }
        },
        None => {
            v.push((k.clone(), amount));
            proof {
                lemma_abal_push(s0, v@, k@);
            }
            Ok(())
        },
    }
}

/// Subtracts `amount` from the balance for asset `k`. Fails with
/// `InsufficientBalance`, changing nothing, exactly when the balance is
/// smaller than the debit.
pub fn abal_debit(v: &mut Vec<(AssetId, u128)>, k: &AssetId, amount: u128) -> (r: Result<
    (),
    ContractError,
>)
    requires
        abal_unique(old(v)@),
    ensures
        abal_unique(final(v)@),
        match r {
            Ok(()) => {
                &&& abal_get(old(v)@, k@) >= amount
                &&& abal_get(final(v)@, k@) == abal_get(old(v)@, k@) - amount
                &&& forall|k2: AssetKey| k2 != k@ ==> abal_get(final(v)@, k2) == abal_get(
                    old(v)@,
                    k2,
                )
            },
            Err(e) => {
                &&& e == ContractError::InsufficientBalance
                &&& abal_get(old(v)@, k@) < amount
                &&& final(v)@ == old(v)@
            },
        },
{
    let ghost s0 = v@;
    match abal_find(v, k) {
        Some(i) => {
            proof {
                lemma_abal_get_at(s0, k@, i as int);
            }
            let bal = v[i].1;
            if bal < amount {
                Err(ContractError::InsufficientBalance)
            } else {
                vstd::pervasive::VecAdditionalExecFns::set(v, i, (k.clone(), bal - amount));
                proof {
                    lemma_abal_update(s0, v@, i as int, k@);
                }
                Ok(())
            }
        },
        None => {
            if amount == 0 {
                Ok(())
            } else {
                Err(ContractError::InsufficientBalance)
            }
        },
    }
}

/// An element-for-element copy of an internal balance table.
pub fn abal_clone(v: &Vec<(AssetId, u128)>) -> (r: Vec<(AssetId, u128)>)
    ensures
        r@ == v@,
{
    let mut r: Vec<(AssetId, u128)> = Vec::new();
    let mut i: usize = 0;
    while i < v.len()
        invariant
            i <= v@.len(),
            r@.len() == i,
            forall|j: int| 0 <= j < i ==> r@[j] == v@[j],
        decreases v@.len() - i,
    {
        let p = &v[i];
        r.push((p.0.clone(), p.1));
        i = i + 1;
    }
    proof {
        assert(r@ =~= v@);
    }
    r
}

} // verus!
