//! The account store.
//!
//! Each registered account carries a native-currency balance and a table
//! of internal balances: what this contract holds in custody for the
//! account, per externally-issued asset. Accessors default to zero for
//! accounts or assets that are absent, so contracts can speak of every
//! account uniformly.

use vstd::prelude::*;

use crate::asset::{
    abal_clone, abal_credit, abal_debit, abal_get, abal_unique, AssetId, AssetKey,
};
use crate::errors::ContractError;
use crate::kv::{kv_find, kv_get, kv_has, kv_set, kv_unique, lemma_kv_get_at, lemma_kv_update};

verus! {

/// What the contract knows of one account: its native-currency balance
/// and its per-asset internal balances.
pub struct AccountInfo {
    pub near_amount: u128,
    pub internal_balance: Vec<(AssetId, u128)>,
}

/// Well-formedness of an account table: account ids are distinct and each
/// internal balance table has distinct asset keys.
pub open spec fn store_wf(s: Seq<(String, AccountInfo)>) -> bool {
    &&& kv_unique(s)
    &&& forall|i: int| 0 <= i < s.len() ==> abal_unique(#[trigger] s[i].1.internal_balance@)
}

/// Whether an account is registered.
pub open spec fn spec_registered(s: Seq<(String, AccountInfo)>, id: Seq<char>) -> bool {
    kv_has(s, id)
}

/// An account's native-currency balance; zero when unregistered.
pub open spec fn spec_near(s: Seq<(String, AccountInfo)>, id: Seq<char>) -> u128 {
    match kv_get(s, id) {
        Some(a) => a.near_amount,
        None => 0,
    }
}

/// An account's internal balance for one asset; zero when absent.
pub open spec fn spec_internal(s: Seq<(String, AccountInfo)>, id: Seq<char>, k: AssetKey) -> u128 {
    match kv_get(s, id) {
        Some(a) => abal_get(a.internal_balance@, k),
        None => 0,
    }
}

/// Registers an account if it is not yet known, with empty balances.
/// Idempotent; no balance of any account changes.
pub fn store_register(v: &mut Vec<(String, AccountInfo)>, id: &String)
    requires
        store_wf(old(v)@),
    ensures
        store_wf(final(v)@),
        spec_registered(final(v)@, id@),
        forall|id2: Seq<char>|
            id2 != id@ ==> spec_registered(final(v)@, id2) == spec_registered(old(v)@, id2),
        forall|id2: Seq<char>| #[trigger]
            spec_near(final(v)@, id2) == spec_near(old(v)@, id2),
        forall|id2: Seq<char>, k: AssetKey| #[trigger]
            spec_internal(final(v)@, id2, k) == spec_internal(old(v)@, id2, k),
{
    let ghost s0 = v@;
    match kv_find(v, id) {
        Some(_) => {
        },
        None => {
            let fresh = AccountInfo { near_amount: 0, internal_balance: Vec::new() };
            kv_set(v, id, fresh);
            proof {
                assert forall|i: int| 0 <= i < v@.len() implies abal_unique(
                    #[trigger] v@[i].1.internal_balance@,
                ) by {
                    if 0 <= i < s0.len() {
                        if v@[i] == s0[i] {
                        } else {
                            assert(v@[i].1.internal_balance@.len() == 0);
                        }
                    } else {
                        assert(v@[i].1.internal_balance@.len() == 0);
                    }
                }
                assert forall|id2: Seq<char>|
                    id2 != id@ implies spec_registered(v@, id2) == spec_registered(s0, id2) by {
                    assert(kv_get(v@, id2) == kv_get(s0, id2));
                }
                assert forall|id2: Seq<char>| #[trigger]
                    spec_near(v@, id2) == spec_near(s0, id2) by {
                    if id2 != id@ {
                    } else {
                        assert(kv_get(s0, id2) is None);
                    }
                }
                assert forall|id2: Seq<char>, k: AssetKey| #[trigger]
                    spec_internal(v@, id2, k) == spec_internal(s0, id2, k) by {
                    if id2 != id@ {
                    } else {
                        assert(kv_get(s0, id2) is None);
                        assert(!crate::asset::abal_has(Seq::<(AssetId, u128)>::empty(), k));
                    }
                }
            }
        },
    }
}

/// Adds native currency to a registered account's balance. Fails with
/// `NotRegistered` or `Overflow`, changing nothing.
pub fn store_credit_near(v: &mut Vec<(String, AccountInfo)>, id: &String, amount: u128) -> (r:
    Result<(), ContractError>)
    requires
        store_wf(old(v)@),
    ensures
        store_wf(final(v)@),
        match r {
            Ok(()) => {
                &&& spec_registered(old(v)@, id@)
                &&& spec_near(old(v)@, id@) + amount <= u128::MAX
                &&& spec_near(final(v)@, id@) == spec_near(old(v)@, id@) + amount
                &&& forall|id2: Seq<char>|
                    id2 != id@ ==> spec_near(final(v)@, id2) == spec_near(old(v)@, id2)
                &&& forall|id2: Seq<char>, k: AssetKey| #[trigger]
                    spec_internal(final(v)@, id2, k) == spec_internal(old(v)@, id2, k)
                &&& forall|id2: Seq<char>| #[trigger]
                    spec_registered(final(v)@, id2) == spec_registered(old(v)@, id2)
            },
            Err(e) => {
                &&& *final(v) == *old(v)
                &&& (e == ContractError::NotRegistered || e == ContractError::Overflow)
                &&& (e == ContractError::NotRegistered <==> !spec_registered(old(v)@, id@))
                &&& (e == ContractError::Overflow <==> spec_registered(old(v)@, id@)
                    && spec_near(old(v)@, id@) + amount > u128::MAX)
            },
        },
{
    let ghost s0 = v@;
    match kv_find(v, id) {
        None => Err(ContractError::NotRegistered),
        Some(i) => {
            proof {
                lemma_kv_get_at(s0, id@, i as int);
            }
            let cur: u128 = v[i].1.near_amount;
            match cur.checked_add(amount) {
                None => Err(ContractError::Overflow),
                Some(nb) => {
                    let elem = &mut v[i];
                    elem.1.near_amount = nb;
                    proof {
                        lemma_kv_update(s0, v@, i as int, id@);
                        assert forall|j: int| 0 <= j < v@.len() implies abal_unique(
                            #[trigger] v@[j].1.internal_balance@,
                        ) by {
                            assert(v@[j].1.internal_balance@ == s0[j].1.internal_balance@);
                        }
                        assert forall|id2: Seq<char>, k: AssetKey| #[trigger]
                            spec_internal(v@, id2, k) == spec_internal(s0, id2, k) by {
                            if id2 == id@ {
                                assert(kv_get(v@, id2) == Some(v@[i as int].1));
                                assert(v@[i as int].1.internal_balance@ == s0[i as int].1.internal_balance@);
                            }
                        }
                        assert forall|id2: Seq<char>| #[trigger]
                            spec_registered(v@, id2) == spec_registered(s0, id2) by {
                            assert(forall|j: int| 0 <= j < v@.len() ==> v@[j].0@ == s0[j].0@);
                        }
                    }
                    Ok(())
                },
            }
        },
    }
}

/// Adds `amount` of one asset to a registered account's internal balance.
/// Fails with `NotRegistered` or `Overflow`, changing nothing.
pub fn store_internal_credit(
    v: &mut Vec<(String, AccountInfo)>,
    id: &String,
    asset: &AssetId,
    amount: u128,
) -> (r: Result<(), ContractError>)
    requires
        store_wf(old(v)@),
    ensures
        store_wf(final(v)@),
        match r {
            Ok(()) => {
                &&& spec_registered(old(v)@, id@)
                &&& spec_internal(old(v)@, id@, asset@) + amount <= u128::MAX
                &&& spec_internal(final(v)@, id@, asset@) == spec_internal(old(v)@, id@, asset@)
                    + amount
                &&& forall|id2: Seq<char>, k: AssetKey|
                    !(id2 == id@ && k == asset@) ==> #[trigger] spec_internal(final(v)@, id2, k)
                        == spec_internal(old(v)@, id2, k)
                &&& forall|id2: Seq<char>| #[trigger]
                    spec_near(final(v)@, id2) == spec_near(old(v)@, id2)
                &&& forall|id2: Seq<char>| #[trigger]
                    spec_registered(final(v)@, id2) == spec_registered(old(v)@, id2)
            },
            Err(e) => {
                &&& *final(v) == *old(v)
                &&& (e == ContractError::NotRegistered || e == ContractError::Overflow)
                &&& (e == ContractError::NotRegistered <==> !spec_registered(old(v)@, id@))
                &&& (e == ContractError::Overflow <==> spec_registered(old(v)@, id@)
                    && spec_internal(old(v)@, id@, asset@) + amount > u128::MAX)
            },
        },
{
    let ghost s0 = v@;
    match kv_find(v, id) {
        None => Err(ContractError::NotRegistered),
        Some(i) => {
            proof {
                lemma_kv_get_at(s0, id@, i as int);
            }
            let mut ib = abal_clone(&v[i].1.internal_balance);
            match abal_credit(&mut ib, asset, amount) {
                Err(e) => Err(e),
                Ok(()) => {
                    let elem = &mut v[i];
                    elem.1.internal_balance = ib;
                    proof {
                        lemma_kv_update(s0, v@, i as int, id@);
                        assert forall|j: int| 0 <= j < v@.len() implies abal_unique(
                            #[trigger] v@[j].1.internal_balance@,
                        ) by {
                            if j != i {
                                assert(v@[j] == s0[j]);
                            }
                        }
                        assert forall|id2: Seq<char>, k: AssetKey|
                            !(id2 == id@ && k == asset@) implies #[trigger] spec_internal(
                            v@,
                            id2,
                            k,
                        ) == spec_internal(s0, id2, k) by {
                            if id2 == id@ {
                                assert(kv_get(v@, id2) == Some(v@[i as int].1));
                            }
                        }
                        assert forall|id2: Seq<char>| #[trigger]
                            spec_near(v@, id2) == spec_near(s0, id2) by {
                            if id2 == id@ {
                                assert(kv_get(v@, id2) == Some(v@[i as int].1));
                            }
                        }
                        assert forall|id2: Seq<char>| #[trigger]
                            spec_registered(v@, id2) == spec_registered(s0, id2) by {
                            assert(forall|j: int| 0 <= j < v@.len() ==> v@[j].0@ == s0[j].0@);
                        }
                    }
                    Ok(())
                },
            }
        },
    }
}

/// Subtracts `amount` of one asset from a registered account's internal
/// balance. Fails with `NotRegistered` or `InsufficientBalance`, changing
/// nothing.
pub fn store_internal_debit(
    v: &mut Vec<(String, AccountInfo)>,
    id: &String,
    asset: &AssetId,
    amount: u128,
) -> (r: Result<(), ContractError>)
    requires
        store_wf(old(v)@),
    ensures
        store_wf(final(v)@),
        match r {
            Ok(()) => {
                &&& spec_registered(old(v)@, id@)
                &&& spec_internal(old(v)@, id@, asset@) >= amount
                &&& spec_internal(final(v)@, id@, asset@) == spec_internal(old(v)@, id@, asset@)
                    - amount
                &&& forall|id2: Seq<char>, k: AssetKey|
                    !(id2 == id@ && k == asset@) ==> #[trigger] spec_internal(final(v)@, id2, k)
                        == spec_internal(old(v)@, id2, k)
                &&& forall|id2: Seq<char>| #[trigger]
                    spec_near(final(v)@, id2) == spec_near(old(v)@, id2)
                &&& forall|id2: Seq<char>| #[trigger]
                    spec_registered(final(v)@, id2) == spec_registered(old(v)@, id2)
            },
            Err(e) => {
                &&& *final(v) == *old(v)
                &&& (e == ContractError::NotRegistered || e == ContractError::InsufficientBalance)
                &&& (e == ContractError::NotRegistered <==> !spec_registered(old(v)@, id@))
                &&& (e == ContractError::InsufficientBalance <==> spec_registered(old(v)@, id@)
                    && spec_internal(old(v)@, id@, asset@) < amount)
            },
        },
{
    let ghost s0 = v@;
    match kv_find(v, id) {
        None => Err(ContractError::NotRegistered),
        Some(i) => {
            proof {
                lemma_kv_get_at(s0, id@, i as int);
            }
            let mut ib = abal_clone(&v[i].1.internal_balance);
            match abal_debit(&mut ib, asset, amount) {
                Err(e) => Err(e),
                Ok(()) => {
                    let elem = &mut v[i];
                    elem.1.internal_balance = ib;
                    proof {
                        lemma_kv_update(s0, v@, i as int, id@);
                        assert forall|j: int| 0 <= j < v@.len() implies abal_unique(
                            #[trigger] v@[j].1.internal_balance@,
                        ) by {
                            if j != i {
                                assert(v@[j] == s0[j]);
                            }
                        }
                        assert forall|id2: Seq<char>, k: AssetKey|
                            !(id2 == id@ && k == asset@) implies #[trigger] spec_internal(
                            v@,
                            id2,
                            k,
                        ) == spec_internal(s0, id2, k) by {
                            if id2 == id@ {
                                assert(kv_get(v@, id2) == Some(v@[i as int].1));
                            }
                        }
                        assert forall|id2: Seq<char>| #[trigger]
                            spec_near(v@, id2) == spec_near(s0, id2) by {
                            if id2 == id@ {
                                assert(kv_get(v@, id2) == Some(v@[i as int].1));
                            }
                        }
                        assert forall|id2: Seq<char>| #[trigger]
                            spec_registered(v@, id2) == spec_registered(s0, id2) by {
                            assert(forall|j: int| 0 <= j < v@.len() ==> v@[j].0@ == s0[j].0@);
                        }
                    }
                    Ok(())
                },
            }
        },
    }
}

} // verus!
