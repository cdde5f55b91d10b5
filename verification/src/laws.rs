//! The laws the ledger keeps.
//!
//! These lemmas state, over the same spec functions the operations'
//! contracts use, the properties that hold of every reachable state:
//! conservation of fungible supply, the sale counter staying within its
//! offer, the fractionalize/unwrap round trip restoring balances, and a
//! second fractionalization of the same id being rejected.

use vstd::prelude::*;

use crate::asset::{AssetId, AssetKey};
use crate::contract::{asset_keys, frac_post, occ, unwrap_post, Contract};
use crate::errors::ContractError;
use crate::kv::{kv_get, kv_idx};
use crate::ledger::{lemma_sum_elem, mt_wf, sum_bal, MultiToken};

verus! {

/// For every fungible token of a well-formed ledger, the sum of all
/// per-account balances equals the recorded total supply. Every
/// operation requires and re-establishes well-formedness, so this holds
/// at all times.
pub proof fn lemma_supply_is_sum(m: MultiToken, t: Seq<char>)
    requires
        mt_wf(m),
    ensures
        match kv_get(m.ft_tokens@, t) {
            Some(ft) => sum_bal(ft.balances@) == ft.supply,
            None => true,
        },
{
    if kv_get(m.ft_tokens@, t) is Some {
        let w = kv_idx(m.ft_tokens@, t);
        assert(0 <= w < m.ft_tokens@.len() && m.ft_tokens@[w].0@ == t);
    }
}

/// No single account holds more of a fungible token than its total
/// supply.
pub proof fn lemma_bal_le_supply(m: MultiToken, owner: Seq<char>, t: Seq<char>)
    requires
        mt_wf(m),
    ensures
        m.spec_bal(owner, t) <= m.spec_supply(t),
{
    if kv_get(m.ft_tokens@, t) is Some {
        let w = kv_idx(m.ft_tokens@, t);
        assert(0 <= w < m.ft_tokens@.len() && m.ft_tokens@[w].0@ == t);
        let ft = m.ft_tokens@[w].1;
        if crate::kv::kv_has(ft.balances@, owner) {
            let b = kv_idx(ft.balances@, owner);
            assert(0 <= b < ft.balances@.len() && ft.balances@[b].0@ == owner);
            lemma_sum_elem(ft.balances@, b);
        }
    }
}

/// For every sale listing of a well-formed state, the units sold so far
/// never exceed the amount on offer. Every operation requires and
/// re-establishes well-formedness, so this holds of all reachable
/// states.
pub proof fn lemma_sold_within_offer(c: Contract, t: Seq<char>)
    requires
        c.wf(),
    ensures
        match c.spec_sale(t) {
            Some(sale) => sale.sold <= sale.amount_to_sell,
            None => true,
        },
{
    if c.spec_sale(t) is Some {
        let w = kv_idx(c.sales.sales@, t);
        assert(0 <= w < c.sales.sales@.len() && c.sales.sales@[w].0@ == t);
    }
}

/// A prefix never holds more occurrences of a key than the whole list.
proof fn lemma_occ_take_le(s: Seq<AssetKey>, i: int, k: AssetKey)
    requires
        0 <= i <= s.len(),
    ensures
        occ(s.take(i), k) <= occ(s, k),
    decreases s.len() - i,
{
    if i == s.len() {
        assert(s.take(i) =~= s);
    } else {
        crate::contract::lemma_occ_take_step(s, i, k);
        lemma_occ_take_le(s, i + 1, k);
    }
}

/// The release pass of an unwrap goes through whenever the receiving
/// account is registered and each credit fits its balance.
proof fn lemma_unwrap_credit_ok(s: Contract, rel: Seq<char>, keys: Seq<AssetKey>, i: int)
    requires
        0 <= i <= keys.len(),
        s.spec_acct_registered(rel),
        forall|j: int|
            i <= j < keys.len() ==> #[trigger] s.spec_internal_balance(rel, keys[j]) + occ(
                keys.take(j),
                keys[j],
            ) + 1 <= u128::MAX,
    ensures
        s.unwrap_credit_err(rel, keys, i) is None,
    decreases keys.len() - i,
{
    if i < keys.len() {
        lemma_unwrap_credit_ok(s, rel, keys, i + 1);
    }
}

/// After fractionalizing a fresh token id with no sale, keeping the
/// claim to oneself, the caller holds the entire supply, so an
/// immediate unwrap is admissible: none of its checks can fail.
pub proof fn lemma_unwrap_admissible_after_fractionalize(
    s0: Contract,
    s1: Contract,
    caller: Seq<char>,
    nfts: Seq<AssetId>,
    mt_id: Seq<char>,
    amount: u128,
    metadata: Option<String>,
)
    requires
        s0.wf(),
        s0.mt.spec_supply(mt_id) == 0,
        s0.spec_acct_registered(caller),
        frac_post(s0, s1, caller, nfts, mt_id, amount, caller, metadata, None),
    ensures
        s1.unwrap_err(mt_id, caller, caller, 1) is None,
{
    lemma_bal_le_supply(s0.mt, caller, mt_id);
    assert(s0.mt.spec_bal(caller, mt_id) == 0);
    assert(s1.mt.spec_bal(caller, mt_id) == amount);
    assert(s1.mt.spec_supply(mt_id) == amount);
    let keys = asset_keys(nfts);
    match s1.spec_record(mt_id) {
        None => {
            assert(false);
        },
        Some(rec) => {
            assert(rec.nfts@ == nfts);
            assert(asset_keys(rec.nfts@) == keys);
            assert forall|j: int|
                0 <= j < keys.len() implies #[trigger] s1.spec_internal_balance(caller, keys[j])
                + occ(keys.take(j), keys[j]) + 1 <= u128::MAX by {
                assert(s1.spec_internal_balance(caller, keys[j]) == s0.spec_internal_balance(
                    caller,
                    keys[j],
                ) - occ(keys, keys[j]));
                crate::contract::lemma_occ_take_step(keys, j, keys[j]);
                lemma_occ_take_le(keys, j + 1, keys[j]);
            }
            lemma_unwrap_credit_ok(s1, caller, keys, 0);
        },
    }
}

/// Fractionalizing a set of assets and unwrapping the claim right away
/// restores the caller's internal balance of every asset to what it was
/// before, and leaves the claim token with zero supply: value is
/// conserved around the round trip.
pub proof fn lemma_fractionalize_unwrap_round_trip(
    s0: Contract,
    s1: Contract,
    s2: Contract,
    caller: Seq<char>,
    nfts: Seq<AssetId>,
    mt_id: Seq<char>,
    amount: u128,
    metadata: Option<String>,
)
    requires
        frac_post(s0, s1, caller, nfts, mt_id, amount, caller, metadata, None),
        unwrap_post(s1, s2, mt_id, caller, caller),
    ensures
        forall|k: AssetKey| #[trigger]
            s2.spec_internal_balance(caller, k) == s0.spec_internal_balance(caller, k),
        forall|i: int|
            0 <= i < nfts.len() ==> #[trigger] s2.spec_internal_balance(caller, nfts[i]@)
                == s0.spec_internal_balance(caller, nfts[i]@),
        forall|id2: Seq<char>, k: AssetKey|
            id2 != caller ==> #[trigger] s2.spec_internal_balance(id2, k)
                == s0.spec_internal_balance(id2, k),
        s2.mt.spec_supply(mt_id) == 0,
{
    let keys = asset_keys(nfts);
    match s1.spec_record(mt_id) {
        None => {
            assert(false);
        },
        Some(rec) => {
            assert(rec.nfts@ == nfts);
            assert(asset_keys(rec.nfts@) == keys);
            assert forall|k: AssetKey| #[trigger]
                s2.spec_internal_balance(caller, k) == s0.spec_internal_balance(caller, k) by {
                assert(s1.spec_internal_balance(caller, k) == s0.spec_internal_balance(caller, k)
                    - occ(keys, k));
                assert(s2.spec_internal_balance(caller, k) == s1.spec_internal_balance(caller, k)
                    + occ(keys, k));
            }
        },
    }
}

/// A purchase must attach exactly `amount * price`: whenever that cost
/// fits the balance domain, any other payment — one unit over or one
/// under as much as any other — is rejected with `WrongDeposit` naming
/// the exact cost, and a rejected purchase, by `sale_buy`'s own
/// contract, changes nothing. A cost beyond the domain is rejected as
/// `Overflow` before the payment is even examined.
pub proof fn lemma_exact_payment_required(
    s: Contract,
    mt_id: Seq<char>,
    amount: u128,
    caller: Seq<char>,
    attached: u128,
)
    requires
        s.mt.spec_mt_registered(caller, mt_id),
        s.spec_sale(mt_id) is Some,
    ensures
        match s.spec_sale(mt_id) {
            None => false,
            Some(sale) => {
                let cost = sale.near_price_per_token * amount;
                &&& (cost <= u128::MAX && attached != cost ==> s.buy_err(
                    mt_id,
                    amount,
                    caller,
                    attached,
                ) == Some(ContractError::WrongDeposit { expected: cost as u128 }))
                &&& (cost > u128::MAX ==> s.buy_err(mt_id, amount, caller, attached) == Some(
                    ContractError::Overflow,
                ))
            },
        },
{
}

/// A purchase splits the payment without losing a unit: together the
/// treasury and the listing owner gain exactly the cost of the
/// purchase, the fee share to the one and the rest to the other.
pub proof fn lemma_buy_splits_payment(
    s0: Contract,
    s1: Contract,
    mt_id: Seq<char>,
    amount: u128,
    caller: Seq<char>,
)
    requires
        s0.wf(),
        crate::contract::buy_post(s0, s1, mt_id, amount, caller),
    ensures
        match s0.spec_sale(mt_id) {
            None => false,
            Some(sale) => {
                let cost = (sale.near_price_per_token * amount) as u128;
                if s0.treasury_id@ == sale.owner@ {
                    s1.spec_near_balance(s0.treasury_id@) == s0.spec_near_balance(s0.treasury_id@)
                        + cost
                } else {
                    s1.spec_near_balance(s0.treasury_id@) + s1.spec_near_balance(sale.owner@)
                        == s0.spec_near_balance(s0.treasury_id@) + s0.spec_near_balance(
                        sale.owner@,
                    ) + cost
                }
            },
        },
{
    match s0.spec_sale(mt_id) {
        None => {
            assert(false);
        },
        Some(sale) => {
            let cost = (sale.near_price_per_token * amount) as u128;
            crate::fee::lemma_fee_le_amount(
                cost,
                s0.sales.platform_fee_numerator,
                crate::fee::FEE_DENOMINATOR,
            );
        },
    }
}

/// Fractionalization is deliberately not idempotent: once a record
/// exists for a token id, any further fractionalization of that id is
/// rejected with `AlreadyFractionalized`, whatever its other arguments.
/// The operation's own contract adds that a rejected call leaves every
/// balance unchanged.
pub proof fn lemma_refractionalize_rejected(
    s0: Contract,
    s1: Contract,
    caller: Seq<char>,
    nfts: Seq<AssetId>,
    mt_id: Seq<char>,
    amount: u128,
    mt_owner: Seq<char>,
    metadata: Option<String>,
    sale: Option<(u128, u128)>,
    caller2: Seq<char>,
    nfts2: Seq<AssetKey>,
    amount2: u128,
    sale2: Option<(u128, u128)>,
    attached2: u128,
    storage_bytes_delta2: i64,
)
    requires
        frac_post(s0, s1, caller, nfts, mt_id, amount, mt_owner, metadata, sale),
    ensures
        s1.frac_err(caller2, nfts2, mt_id, amount2, sale2, attached2, storage_bytes_delta2)
            == Some(ContractError::AlreadyFractionalized),
{
}

} // verus!
