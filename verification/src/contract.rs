//! The contract state and its operations.
//!
//! One value of [`Contract`] holds the whole persistent state: the
//! account store, the multi-token ledger, the fractionalization records
//! and the sale listings. The host is out of scope; every operation
//! takes the caller identity and the attached payment as arguments and
//! returns any refund it owes as a plain number. Each operation either
//! completes and reports its exact effect, or fails and leaves the state
//! untouched.

use vstd::prelude::*;

use crate::accounts::{
    spec_internal, spec_near, spec_registered, store_credit_near, store_internal_credit,
    store_internal_debit, store_register, store_wf, AccountInfo,
};
use crate::asset::{abal_get, abal_unique, AssetId, AssetKey};
use crate::errors::ContractError;
use crate::fee::FEE_DENOMINATOR;
use crate::fractionalizer::{assets_clone, NftFractionalizer, NftInfo};
use crate::kv::{kv_get, kv_has, kv_lookup, kv_set, kv_unique, lemma_kv_get_at};
use crate::ledger::{mt_wf, MultiToken, TokenKind};
use crate::sales::{sale_wf, sales_wf, SaleOptions, Sales};

verus! {

/// What the host charges per byte of storage, in minimal currency units.
pub const STORAGE_BYTE_COST: u128 = 10_000_000_000_000_000_000;

/// The whole contract state.
pub struct Contract {
    /// Registered accounts with their native and internal balances.
    pub accounts: Vec<(String, AccountInfo)>,
    /// The multi-token ledger.
    pub mt: MultiToken,
    /// The account allowed to change platform configuration.
    pub owner_id: String,
    /// The account receiving the platform's share of sale proceeds.
    pub treasury_id: String,
    /// The contract's own identity; custody of tokens on sale.
    pub contract_id: String,
    /// Fractionalization records and the flat mint fee.
    pub nft_fractionalizer: NftFractionalizer,
    /// Sale listings and the platform fee numerator.
    pub sales: Sales,
}

impl Contract {
    /// Well-formedness of the whole state; established by [`Contract::new`]
    /// and preserved by every operation.
    pub open spec fn wf(self) -> bool {
        &&& store_wf(self.accounts@)
        &&& mt_wf(self.mt)
        &&& kv_unique(self.nft_fractionalizer.mt_to_nfts@)
        &&& sales_wf(self.sales)
    }

    /// Whether an account is registered.
    pub open spec fn spec_acct_registered(self, id: Seq<char>) -> bool {
        spec_registered(self.accounts@, id)
    }

    /// An account's native-currency balance; zero when unregistered.
    pub open spec fn spec_near_balance(self, id: Seq<char>) -> u128 {
        spec_near(self.accounts@, id)
    }

    /// An account's internal balance of one asset; zero by default.
    pub open spec fn spec_internal_balance(self, id: Seq<char>, k: AssetKey) -> u128 {
        spec_internal(self.accounts@, id, k)
    }

    /// The fractionalization record for a token id, if any.
    pub open spec fn spec_record(self, t: Seq<char>) -> Option<NftInfo> {
        kv_get(self.nft_fractionalizer.mt_to_nfts@, t)
    }

    /// The sale listing for a token id, if any.
    pub open spec fn spec_sale(self, t: Seq<char>) -> Option<SaleOptions> {
        kv_get(self.sales.sales@, t)
    }

    /// A fresh contract. The owner and treasury default to the caller;
    /// both start registered with empty balances. The fee numerator must
    /// be a genuine fraction of [`FEE_DENOMINATOR`].
    pub fn new(
        caller: &String,
        contract_id: String,
        owner_id: Option<String>,
        treasury: Option<String>,
        nft_mint_fee: Option<u128>,
        sale_fee_numerator: Option<u128>,
    ) -> (r: Contract)
        requires
            (sale_fee_numerator matches Some(f) ==> f <= FEE_DENOMINATOR as u128),
        ensures
            r.wf(),
            r.contract_id@ == contract_id@,
            r.owner_id@ == (match owner_id {
                Some(o) => o@,
                None => caller@,
            }),
            r.treasury_id@ == (match treasury {
                Some(t) => t@,
                None => caller@,
            }),
            r.nft_fractionalizer.mint_fee == (match nft_mint_fee {
                Some(f) => f,
                None => 0,
            }),
            r.sales.platform_fee_numerator == (match sale_fee_numerator {
                Some(f) => f,
                None => 0,
            }),
            r.spec_acct_registered(r.owner_id@),
            r.spec_acct_registered(r.treasury_id@),
            forall|id: Seq<char>| #[trigger] r.spec_near_balance(id) == 0,
            forall|id: Seq<char>, k: AssetKey| #[trigger] r.spec_internal_balance(id, k) == 0,
            forall|t: Seq<char>| #[trigger] r.mt.spec_kind(t) is None,
            forall|t: Seq<char>| #[trigger] r.mt.spec_supply(t) == 0,
            forall|o: Seq<char>, t: Seq<char>| #[trigger] r.mt.spec_bal(o, t) == 0,
            forall|o: Seq<char>, t: Seq<char>| !#[trigger] r.mt.spec_mt_registered(o, t),
            forall|t: Seq<char>| #[trigger] r.spec_record(t) is None,
            forall|t: Seq<char>| #[trigger] r.spec_sale(t) is None,
    {
        let owner_id: String = match owner_id {
            Some(o) => o,
            None => caller.clone(),
        };
        let treasury_id: String = match treasury {
            Some(t) => t,
            None => caller.clone(),
        };
        let mint_fee: u128 = match nft_mint_fee {
            Some(f) => f,
            None => 0,
        };
        let sale_fee: u128 = match sale_fee_numerator {
            Some(f) => f,
            None => 0,
        };
        let mut this = Contract {
            accounts: Vec::new(),
            mt: MultiToken::new(),
            sales: Sales::new(sale_fee),
            owner_id,
            nft_fractionalizer: NftFractionalizer::new(mint_fee),
            treasury_id,
            contract_id,
        };
        let o = this.owner_id.clone();
        store_register(&mut this.accounts, &o);
        let t = this.treasury_id.clone();
        store_register(&mut this.accounts, &t);
        this
    }

    /// Registers an account if it is not yet known. Idempotent; no
    /// balance of any account changes.
    pub fn register_account(&mut self, account_id: &String)
        requires
            old(self).wf(),
        ensures
            final(self).wf(),
            final(self).spec_acct_registered(account_id@),
            forall|id2: Seq<char>|
                id2 != account_id@ ==> final(self).spec_acct_registered(id2) == old(
                    self,
                ).spec_acct_registered(id2),
            forall|id2: Seq<char>| #[trigger]
                final(self).spec_near_balance(id2) == old(self).spec_near_balance(id2),
            forall|id2: Seq<char>, k: AssetKey| #[trigger]
                final(self).spec_internal_balance(id2, k) == old(self).spec_internal_balance(
                    id2,
                    k,
                ),
            final(self).mt == old(self).mt,
            final(self).owner_id == old(self).owner_id,
            final(self).treasury_id == old(self).treasury_id,
            final(self).contract_id == old(self).contract_id,
            final(self).nft_fractionalizer == old(self).nft_fractionalizer,
            final(self).sales == old(self).sales,
    {
        store_register(&mut self.accounts, account_id);
    }

    /// An account's native-currency balance; zero when unregistered.
    pub fn accounts_near_balance_of(&self, account_id: &String) -> (r: u128)
        requires
            self.wf(),
        ensures
            r == self.spec_near_balance(account_id@),
    {
        match kv_lookup(&self.accounts, account_id) {
            None => 0,
            Some(a) => a.near_amount,
        }
    }

    /// An account's internal balance of one asset; zero by default.
    pub fn internal_balance_get_balance(&self, account_id: &String, asset: &AssetId) -> (r: u128)
        requires
            self.wf(),
        ensures
            r == self.spec_internal_balance(account_id@, asset@),
    {
        match kv_lookup(&self.accounts, account_id) {
            None => 0,
            Some(a) => {
                proof {
                    let s = self.accounts@;
                    let w = crate::kv::kv_idx(s, account_id@);
                    assert(0 <= w < s.len() && s[w].0@ == account_id@);
                }
                crate::asset::abal_balance(&a.internal_balance, asset)
            },
        }
    }

    /// Credits an account's internal balance of one asset, as when the
    /// asset is deposited into the contract's custody.
    pub fn internal_balance_increase(
        &mut self,
        account_id: &String,
        asset: &AssetId,
        amount: u128,
    ) -> (r: Result<(), ContractError>)
        requires
            old(self).wf(),
        ensures
            final(self).wf(),
            final(self).mt == old(self).mt,
            final(self).owner_id == old(self).owner_id,
            final(self).treasury_id == old(self).treasury_id,
            final(self).contract_id == old(self).contract_id,
            final(self).nft_fractionalizer == old(self).nft_fractionalizer,
            final(self).sales == old(self).sales,
            match r {
                Ok(()) => {
                    &&& old(self).spec_acct_registered(account_id@)
                    &&& old(self).spec_internal_balance(account_id@, asset@) + amount <= u128::MAX
                    &&& final(self).spec_internal_balance(account_id@, asset@) == old(
                        self,
                    ).spec_internal_balance(account_id@, asset@) + amount
                    &&& forall|id2: Seq<char>, k: AssetKey|
                        !(id2 == account_id@ && k == asset@)
                            ==> #[trigger] final(self).spec_internal_balance(id2, k)
                            == old(self).spec_internal_balance(id2, k)
                    &&& forall|id2: Seq<char>| #[trigger]
                        final(self).spec_near_balance(id2) == old(self).spec_near_balance(id2)
                    &&& forall|id2: Seq<char>| #[trigger]
                        final(self).spec_acct_registered(id2) == old(self).spec_acct_registered(
                            id2,
                        )
                },
                Err(e) => {
                    &&& *final(self) == *old(self)
                    &&& (e == ContractError::NotRegistered || e == ContractError::Overflow)
                    &&& (e == ContractError::NotRegistered <==> !old(self).spec_acct_registered(
                        account_id@,
                    ))
                    &&& (e == ContractError::Overflow <==> old(self).spec_acct_registered(
                        account_id@,
                    ) && old(self).spec_internal_balance(account_id@, asset@) + amount
                        > u128::MAX)
                },
            },
    {
        store_internal_credit(&mut self.accounts, account_id, asset, amount)
    }

    /// Debits an account's internal balance of one asset, as when the
    /// asset is withdrawn from the contract's custody.
    pub fn internal_balance_subtract(
        &mut self,
        account_id: &String,
        asset: &AssetId,
        amount: u128,
    ) -> (r: Result<(), ContractError>)
        requires
            old(self).wf(),
        ensures
            final(self).wf(),
            final(self).mt == old(self).mt,
            final(self).owner_id == old(self).owner_id,
            final(self).treasury_id == old(self).treasury_id,
            final(self).contract_id == old(self).contract_id,
            final(self).nft_fractionalizer == old(self).nft_fractionalizer,
            final(self).sales == old(self).sales,
            match r {
                Ok(()) => {
                    &&& old(self).spec_acct_registered(account_id@)
                    &&& old(self).spec_internal_balance(account_id@, asset@) >= amount
                    &&& final(self).spec_internal_balance(account_id@, asset@) == old(
                        self,
                    ).spec_internal_balance(account_id@, asset@) - amount
                    &&& forall|id2: Seq<char>, k: AssetKey|
                        !(id2 == account_id@ && k == asset@)
                            ==> #[trigger] final(self).spec_internal_balance(id2, k)
                            == old(self).spec_internal_balance(id2, k)
                    &&& forall|id2: Seq<char>| #[trigger]
                        final(self).spec_near_balance(id2) == old(self).spec_near_balance(id2)
                    &&& forall|id2: Seq<char>| #[trigger]
                        final(self).spec_acct_registered(id2) == old(self).spec_acct_registered(
                            id2,
                        )
                },
                Err(e) => {
                    &&& *final(self) == *old(self)
                    &&& (e == ContractError::NotRegistered || e
                        == ContractError::InsufficientBalance)
                    &&& (e == ContractError::NotRegistered <==> !old(self).spec_acct_registered(
                        account_id@,
                    ))
                    &&& (e == ContractError::InsufficientBalance <==> old(
                        self,
                    ).spec_acct_registered(account_id@) && old(self).spec_internal_balance(
                        account_id@,
                        asset@,
                    ) < amount)
                },
            },
    {
        store_internal_debit(&mut self.accounts, account_id, asset, amount)
    }

    /// One account's balance of a fungible token; zero by default.
    pub fn balance_of(&self, owner: &String, token_id: &String) -> (r: u128)
        requires
            self.wf(),
        ensures
            r == self.mt.spec_bal(owner@, token_id@),
    {
        self.mt.balance_of(owner, token_id)
    }

    /// The total supply of a fungible token; zero for unknown ids.
    pub fn total_supply(&self, token_id: &String) -> (r: u128)
        requires
            self.wf(),
        ensures
            r == self.mt.spec_supply(token_id@),
    {
        self.mt.total_supply(token_id)
    }

    /// Gives an account a balance entry for a fungible token, as the
    /// storage-deposit path of the host interface does.
    pub fn mt_register(&mut self, token_id: &String, account_id: &String) -> (r: Result<
        (),
        ContractError,
    >)
        requires
            old(self).wf(),
        ensures
            final(self).wf(),
            final(self).accounts == old(self).accounts,
            final(self).owner_id == old(self).owner_id,
            final(self).treasury_id == old(self).treasury_id,
            final(self).contract_id == old(self).contract_id,
            final(self).nft_fractionalizer == old(self).nft_fractionalizer,
            final(self).sales == old(self).sales,
            match r {
                Ok(()) => {
                    &&& final(self).mt.spec_mt_registered(account_id@, token_id@)
                    &&& forall|o2: Seq<char>, t2: Seq<char>|
                        !(t2 == token_id@ && o2 == account_id@)
                            ==> final(self).mt.spec_mt_registered(o2, t2)
                            == old(self).mt.spec_mt_registered(o2, t2)
                    &&& forall|o2: Seq<char>, t2: Seq<char>| #[trigger]
                        final(self).mt.spec_bal(o2, t2) == old(self).mt.spec_bal(o2, t2)
                    &&& forall|t2: Seq<char>| #[trigger]
                        final(self).mt.spec_supply(t2) == old(self).mt.spec_supply(t2)
                    &&& final(self).mt.token_kind == old(self).mt.token_kind
                    &&& final(self).mt.nft_owner == old(self).mt.nft_owner
                    &&& final(self).mt.metadata == old(self).mt.metadata
                },
                Err(e) => {
                    &&& *final(self) == *old(self)
                    &&& e == ContractError::NotFound
                    &&& !kv_has(old(self).mt.ft_tokens@, token_id@)
                },
            },
    {
        self.mt.internal_register_account(token_id, account_id)
    }

    /// The configured flat fee for minting a fractionalized claim.
    pub fn nft_fractionalize_get_mint_fee(&self) -> (r: u128)
        ensures
            r == self.nft_fractionalizer.mint_fee,
    {
        self.nft_fractionalizer.mint_fee
    }

    /// Changes the flat mint fee. Only the contract owner may; any other
    /// caller fails with `Unauthorized`, changing nothing.
    pub fn nft_fractionalize_update_mint_fee(&mut self, caller: &String, update: u128) -> (r:
        Result<(), ContractError>)
        requires
            old(self).wf(),
        ensures
            final(self).wf(),
            match r {
                Ok(()) => {
                    &&& caller@ == old(self).owner_id@
                    &&& final(self).nft_fractionalizer.mint_fee == update
                    &&& final(self).nft_fractionalizer.mt_to_nfts == old(
                        self,
                    ).nft_fractionalizer.mt_to_nfts
                    &&& final(self).accounts == old(self).accounts
                    &&& final(self).mt == old(self).mt
                    &&& final(self).sales == old(self).sales
                    &&& final(self).owner_id == old(self).owner_id
                    &&& final(self).treasury_id == old(self).treasury_id
                    &&& final(self).contract_id == old(self).contract_id
                },
                Err(e) => {
                    &&& *final(self) == *old(self)
                    &&& e == ContractError::Unauthorized
                    &&& caller@ != old(self).owner_id@
                },
            },
    {
        if !(*caller == self.owner_id) {
            return Err(ContractError::Unauthorized);
        }
        self.nft_fractionalizer.mint_fee = update;
        Ok(())
    }

    /// The list of assets locked behind a fractionalized token id.
    /// Fails with `NotFound` for an id that was never fractionalized.
    pub fn nft_fractionalize_get_underlying(&self, mt_id: &String) -> (r: Result<
        Vec<AssetId>,
        ContractError,
    >)
        requires
            self.wf(),
        ensures
            match r {
                Ok(v) => self.spec_record(mt_id@) matches Some(rec) && v@ == rec.nfts@,
                Err(e) => {
                    &&& e == ContractError::NotFound
                    &&& self.spec_record(mt_id@) is None
                },
            },
    {
        match kv_lookup(&self.nft_fractionalizer.mt_to_nfts, mt_id) {
            None => Err(ContractError::NotFound),
            Some(rec) => Ok(assets_clone(&rec.nfts)),
        }
    }

    /// The sale listing for a token id. Fails with `NoSuchListing` when
    /// none exists.
    pub fn sale_info(&self, mt_id: &String) -> (r: Result<SaleOptions, ContractError>)
        requires
            self.wf(),
        ensures
            match r {
                Ok(sale) => self.spec_sale(mt_id@) == Some(sale),
                Err(e) => {
                    &&& e == ContractError::NoSuchListing
                    &&& self.spec_sale(mt_id@) is None
                },
            },
    {
        match kv_lookup(&self.sales.sales, mt_id) {
            None => Err(ContractError::NoSuchListing),
            Some(sale) => Ok(sale.clone()),
        }
    }

    /// Every sale listing, by token id.
    pub fn sale_get_all_sales(&self) -> (r: Vec<(String, SaleOptions)>)
        requires
            self.wf(),
        ensures
            r@ == self.sales.sales@,
    {
        let mut r: Vec<(String, SaleOptions)> = Vec::new();
        let mut i: usize = 0;
        while i < self.sales.sales.len()
            invariant
                i <= self.sales.sales@.len(),
                r@.len() == i,
                forall|j: int| 0 <= j < i ==> r@[j] == self.sales.sales@[j],
            decreases self.sales.sales@.len() - i,
        {
            let p = &self.sales.sales[i];
            r.push((p.0.clone(), p.1.clone()));
            i = i + 1;
        }
        proof {
            assert(r@ =~= self.sales.sales@);
        }
        r
    }

    /// What stops a purchase, if anything, in the order the checks run:
    /// the buyer must be registered for the token, a listing must exist,
    /// the cost must fit, the payment must match it exactly, the
    /// remaining offer and the custody balance must cover the amount,
    /// and the recipients of the proceeds must be able to take them.
    pub open spec fn buy_err(
        self,
        mt_id: Seq<char>,
        amount: u128,
        caller: Seq<char>,
        attached: u128,
    ) -> Option<ContractError> {
        if !self.mt.spec_mt_registered(caller, mt_id) {
            Some(ContractError::NotRegistered)
        } else {
            match self.spec_sale(mt_id) {
                None => Some(ContractError::NoSuchListing),
                Some(sale) => {
                    let cost = sale.near_price_per_token * amount;
                    if cost > u128::MAX {
                        Some(ContractError::Overflow)
                    } else if attached != cost {
                        Some(ContractError::WrongDeposit { expected: cost as u128 })
                    } else if amount > sale.amount_to_sell - sale.sold {
                        Some(ContractError::ExceedsRemaining)
                    } else if self.mt.spec_bal(self.contract_id@, mt_id) < amount {
                        Some(ContractError::InsufficientBalance)
                    } else if !self.spec_acct_registered(self.treasury_id@) {
                        Some(ContractError::NotRegistered)
                    } else if !self.spec_acct_registered(sale.owner@) {
                        Some(ContractError::NotRegistered)
                    } else {
                        let fee = crate::fee::fee_of(
                            cost as u128,
                            self.sales.platform_fee_numerator,
                            FEE_DENOMINATOR,
                        );
                        if self.treasury_id@ == sale.owner@ {
                            if self.spec_near_balance(self.treasury_id@) + cost > u128::MAX {
                                Some(ContractError::Overflow)
                            } else {
                                None
                            }
                        } else {
                            if self.spec_near_balance(self.treasury_id@) + fee > u128::MAX {
                                Some(ContractError::Overflow)
                            } else if self.spec_near_balance(sale.owner@) + (cost - fee)
                                > u128::MAX {
                                Some(ContractError::Overflow)
                            } else {
                                None
                            }
                        }
                    }
                },
            }
        }
    }

    /// Creates a sale listing for a token id. Fails with `ListingExists`,
    /// changing nothing, when one already exists.
    pub fn sales_create(&mut self, mt_id: &String, sale: SaleOptions) -> (r: Result<
        (),
        ContractError,
    >)
        requires
            old(self).wf(),
            sale.sold <= sale.amount_to_sell,
        ensures
            final(self).wf(),
            final(self).accounts == old(self).accounts,
            final(self).mt == old(self).mt,
            final(self).owner_id == old(self).owner_id,
            final(self).treasury_id == old(self).treasury_id,
            final(self).contract_id == old(self).contract_id,
            final(self).nft_fractionalizer == old(self).nft_fractionalizer,
            final(self).sales.platform_fee_numerator == old(self).sales.platform_fee_numerator,
            match r {
                Ok(()) => {
                    &&& old(self).spec_sale(mt_id@) is None
                    &&& final(self).spec_sale(mt_id@) == Some(sale)
                    &&& forall|t2: Seq<char>|
                        t2 != mt_id@ ==> final(self).spec_sale(t2) == old(self).spec_sale(t2)
                },
                Err(e) => {
                    &&& *final(self) == *old(self)
                    &&& e == ContractError::ListingExists
                    &&& old(self).spec_sale(mt_id@) is Some
                },
            },
    {
        let ghost ss0 = self.sales.sales@;
        match crate::kv::kv_find(&self.sales.sales, mt_id) {
            Some(i) => {
                proof {
                    lemma_kv_get_at(ss0, mt_id@, i as int);
                }
                Err(ContractError::ListingExists)
            },
            None => {
                kv_set(&mut self.sales.sales, mt_id, sale);
                proof {
                    assert forall|i: int| 0 <= i < self.sales.sales@.len() implies sale_wf(
                        #[trigger] self.sales.sales@[i].1,
                    ) by {
                        if 0 <= i < ss0.len() {
                            if self.sales.sales@[i] == ss0[i] {
                            } else {
                                assert(self.sales.sales@[i].1 == sale);
                            }
                        } else {
                            assert(self.sales.sales@[i].1 == sale);
                        }
                    }
                }
                Ok(())
            },
        }
    }
}

/// The exact effect of a successful purchase: the payment is split
/// between treasury and listing owner by the platform fee, the bought
/// units move from the contract's custody to the buyer, and the
/// listing's sold counter grows by the amount. Nothing else changes.
pub open spec fn buy_post(
    s0: Contract,
    s1: Contract,
    mt_id: Seq<char>,
    amount: u128,
    caller: Seq<char>,
) -> bool {
    match s0.spec_sale(mt_id) {
        None => false,
        Some(sale) => {
            let cost = (sale.near_price_per_token * amount) as u128;
            let fee = crate::fee::fee_of(cost, s0.sales.platform_fee_numerator, FEE_DENOMINATOR)
                as u128;
            let to_owner = (cost - fee) as u128;
            &&& (if s0.treasury_id@ == sale.owner@ {
                &&& s1.spec_near_balance(s0.treasury_id@) == s0.spec_near_balance(s0.treasury_id@)
                    + cost
                &&& forall|id2: Seq<char>|
                    id2 != s0.treasury_id@ ==> s1.spec_near_balance(id2) == s0.spec_near_balance(
                        id2,
                    )
            } else {
                &&& s1.spec_near_balance(s0.treasury_id@) == s0.spec_near_balance(s0.treasury_id@)
                    + fee
                &&& s1.spec_near_balance(sale.owner@) == s0.spec_near_balance(sale.owner@)
                    + to_owner
                &&& forall|id2: Seq<char>|
                    id2 != s0.treasury_id@ && id2 != sale.owner@ ==> s1.spec_near_balance(id2)
                        == s0.spec_near_balance(id2)
            })
            &&& forall|id2: Seq<char>, k: AssetKey| #[trigger]
                s1.spec_internal_balance(id2, k) == s0.spec_internal_balance(id2, k)
            &&& forall|id2: Seq<char>| #[trigger]
                s1.spec_acct_registered(id2) == s0.spec_acct_registered(id2)
            &&& (if caller == s0.contract_id@ {
                forall|o2: Seq<char>, t2: Seq<char>| #[trigger]
                    s1.mt.spec_bal(o2, t2) == s0.mt.spec_bal(o2, t2)
            } else {
                &&& s1.mt.spec_bal(s0.contract_id@, mt_id) == s0.mt.spec_bal(
                    s0.contract_id@,
                    mt_id,
                ) - amount
                &&& s1.mt.spec_bal(caller, mt_id) == s0.mt.spec_bal(caller, mt_id) + amount
                &&& forall|o2: Seq<char>, t2: Seq<char>|
                    !(t2 == mt_id && (o2 == s0.contract_id@ || o2 == caller))
                        ==> s1.mt.spec_bal(o2, t2) == s0.mt.spec_bal(o2, t2)
            })
            &&& forall|o2: Seq<char>, t2: Seq<char>| #[trigger]
                s1.mt.spec_mt_registered(o2, t2) == s0.mt.spec_mt_registered(o2, t2)
            &&& forall|t2: Seq<char>| #[trigger] s1.mt.spec_supply(t2) == s0.mt.spec_supply(t2)
            &&& s1.mt.token_kind == s0.mt.token_kind
            &&& s1.mt.nft_owner == s0.mt.nft_owner
            &&& s1.mt.metadata == s0.mt.metadata
            &&& match s1.spec_sale(mt_id) {
                Some(ns) => {
                    &&& ns.amount_to_sell == sale.amount_to_sell
                    &&& ns.near_price_per_token == sale.near_price_per_token
                    &&& ns.owner@ == sale.owner@
                    &&& ns.sold == sale.sold + amount
                },
                None => false,
            }
            &&& forall|t2: Seq<char>| t2 != mt_id ==> s1.spec_sale(t2) == s0.spec_sale(t2)
            &&& s1.sales.platform_fee_numerator == s0.sales.platform_fee_numerator
            &&& s1.nft_fractionalizer == s0.nft_fractionalizer
            &&& s1.owner_id == s0.owner_id
            &&& s1.treasury_id == s0.treasury_id
            &&& s1.contract_id == s0.contract_id
        },
    }
}

/// The mathematical identities of a list of asset ids.
pub open spec fn asset_keys(nfts: Seq<AssetId>) -> Seq<AssetKey> {
    nfts.map_values(|a: AssetId| a@)
}

/// How many times key `k` occurs in a list of asset keys.
pub open spec fn occ(s: Seq<AssetKey>, k: AssetKey) -> int
    decreases s.len(),
{
    if s.len() == 0 {
        0
    } else {
        occ(s.drop_last(), k) + if s.last() == k {
            1int
        } else {
            0int
        }
    }
}

/// Occurrence counts grow one prefix step at a time.
pub proof fn lemma_occ_take_step(s: Seq<AssetKey>, i: int, k: AssetKey)
    requires
        0 <= i < s.len(),
    ensures
        occ(s.take(i + 1), k) == occ(s.take(i), k) + if s[i] == k {
            1int
        } else {
            0int
        },
{
    assert(s.take(i + 1).drop_last() =~= s.take(i));
    assert(s.take(i + 1).last() == s[i]);
}

/// The sale parameters take effect only when both are supplied.
pub open spec fn spec_sale_pair(sale_amount: Option<u128>, sale_price: Option<u128>) -> Option<
    (u128, u128),
> {
    match (sale_amount, sale_price) {
        (Some(a), Some(p)) => Some((a, p)),
        _ => None,
    }
}

impl Contract {
    /// What stops the debit pass of a fractionalization at or after
    /// position `i`, if anything. Each asset in turn must not be plainly
    /// fungible, the caller must be registered, and the caller's
    /// internal balance must cover one unit per occurrence so far.
    pub open spec fn frac_debit_err(
        self,
        caller: Seq<char>,
        nfts: Seq<AssetKey>,
        i: int,
    ) -> Option<ContractError>
        recommends
            0 <= i <= nfts.len(),
        decreases nfts.len() - i,
    {
        if i < 0 || i >= nfts.len() {
            None
        } else if crate::asset::key_is_ft(nfts[i]) {
            Some(ContractError::WrongAssetKind)
        } else if !self.spec_acct_registered(caller) {
            Some(ContractError::NotRegistered)
        } else if self.spec_internal_balance(caller, nfts[i]) < 1 + occ(nfts.take(i), nfts[i]) {
            Some(ContractError::InsufficientBalance)
        } else {
            self.frac_debit_err(caller, nfts, i + 1)
        }
    }

    /// What stops the deposit reconciliation of a fractionalization, if
    /// anything: the required deposit must fit and be covered.
    pub open spec fn frac_deposit_err(self, attached: u128, storage_bytes_delta: i64) -> Option<
        ContractError,
    > {
        let req = crate::fee::spec_required_deposit(
            storage_bytes_delta,
            STORAGE_BYTE_COST,
            self.nft_fractionalizer.mint_fee,
        );
        if req > u128::MAX {
            Some(ContractError::Overflow)
        } else if attached < req {
            Some(ContractError::InsufficientDeposit { required: req as u128 })
        } else {
            None
        }
    }

    /// What stops a fractionalization, if anything, in the order the
    /// checks run: no prior record for the id, the locked assets
    /// debitable, the fungible mint admissible, the optional sale within
    /// the minted supply and not clashing with a listing, and the
    /// attached deposit sufficient.
    pub open spec fn frac_err(
        self,
        caller: Seq<char>,
        nfts: Seq<AssetKey>,
        mt_id: Seq<char>,
        amount: u128,
        sale: Option<(u128, u128)>,
        attached: u128,
        storage_bytes_delta: i64,
    ) -> Option<ContractError> {
        if self.spec_record(mt_id) is Some {
            Some(ContractError::AlreadyFractionalized)
        } else if self.frac_debit_err(caller, nfts, 0) is Some {
            self.frac_debit_err(caller, nfts, 0)
        } else if crate::ledger::mint_err(self.mt, mt_id, TokenKind::Ft, Some(amount)) is Some {
            crate::ledger::mint_err(self.mt, mt_id, TokenKind::Ft, Some(amount))
        } else {
            match sale {
                Some((sa, sp)) => {
                    if sa > amount {
                        Some(ContractError::InvalidAmount)
                    } else if self.spec_sale(mt_id) is Some {
                        Some(ContractError::ListingExists)
                    } else {
                        self.frac_deposit_err(attached, storage_bytes_delta)
                    }
                },
                None => self.frac_deposit_err(attached, storage_bytes_delta),
            }
        }
    }
}

/// The exact effect of a successful fractionalization: one unit of each
/// listed asset (per occurrence) leaves the caller's internal balances,
/// `amount` units of a fungible claim are minted to `mt_owner`, a record
/// of the locked assets is created, and, when a sale is asked for, the
/// sale amount moves to the contract's custody under a fresh listing.
pub open spec fn frac_post(
    s0: Contract,
    s1: Contract,
    caller: Seq<char>,
    nfts: Seq<AssetId>,
    mt_id: Seq<char>,
    amount: u128,
    mt_owner: Seq<char>,
    metadata: Option<String>,
    sale: Option<(u128, u128)>,
) -> bool {
    let keys = asset_keys(nfts);
    &&& forall|k: AssetKey| #[trigger]
        s1.spec_internal_balance(caller, k) == s0.spec_internal_balance(caller, k) - occ(keys, k)
    &&& forall|id2: Seq<char>, k: AssetKey|
        id2 != caller ==> #[trigger] s1.spec_internal_balance(id2, k)
            == s0.spec_internal_balance(id2, k)
    &&& forall|id2: Seq<char>| #[trigger] s1.spec_near_balance(id2) == s0.spec_near_balance(id2)
    &&& forall|id2: Seq<char>| #[trigger]
        s1.spec_acct_registered(id2) == s0.spec_acct_registered(id2)
    &&& s1.mt.spec_kind(mt_id) == Some(TokenKind::Ft)
    &&& forall|t2: Seq<char>| t2 != mt_id ==> s1.mt.spec_kind(t2) == s0.mt.spec_kind(t2)
    &&& s1.mt.spec_supply(mt_id) == s0.mt.spec_supply(mt_id) + amount
    &&& forall|t2: Seq<char>| t2 != mt_id ==> s1.mt.spec_supply(t2) == s0.mt.spec_supply(t2)
    &&& (match sale {
        None => {
            &&& s1.mt.spec_bal(mt_owner, mt_id) == s0.mt.spec_bal(mt_owner, mt_id) + amount
            &&& forall|o2: Seq<char>, t2: Seq<char>|
                !(t2 == mt_id && o2 == mt_owner) ==> s1.mt.spec_bal(o2, t2) == s0.mt.spec_bal(
                    o2,
                    t2,
                )
            &&& s1.spec_sale(mt_id) == s0.spec_sale(mt_id)
        },
        Some((sa, sp)) => {
            &&& (if mt_owner == s0.contract_id@ {
                &&& s1.mt.spec_bal(mt_owner, mt_id) == s0.mt.spec_bal(mt_owner, mt_id) + amount
                &&& forall|o2: Seq<char>, t2: Seq<char>|
                    !(t2 == mt_id && o2 == mt_owner) ==> s1.mt.spec_bal(o2, t2) == s0.mt.spec_bal(
                        o2,
                        t2,
                    )
            } else {
                &&& s1.mt.spec_bal(mt_owner, mt_id) == s0.mt.spec_bal(mt_owner, mt_id) + amount
                    - sa
                &&& s1.mt.spec_bal(s0.contract_id@, mt_id) == s0.mt.spec_bal(
                    s0.contract_id@,
                    mt_id,
                ) + sa
                &&& forall|o2: Seq<char>, t2: Seq<char>|
                    !(t2 == mt_id && (o2 == mt_owner || o2 == s0.contract_id@))
                        ==> s1.mt.spec_bal(o2, t2) == s0.mt.spec_bal(o2, t2)
            })
            &&& match s1.spec_sale(mt_id) {
                Some(nsale) => {
                    &&& nsale.amount_to_sell == sa
                    &&& nsale.near_price_per_token == sp
                    &&& nsale.sold == 0
                    &&& nsale.owner@ == mt_owner
                },
                None => false,
            }
        },
    })
    &&& forall|t2: Seq<char>| t2 != mt_id ==> s1.spec_sale(t2) == s0.spec_sale(t2)
    &&& s1.sales.platform_fee_numerator == s0.sales.platform_fee_numerator
    &&& s1.mt.spec_mt_registered(mt_owner, mt_id)
    &&& (sale is Some ==> s1.mt.spec_mt_registered(s0.contract_id@, mt_id))
    &&& forall|o2: Seq<char>, t2: Seq<char>|
        !(t2 == mt_id && (o2 == mt_owner || o2 == s0.contract_id@))
            ==> s1.mt.spec_mt_registered(o2, t2) == s0.mt.spec_mt_registered(o2, t2)
    &&& match s1.spec_record(mt_id) {
        Some(rec) => rec.nfts@ == nfts && rec.unwrapped == false,
        None => false,
    }
    &&& forall|t2: Seq<char>| t2 != mt_id ==> s1.spec_record(t2) == s0.spec_record(t2)
    &&& s1.nft_fractionalizer.mint_fee == s0.nft_fractionalizer.mint_fee
    &&& s1.mt.spec_meta(mt_id) == (if s0.mt.spec_meta(mt_id) is Some {
        s0.mt.spec_meta(mt_id)
    } else {
        match metadata {
            Some(md) => Some(md@),
            None => None,
        }
    })
    &&& forall|t2: Seq<char>| t2 != mt_id ==> s1.mt.spec_meta(t2) == s0.mt.spec_meta(t2)
    &&& s1.mt.nft_owner == s0.mt.nft_owner
    &&& s1.owner_id == s0.owner_id
    &&& s1.treasury_id == s0.treasury_id
    &&& s1.contract_id == s0.contract_id
}

impl Contract {
    /// What stops the release pass of an unwrap at or after position
    /// `i`, if anything: the receiving account must be registered and
    /// each credited unit must fit its balance.
    pub open spec fn unwrap_credit_err(
        self,
        release_to: Seq<char>,
        nfts: Seq<AssetKey>,
        i: int,
    ) -> Option<ContractError>
        recommends
            0 <= i <= nfts.len(),
        decreases nfts.len() - i,
    {
        if i < 0 || i >= nfts.len() {
            None
        } else if !self.spec_acct_registered(release_to) {
            Some(ContractError::NotRegistered)
        } else if self.spec_internal_balance(release_to, nfts[i]) + occ(nfts.take(i), nfts[i]) + 1
            > u128::MAX {
            Some(ContractError::Overflow)
        } else {
            self.unwrap_credit_err(release_to, nfts, i + 1)
        }
    }

    /// What stops an unwrap, if anything, in the order the checks run:
    /// the anti-griefing payment of exactly one unit, an active (not yet
    /// unwrapped) record, sole ownership of the whole supply, and the
    /// release credits landing in a registered account without
    /// overflowing.
    pub open spec fn unwrap_err(
        self,
        mt_id: Seq<char>,
        caller: Seq<char>,
        release_to: Seq<char>,
        attached: u128,
    ) -> Option<ContractError> {
        if attached != 1 {
            Some(ContractError::WrongDeposit { expected: 1 })
        } else {
            match self.spec_record(mt_id) {
                None => Some(ContractError::NotFound),
                Some(rec) => {
                    if rec.unwrapped {
                        Some(ContractError::AlreadyUnwrapped)
                    } else if self.mt.spec_bal(caller, mt_id) != self.mt.spec_supply(mt_id) {
                        Some(ContractError::NotSoleHolder)
                    } else {
                        self.unwrap_credit_err(release_to, asset_keys(rec.nfts@), 0)
                    }
                },
            }
        }
    }
}

/// The exact effect of a successful unwrap: the caller's whole balance
/// (the entire supply) of the claim token is burned, one unit of each
/// locked asset (per occurrence) is credited to the release account's
/// internal balances, and the record turns terminal. Nothing else
/// changes.
pub open spec fn unwrap_post(
    s0: Contract,
    s1: Contract,
    mt_id: Seq<char>,
    caller: Seq<char>,
    release_to: Seq<char>,
) -> bool {
    match s0.spec_record(mt_id) {
        None => false,
        Some(rec) => {
            let keys = asset_keys(rec.nfts@);
            &&& forall|k: AssetKey| #[trigger]
                s1.spec_internal_balance(release_to, k) == s0.spec_internal_balance(release_to, k)
                    + occ(keys, k)
            &&& forall|id2: Seq<char>, k: AssetKey|
                id2 != release_to ==> #[trigger] s1.spec_internal_balance(id2, k)
                    == s0.spec_internal_balance(id2, k)
            &&& forall|id2: Seq<char>| #[trigger]
                s1.spec_near_balance(id2) == s0.spec_near_balance(id2)
            &&& forall|id2: Seq<char>| #[trigger]
                s1.spec_acct_registered(id2) == s0.spec_acct_registered(id2)
            &&& s1.mt.spec_bal(caller, mt_id) == 0
            &&& s1.mt.spec_supply(mt_id) == 0
            &&& forall|o2: Seq<char>, t2: Seq<char>|
                !(t2 == mt_id && o2 == caller) ==> s1.mt.spec_bal(o2, t2) == s0.mt.spec_bal(
                    o2,
                    t2,
                )
            &&& forall|t2: Seq<char>| t2 != mt_id ==> s1.mt.spec_supply(t2) == s0.mt.spec_supply(t2)
            &&& forall|o2: Seq<char>, t2: Seq<char>| #[trigger]
                s1.mt.spec_mt_registered(o2, t2) == s0.mt.spec_mt_registered(o2, t2)
            &&& s1.mt.token_kind == s0.mt.token_kind
            &&& s1.mt.nft_owner == s0.mt.nft_owner
            &&& s1.mt.metadata == s0.mt.metadata
            &&& match s1.spec_record(mt_id) {
                Some(nr) => nr.nfts@ == rec.nfts@ && nr.unwrapped,
                None => false,
            }
            &&& forall|t2: Seq<char>| t2 != mt_id ==> s1.spec_record(t2) == s0.spec_record(t2)
            &&& s1.nft_fractionalizer.mint_fee == s0.nft_fractionalizer.mint_fee
            &&& s1.sales == s0.sales
            &&& s1.owner_id == s0.owner_id
            &&& s1.treasury_id == s0.treasury_id
            &&& s1.contract_id == s0.contract_id
        },
    }
}

impl Contract {
    /// Burns the caller's entire balance of a fractionalized claim
    /// token, which must be its whole supply, releases the locked assets
    /// into the release account's internal balances (the caller's by
    /// default), and marks the record terminal. The attached payment
    /// must be exactly one minimal unit. Fails, changing nothing,
    /// exactly as [`Contract::unwrap_err`] says.
    #[verifier::rlimit(100)]
    pub fn nft_fractionalize_unwrap(
        &mut self,
        mt_id: &String,
        release_to: Option<String>,
        caller: &String,
        attached: u128,
    ) -> (r: Result<(), ContractError>)
        requires
            old(self).wf(),
        ensures
            final(self).wf(),
            match r {
                Ok(()) => ({
                    let rel = match release_to {
                        Some(x) => x@,
                        None => caller@,
                    };
                    &&& old(self).unwrap_err(mt_id@, caller@, rel, attached) is None
                    &&& unwrap_post(*old(self), *final(self), mt_id@, caller@, rel)
                }),
                Err(e) => {
                    &&& *final(self) == *old(self)
                    &&& old(self).unwrap_err(
                        mt_id@,
                        caller@,
                        (match release_to {
                            Some(x) => x@,
                            None => caller@,
                        }),
                        attached,
                    ) == Some(e)
                },
            },
    {
        let ghost c0 = *self;
        if attached != 1 {
            return Err(ContractError::WrongDeposit { expected: 1 });
        }
        let i: usize = match crate::kv::kv_find(&self.nft_fractionalizer.mt_to_nfts, mt_id) {
            None => {
                return Err(ContractError::NotFound);
            },
            Some(i) => i,
        };
        proof {
            lemma_kv_get_at(self.nft_fractionalizer.mt_to_nfts@, mt_id@, i as int);
        }
        if self.nft_fractionalizer.mt_to_nfts[i].1.unwrapped {
            return Err(ContractError::AlreadyUnwrapped);
        }
        let caller_bal: u128 = self.mt.balance_of(caller, mt_id);
        let supply: u128 = self.mt.total_supply(mt_id);
        if caller_bal != supply {
            return Err(ContractError::NotSoleHolder);
        }
        let rel: String = match release_to {
            Some(x) => x,
            None => caller.clone(),
        };
        let ghost rel_k = rel@;
        let ghost keys = asset_keys(self.nft_fractionalizer.mt_to_nfts@[i as int].1.nfts@);
        // simulate the release credits on a copy of the receiving
        // account's balance table, so a failure leaves the state untouched
        let acct_idx: Option<usize> = crate::kv::kv_find(&self.accounts, &rel);
        let mut ib: Vec<(AssetId, u128)> = match acct_idx {
            Some(ai) => {
                proof {
                    lemma_kv_get_at(self.accounts@, rel_k, ai as int);
                }
                crate::asset::abal_clone(&self.accounts[ai].1.internal_balance)
            },
            None => Vec::new(),
        };
        let n: usize = self.nft_fractionalizer.mt_to_nfts[i].1.nfts.len();
        let mut j: usize = 0;
        while j < n
            invariant
                j <= n,
                *self == c0,
                c0.wf(),
                0 <= i < c0.nft_fractionalizer.mt_to_nfts@.len(),
                c0.nft_fractionalizer.mt_to_nfts@[i as int].0@ == mt_id@,
                c0.spec_record(mt_id@) == Some(c0.nft_fractionalizer.mt_to_nfts@[i as int].1),
                attached == 1,
                c0.nft_fractionalizer.mt_to_nfts@[i as int].1.unwrapped == false,
                c0.mt.spec_bal(caller@, mt_id@) == c0.mt.spec_supply(mt_id@),
                (release_to matches Some(x) ==> rel_k == x@),
                (release_to is None ==> rel_k == caller@),
                n == c0.nft_fractionalizer.mt_to_nfts@[i as int].1.nfts@.len(),
                keys == asset_keys(c0.nft_fractionalizer.mt_to_nfts@[i as int].1.nfts@),
                keys.len() == n,
                abal_unique(ib@),
                c0.unwrap_credit_err(rel_k, keys, 0) == c0.unwrap_credit_err(
                    rel_k,
                    keys,
                    j as int,
                ),
                match acct_idx {
                    Some(ai) => {
                        &&& 0 <= ai < c0.accounts@.len()
                        &&& c0.accounts@[ai as int].0@ == rel_k
                        &&& c0.spec_acct_registered(rel_k)
                        &&& forall|k: AssetKey| #[trigger]
                            abal_get(ib@, k) == c0.spec_internal_balance(rel_k, k) + occ(
                                keys.take(j as int),
                                k,
                            )
                    },
                    None => !c0.spec_acct_registered(rel_k) && j == 0,
                },
            decreases n - j,
        {
            let ghost jj = j as int;
            proof {
                assert(keys[jj] == c0.nft_fractionalizer.mt_to_nfts@[i as int].1.nfts@[jj]@);
            }
            match acct_idx {
                None => {
                    proof {
                        assert(c0.unwrap_credit_err(rel_k, keys, jj) == Some(
                            ContractError::NotRegistered,
                        ));
                        assert(c0.unwrap_err(mt_id@, caller@, rel_k, attached) == Some(
                            ContractError::NotRegistered,
                        ));
                    }
                    return Err(ContractError::NotRegistered);
                },
                Some(_) => {
                },
            }
            let a = &self.nft_fractionalizer.mt_to_nfts[i].1.nfts[j];
            match crate::asset::abal_credit(&mut ib, a, 1) {
                Err(_) => {
                    proof {
                        assert(c0.unwrap_credit_err(rel_k, keys, jj) == Some(
                            ContractError::Overflow,
                        ));
                        assert(c0.unwrap_err(mt_id@, caller@, rel_k, attached) == Some(
                            ContractError::Overflow,
                        ));
                    }
                    return Err(ContractError::Overflow);
                },
                Ok(()) => {
                },
            }
            proof {
                assert(c0.unwrap_credit_err(rel_k, keys, jj) == c0.unwrap_credit_err(
                    rel_k,
                    keys,
                    jj + 1,
                ));
                assert forall|k: AssetKey| #[trigger]
                    abal_get(ib@, k) == c0.spec_internal_balance(rel_k, k) + occ(
                        keys.take(jj + 1),
                        k,
                    ) by {
                    lemma_occ_take_step(keys, jj, k);
                }
            }
            j = j + 1;
        }
        proof {
            assert(c0.unwrap_credit_err(rel_k, keys, n as int) is None);
            assert(c0.unwrap_err(mt_id@, caller@, rel_k, attached) is None);
        }
        // every check has passed; apply the effects
        match self.mt.internal_withdraw(mt_id, caller, supply) {
            Ok(()) => {
            },
            Err(e) => {
                proof {
                    assert(false);
                }
                return Err(e);
            },
        }
        let ghost c1 = *self;
        match acct_idx {
            Some(ai) => {
                let elem = &mut self.accounts[ai];
                elem.1.internal_balance = ib;
                proof {
                    crate::kv::lemma_kv_update(c1.accounts@, self.accounts@, ai as int, rel_k);
                    assert forall|jx: int| 0 <= jx < self.accounts@.len() implies abal_unique(
                        #[trigger] self.accounts@[jx].1.internal_balance@,
                    ) by {
                        if jx != ai {
                            assert(self.accounts@[jx] == c1.accounts@[jx]);
                        }
                    }
                    assert(keys.take(n as int) =~= keys);
                    assert forall|k: AssetKey| #[trigger]
                        self.spec_internal_balance(rel_k, k) == c0.spec_internal_balance(rel_k, k)
                        + occ(keys, k) by {
                        assert(kv_get(self.accounts@, rel_k) == Some(self.accounts@[ai as int].1));
                    }
                    assert forall|id2: Seq<char>, k: AssetKey|
                        id2 != rel_k implies #[trigger] self.spec_internal_balance(id2, k)
                        == c0.spec_internal_balance(id2, k) by {
                        assert(kv_get(self.accounts@, id2) == kv_get(c1.accounts@, id2));
                    }
                    assert forall|id2: Seq<char>| #[trigger]
                        self.spec_near_balance(id2) == c0.spec_near_balance(id2) by {
                        if id2 == rel_k {
                            assert(kv_get(self.accounts@, id2) == Some(
                                self.accounts@[ai as int].1,
                            ));
                        } else {
                            assert(kv_get(self.accounts@, id2) == kv_get(c1.accounts@, id2));
                        }
                    }
                    assert forall|id2: Seq<char>| #[trigger]
                        self.spec_acct_registered(id2) == c0.spec_acct_registered(id2) by {
                        assert(forall|jx: int|
                            0 <= jx < self.accounts@.len() ==> self.accounts@[jx].0@
                                == c1.accounts@[jx].0@);
                    }
                }
            },
            None => {
                proof {
                    assert(n == 0);
                    assert(keys.take(0) =~= keys);
                    assert forall|k: AssetKey| #[trigger]
                        self.spec_internal_balance(rel_k, k) == c0.spec_internal_balance(rel_k, k)
                        + occ(keys, k) by {
                        assert(occ(keys, k) == 0);
                        assert(self.accounts == c1.accounts);
                    }
                    assert(forall|id2: Seq<char>, k: AssetKey|
                        id2 != rel_k ==> #[trigger] self.spec_internal_balance(id2, k)
                            == c0.spec_internal_balance(id2, k));
                    assert(forall|id2: Seq<char>| #[trigger]
                        self.spec_near_balance(id2) == c0.spec_near_balance(id2));
                    assert(forall|id2: Seq<char>| #[trigger]
                        self.spec_acct_registered(id2) == c0.spec_acct_registered(id2));
                }
            },
        }
        let ghost c2 = *self;
        // mark the record terminal
        let elem = &mut self.nft_fractionalizer.mt_to_nfts[i];
        elem.1.unwrapped = true;
        proof {
            crate::kv::lemma_kv_update(
                c2.nft_fractionalizer.mt_to_nfts@,
                self.nft_fractionalizer.mt_to_nfts@,
                i as int,
                mt_id@,
            );
            assert forall|t2: Seq<char>|
                t2 != mt_id@ implies self.spec_record(t2) == c0.spec_record(t2) by {
                assert(kv_get(self.nft_fractionalizer.mt_to_nfts@, t2) == kv_get(
                    c2.nft_fractionalizer.mt_to_nfts@,
                    t2,
                ));
            }
            assert(self.accounts == c2.accounts);
            assert(self.mt == c1.mt);
            assert forall|k: AssetKey| #[trigger]
                self.spec_internal_balance(rel_k, k) == c0.spec_internal_balance(rel_k, k) + occ(
                    keys,
                    k,
                ) by {
                assert(c2.spec_internal_balance(rel_k, k) == c0.spec_internal_balance(rel_k, k)
                    + occ(keys, k));
            }
            assert forall|id2: Seq<char>, k: AssetKey|
                id2 != rel_k implies #[trigger] self.spec_internal_balance(id2, k)
                == c0.spec_internal_balance(id2, k) by {
                assert(c2.spec_internal_balance(id2, k) == c0.spec_internal_balance(id2, k));
            }
            assert forall|id2: Seq<char>| #[trigger]
                self.spec_near_balance(id2) == c0.spec_near_balance(id2) by {
                assert(c2.spec_near_balance(id2) == c0.spec_near_balance(id2));
            }
            assert forall|id2: Seq<char>| #[trigger]
                self.spec_acct_registered(id2) == c0.spec_acct_registered(id2) by {
                assert(c2.spec_acct_registered(id2) == c0.spec_acct_registered(id2));
            }
            assert(unwrap_post(c0, *self, mt_id@, caller@, rel_k));
        }
        Ok(())
    }
}

impl Contract {
    /// Buys `amount` units of a listed token. The attached payment must
    /// equal `amount * price` exactly; it is split between treasury and
    /// listing owner by the platform fee, and the units move from the
    /// contract's custody to the buyer. Fails, changing nothing, exactly
    /// as [`Contract::buy_err`] says.
    pub fn sale_buy(&mut self, mt_id: &String, amount: u128, caller: &String, attached: u128) -> (r:
        Result<(), ContractError>)
        requires
            old(self).wf(),
        ensures
            final(self).wf(),
            match r {
                Ok(()) => {
                    &&& old(self).buy_err(mt_id@, amount, caller@, attached) is None
                    &&& buy_post(*old(self), *final(self), mt_id@, amount, caller@)
                },
                Err(e) => {
                    &&& *final(self) == *old(self)
                    &&& old(self).buy_err(mt_id@, amount, caller@, attached) == Some(e)
                },
            },
    {
        let ghost c0 = *self;
        if !self.mt.is_mt_registered(caller, mt_id) {
            return Err(ContractError::NotRegistered);
        }
        let ghost ss0 = self.sales.sales@;
        let (amount_to_sell, price, sold, sale_owner): (u128, u128, u128, String) = match kv_lookup(
            &self.sales.sales,
            mt_id,
        ) {
            None => {
                return Err(ContractError::NoSuchListing);
            },
            Some(sale) => (
                sale.amount_to_sell,
                sale.near_price_per_token,
                sale.sold,
                sale.owner.clone(),
            ),
        };
        proof {
            let w = crate::kv::kv_idx(ss0, mt_id@);
            assert(0 <= w < ss0.len() && ss0[w].0@ == mt_id@);
            assert(sale_wf(ss0[w].1));
        }
        let cost: u128 = match price.checked_mul(amount) {
            Some(c) => c,
            None => {
                return Err(ContractError::Overflow);
            },
        };
        if attached != cost {
            return Err(ContractError::WrongDeposit { expected: cost });
        }
        let remaining: u128 = amount_to_sell - sold;
        if amount > remaining {
            return Err(ContractError::ExceedsRemaining);
        }
        let custody_bal: u128 = self.mt.balance_of(&self.contract_id, mt_id);
        if custody_bal < amount {
            return Err(ContractError::InsufficientBalance);
        }
        let treasury = self.treasury_id.clone();
        let tnear: u128 = match kv_lookup(&self.accounts, &treasury) {
            None => {
                return Err(ContractError::NotRegistered);
            },
            Some(a) => a.near_amount,
        };
        let onear: u128 = match kv_lookup(&self.accounts, &sale_owner) {
            None => {
                return Err(ContractError::NotRegistered);
            },
            Some(a) => a.near_amount,
        };
        proof {
            crate::fee::lemma_fee_le_amount(cost, self.sales.platform_fee_numerator, FEE_DENOMINATOR);
        }
        let fee: u128 = match crate::fee::calculate_fee(
            cost,
            self.sales.platform_fee_numerator,
            FEE_DENOMINATOR,
        ) {
            Ok(f) => f,
            Err(e) => {
                proof {
                    assert(false);
                }
                return Err(e);
            },
        };
        let to_owner: u128 = cost - fee;
        if treasury == sale_owner {
            match tnear.checked_add(cost) {
                None => {
                    return Err(ContractError::Overflow);
                },
                Some(_) => {
                },
            }
        } else {
            match tnear.checked_add(fee) {
                None => {
                    return Err(ContractError::Overflow);
                },
                Some(_) => {
                },
            }
            match onear.checked_add(to_owner) {
                None => {
                    return Err(ContractError::Overflow);
                },
                Some(_) => {
                },
            }
        }
        // every check has passed; apply the effects
        match store_credit_near(&mut self.accounts, &treasury, fee) {
            Ok(()) => {
            },
            Err(e) => {
                proof {
                    assert(false);
                }
                return Err(e);
            },
        }
        let ghost c1 = *self;
        match store_credit_near(&mut self.accounts, &sale_owner, to_owner) {
            Ok(()) => {
            },
            Err(e) => {
                proof {
                    assert(false);
                }
                return Err(e);
            },
        }
        let ghost c2 = *self;
        let cid = self.contract_id.clone();
        match self.mt.internal_transfer(&cid, caller, mt_id, amount) {
            Ok(()) => {
            },
            Err(e) => {
                proof {
                    assert(false);
                }
                return Err(e);
            },
        }
        let ghost c3 = *self;
        let ns = SaleOptions {
            amount_to_sell,
            near_price_per_token: price,
            sold: sold + amount,
            owner: sale_owner,
        };
        kv_set(&mut self.sales.sales, mt_id, ns);
        proof {
            let ss3 = c3.sales.sales@;
            assert forall|i: int| 0 <= i < self.sales.sales@.len() implies sale_wf(
                #[trigger] self.sales.sales@[i].1,
            ) by {
                if 0 <= i < ss3.len() {
                    if self.sales.sales@[i] == ss3[i] {
                    } else {
                        assert(self.sales.sales@[i].1 == ns);
                    }
                } else {
                    assert(self.sales.sales@[i].1 == ns);
                }
            }
            assert forall|t2: Seq<char>| t2 != mt_id@ implies self.spec_sale(t2) == c0.spec_sale(
                t2,
            ) by {
                assert(kv_get(self.sales.sales@, t2) == kv_get(c3.sales.sales@, t2));
            }
            assert forall|id2: Seq<char>, k: AssetKey| #[trigger]
                self.spec_internal_balance(id2, k) == c0.spec_internal_balance(id2, k) by {
                assert(spec_internal(c1.accounts@, id2, k) == spec_internal(c0.accounts@, id2, k));
                assert(spec_internal(c2.accounts@, id2, k) == spec_internal(c1.accounts@, id2, k));
                assert(self.accounts@ == c2.accounts@);
            }
            assert forall|id2: Seq<char>| #[trigger]
                self.spec_acct_registered(id2) == c0.spec_acct_registered(id2) by {
                assert(spec_registered(c1.accounts@, id2) == spec_registered(c0.accounts@, id2));
                assert(spec_registered(c2.accounts@, id2) == spec_registered(c1.accounts@, id2));
                assert(self.accounts@ == c2.accounts@);
            }
            if treasury@ == sale_owner@ {
                assert(self.spec_near_balance(c0.treasury_id@) == c0.spec_near_balance(
                    c0.treasury_id@,
                ) + cost);
                assert forall|id2: Seq<char>|
                    id2 != c0.treasury_id@ implies self.spec_near_balance(id2)
                    == c0.spec_near_balance(id2) by {
                    assert(spec_near(c1.accounts@, id2) == spec_near(c0.accounts@, id2));
                    assert(spec_near(c2.accounts@, id2) == spec_near(c1.accounts@, id2));
                    assert(self.accounts@ == c2.accounts@);
                }
            } else {
                assert(self.spec_near_balance(c0.treasury_id@) == c0.spec_near_balance(
                    c0.treasury_id@,
                ) + fee);
                assert(self.spec_near_balance(sale_owner@) == c0.spec_near_balance(sale_owner@)
                    + to_owner);
                assert forall|id2: Seq<char>|
                    id2 != c0.treasury_id@ && id2 != sale_owner@ implies self.spec_near_balance(
                    id2,
                ) == c0.spec_near_balance(id2) by {
                    assert(spec_near(c1.accounts@, id2) == spec_near(c0.accounts@, id2));
                    assert(spec_near(c2.accounts@, id2) == spec_near(c1.accounts@, id2));
                    assert(self.accounts@ == c2.accounts@);
                }
            }
            if caller@ != c0.contract_id@ && amount > 0 {
                assert forall|o2: Seq<char>, t2: Seq<char>| #[trigger]
                    self.mt.spec_mt_registered(o2, t2) == c0.mt.spec_mt_registered(o2, t2) by {
                    if o2 == caller@ && t2 == mt_id@ {
                        assert(c0.mt.spec_mt_registered(caller@, mt_id@));
                        assert(c2.mt.spec_mt_registered(caller@, mt_id@));
                        assert(c3.mt.spec_mt_registered(caller@, mt_id@));
                    }
                }
            }
        }
        Ok(())
    }

    /// Locks the listed assets, mints `amount` units of a fungible claim
    /// token `mt_id` to `mt_owner` (the caller by default), records the
    /// locked set, and optionally puts part of the supply up for sale.
    /// Returns the surplus of the attached deposit owed back to the
    /// caller. Fails, changing nothing, exactly as [`Contract::frac_err`]
    /// says.
    #[verifier::rlimit(100)]
    pub fn nft_fractionalize(
        &mut self,
        nfts: Vec<AssetId>,
        mt_id: &String,
        amount: u128,
        mt_owner: Option<String>,
        token_metadata: Option<String>,
        sale_amount: Option<u128>,
        sale_price_per_token: Option<u128>,
        caller: &String,
        attached: u128,
        storage_bytes_delta: i64,
    ) -> (r: Result<u128, ContractError>)
        requires
            old(self).wf(),
        ensures
            final(self).wf(),
            match r {
                Ok(refund) => ({
                    let mt_owner_k = match mt_owner {
                        Some(o) => o@,
                        None => caller@,
                    };
                    let sale = spec_sale_pair(sale_amount, sale_price_per_token);
                    &&& old(self).frac_err(
                        caller@,
                        asset_keys(nfts@),
                        mt_id@,
                        amount,
                        sale,
                        attached,
                        storage_bytes_delta,
                    ) is None
                    &&& frac_post(
                        *old(self),
                        *final(self),
                        caller@,
                        nfts@,
                        mt_id@,
                        amount,
                        mt_owner_k,
                        token_metadata,
                        sale,
                    )
                    &&& refund == crate::fee::spec_refund(
                        attached,
                        crate::fee::spec_required_deposit(
                            storage_bytes_delta,
                            STORAGE_BYTE_COST,
                            old(self).nft_fractionalizer.mint_fee,
                        ) as u128,
                    )
                }),
                Err(e) => {
                    &&& *final(self) == *old(self)
                    &&& old(self).frac_err(
                        caller@,
                        asset_keys(nfts@),
                        mt_id@,
                        amount,
                        spec_sale_pair(sale_amount, sale_price_per_token),
                        attached,
                        storage_bytes_delta,
                    ) == Some(e)
                },
            },
    {
        let ghost c0 = *self;
        let ghost keys = asset_keys(nfts@);
        if crate::kv::kv_contains(&self.nft_fractionalizer.mt_to_nfts, mt_id) {
            return Err(ContractError::AlreadyFractionalized);
        }
        // simulate the debits on a copy of the caller's balance table, so
        // a failure half-way leaves the state untouched
        let acct_idx: Option<usize> = crate::kv::kv_find(&self.accounts, caller);
        let mut ib: Vec<(AssetId, u128)> = match acct_idx {
            Some(i) => {
                proof {
                    lemma_kv_get_at(self.accounts@, caller@, i as int);
                }
                crate::asset::abal_clone(&self.accounts[i].1.internal_balance)
            },
            None => Vec::new(),
        };
        let mut j: usize = 0;
        while j < nfts.len()
            invariant
                j <= nfts@.len(),
                keys == asset_keys(nfts@),
                c0.wf(),
                *self == c0,
                c0.spec_record(mt_id@) is None,
                abal_unique(ib@),
                c0.frac_debit_err(caller@, keys, 0) == c0.frac_debit_err(caller@, keys, j as int),
                match acct_idx {
                    Some(i) => {
                        &&& 0 <= i < c0.accounts@.len()
                        &&& c0.accounts@[i as int].0@ == caller@
                        &&& c0.spec_acct_registered(caller@)
                        &&& forall|k: AssetKey| #[trigger]
                            abal_get(ib@, k) == c0.spec_internal_balance(caller@, k) - occ(
                                keys.take(j as int),
                                k,
                            )
                    },
                    None => !c0.spec_acct_registered(caller@) && j == 0,
                },
            decreases nfts@.len() - j,
        {
            let ghost jj = j as int;
            proof {
                assert(keys[jj] == nfts@[jj]@);
            }
            let a = &nfts[j];
            if a.is_ft() {
                proof {
                    assert(c0.frac_debit_err(caller@, keys, jj) == Some(
                        ContractError::WrongAssetKind,
                    ));
                }
                return Err(ContractError::WrongAssetKind);
            }
            match acct_idx {
                None => {
                    proof {
                        assert(c0.frac_debit_err(caller@, keys, jj) == Some(
                            ContractError::NotRegistered,
                        ));
                        assert(c0.frac_err(
                            caller@,
                            keys,
                            mt_id@,
                            amount,
                            spec_sale_pair(sale_amount, sale_price_per_token),
                            attached,
                            storage_bytes_delta,
                        ) == Some(ContractError::NotRegistered));
                    }
                    return Err(ContractError::NotRegistered);
                },
                Some(_) => {
                },
            }
            match crate::asset::abal_debit(&mut ib, a, 1) {
                Err(_) => {
                    proof {
                        assert(c0.frac_debit_err(caller@, keys, jj) == Some(
                            ContractError::InsufficientBalance,
                        ));
                        assert(c0.frac_err(
                            caller@,
                            keys,
                            mt_id@,
                            amount,
                            spec_sale_pair(sale_amount, sale_price_per_token),
                            attached,
                            storage_bytes_delta,
                        ) == Some(ContractError::InsufficientBalance));
                    }
                    return Err(ContractError::InsufficientBalance);
                },
                Ok(()) => {
                },
            }
            proof {
                assert(c0.frac_debit_err(caller@, keys, jj) == c0.frac_debit_err(
                    caller@,
                    keys,
                    jj + 1,
                ));
                assert forall|k: AssetKey| #[trigger]
                    abal_get(ib@, k) == c0.spec_internal_balance(caller@, k) - occ(
                        keys.take(jj + 1),
                        k,
                    ) by {
                    lemma_occ_take_step(keys, jj, k);
                }
            }
            j = j + 1;
        }
        proof {
            assert(c0.frac_debit_err(caller@, keys, nfts@.len() as int) is None);
        }
        // the fungible mint must be admissible
        match self.mt.kind_of(mt_id) {
            Some(TokenKind::Nft) => {
                return Err(ContractError::AlreadyMinted);
            },
            _ => {
            },
        }
        if amount == 0 {
            return Err(ContractError::InvalidAmount);
        }
        let sup: u128 = self.mt.total_supply(mt_id);
        match sup.checked_add(amount) {
            None => {
                return Err(ContractError::Overflow);
            },
            Some(_) => {
            },
        }
        // the optional sale must fit the minted supply
        let sale_pair: Option<(u128, u128)> = match (sale_amount, sale_price_per_token) {
            (Some(sa), Some(sp)) => Some((sa, sp)),
            _ => None,
        };
        match sale_pair {
            Some((sa, _)) => {
                if sa > amount {
                    return Err(ContractError::InvalidAmount);
                }
                if crate::kv::kv_contains(&self.sales.sales, mt_id) {
                    return Err(ContractError::ListingExists);
                }
            },
            None => {
            },
        }
        // the deposit must cover storage and the mint fee
        let required: u128 = match crate::fee::required_deposit(
            storage_bytes_delta,
            STORAGE_BYTE_COST,
            self.nft_fractionalizer.mint_fee,
        ) {
            Ok(v) => v,
            Err(e) => {
                return Err(e);
            },
        };
        let refund: u128 = match crate::fee::reconcile_deposit(attached, required) {
            Ok(v) => v,
            Err(e) => {
                return Err(e);
            },
        };
        // every check has passed; apply the effects
        match acct_idx {
            Some(i) => {
                let elem = &mut self.accounts[i];
                elem.1.internal_balance = ib;
                proof {
                    crate::kv::lemma_kv_update(c0.accounts@, self.accounts@, i as int, caller@);
                    assert forall|jx: int| 0 <= jx < self.accounts@.len() implies abal_unique(
                        #[trigger] self.accounts@[jx].1.internal_balance@,
                    ) by {
                        if jx != i {
                            assert(self.accounts@[jx] == c0.accounts@[jx]);
                        }
                    }
                    assert(keys.take(nfts@.len() as int) =~= keys);
                    assert forall|k: AssetKey| #[trigger]
                        self.spec_internal_balance(caller@, k) == c0.spec_internal_balance(
                            caller@,
                            k,
                        ) - occ(keys, k) by {
                        assert(kv_get(self.accounts@, caller@) == Some(
                            self.accounts@[i as int].1,
                        ));
                    }
                    assert forall|id2: Seq<char>, k: AssetKey|
                        id2 != caller@ implies #[trigger] self.spec_internal_balance(id2, k)
                        == c0.spec_internal_balance(id2, k) by {
                        assert(kv_get(self.accounts@, id2) == kv_get(c0.accounts@, id2));
                    }
                    assert forall|id2: Seq<char>| #[trigger]
                        self.spec_near_balance(id2) == c0.spec_near_balance(id2) by {
                        if id2 == caller@ {
                            assert(kv_get(self.accounts@, id2) == Some(
                                self.accounts@[i as int].1,
                            ));
                        } else {
                            assert(kv_get(self.accounts@, id2) == kv_get(c0.accounts@, id2));
                        }
                    }
                    assert forall|id2: Seq<char>| #[trigger]
                        self.spec_acct_registered(id2) == c0.spec_acct_registered(id2) by {
                        assert(forall|jx: int|
                            0 <= jx < self.accounts@.len() ==> self.accounts@[jx].0@
                                == c0.accounts@[jx].0@);
                    }
                }
            },
            None => {
                proof {
                    assert(nfts@.len() == 0);
                    assert(keys.take(0) =~= keys);
                    assert forall|k: AssetKey| occ(keys, k) == 0 by {
                    }
                }
            },
        }
        let ghost c1 = *self;
        // mint the claim
        let mo: String = match mt_owner {
            Some(o) => o,
            None => caller.clone(),
        };
        let ghost mt_owner_k = mo@;
        match self.mt.mint(mt_id, TokenKind::Ft, Some(amount), &mo, token_metadata) {
            Ok(()) => {
            },
            Err(e) => {
                proof {
                    assert(false);
                }
                return Err(e);
            },
        }
        let ghost c2 = *self;
        // record the locked assets
        kv_set(&mut self.nft_fractionalizer.mt_to_nfts, mt_id, NftInfo { nfts, unwrapped: false });
        let ghost c3 = *self;
        proof {
            assert forall|t2: Seq<char>|
                t2 != mt_id@ implies self.spec_record(t2) == c0.spec_record(t2) by {
                assert(kv_get(self.nft_fractionalizer.mt_to_nfts@, t2) == kv_get(
                    c0.nft_fractionalizer.mt_to_nfts@,
                    t2,
                ));
            }
        }
        // the optional sale: move the amount on offer into custody and list it
        match sale_pair {
            Some((sa, sp)) => {
                let cid = self.contract_id.clone();
                match self.mt.internal_register_account(mt_id, &cid) {
                    Ok(()) => {
                    },
                    Err(e) => {
                        proof {
                            assert(c2.mt.spec_mt_registered(mo@, mt_id@));
                            assert(false);
                        }
                        return Err(e);
                    },
                }
                match self.mt.internal_transfer(&mo, &cid, mt_id, sa) {
                    Ok(()) => {
                    },
                    Err(e) => {
                        proof {
                            assert(false);
                        }
                        return Err(e);
                    },
                }
                let listing = SaleOptions {
                    amount_to_sell: sa,
                    near_price_per_token: sp,
                    sold: 0,
                    owner: mo,
                };
                match self.sales_create(mt_id, listing) {
                    Ok(()) => {
                    },
                    Err(e) => {
                        proof {
                            assert(self.spec_sale(mt_id@) == c0.spec_sale(mt_id@));
                            assert(false);
                        }
                        return Err(e);
                    },
                }
            },
            None => {
            },
        }
        proof {
            let sale = spec_sale_pair(sale_amount, sale_price_per_token);
            assert(c0.frac_err(
                caller@,
                keys,
                mt_id@,
                amount,
                sale,
                attached,
                storage_bytes_delta,
            ) is None);
            assert(self.accounts == c1.accounts);
            assert forall|k: AssetKey| #[trigger]
                self.spec_internal_balance(caller@, k) == c0.spec_internal_balance(caller@, k)
                - occ(keys, k) by {
                assert(c1.spec_internal_balance(caller@, k) == c0.spec_internal_balance(caller@, k)
                    - occ(keys, k));
            }
            assert forall|id2: Seq<char>, k: AssetKey|
                id2 != caller@ implies #[trigger] self.spec_internal_balance(id2, k)
                == c0.spec_internal_balance(id2, k) by {
                assert(c1.spec_internal_balance(id2, k) == c0.spec_internal_balance(id2, k));
            }
            assert forall|id2: Seq<char>| #[trigger]
                self.spec_near_balance(id2) == c0.spec_near_balance(id2) by {
                assert(c1.spec_near_balance(id2) == c0.spec_near_balance(id2));
            }
            assert forall|id2: Seq<char>| #[trigger]
                self.spec_acct_registered(id2) == c0.spec_acct_registered(id2) by {
                assert(c1.spec_acct_registered(id2) == c0.spec_acct_registered(id2));
            }
            assert(frac_post(
                c0,
                *self,
                caller@,
                nfts@,
                mt_id@,
                amount,
                mt_owner_k,
                token_metadata,
                sale,
            ));
        }
        Ok(refund)
    }
}

} // verus!
