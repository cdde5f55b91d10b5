//! The multi-token ledger.
//!
//! One namespace of token ids covers both fungible tokens (per-account
//! balances plus a total supply) and non-fungible tokens (a single
//! owner). A token id's kind is immutable once set. The central
//! invariant, part of [`mt_wf`], is that for every fungible token the
//! sum of all per-account balances equals its total supply; every
//! operation preserves it.

use vstd::prelude::*;

use crate::errors::ContractError;
use crate::kv::{kv_find, kv_get, kv_has, kv_set, kv_unique, lemma_kv_get_at, lemma_kv_update};

verus! {

/// The two token kinds one id can have.
#[derive(Clone, Copy, Debug, PartialEq, Eq, Structural)]
pub enum TokenKind {
    Ft,
    Nft,
}

/// A fungible token: per-account balances and the supply they add up to.
pub struct FtToken {
    pub balances: Vec<(String, u128)>,
    pub supply: u128,
}

/// The ledger state.
pub struct MultiToken {
    /// Each token id's kind, fixed at first registration.
    pub token_kind: Vec<(String, TokenKind)>,
    /// Fungible tokens by id.
    pub ft_tokens: Vec<(String, FtToken)>,
    /// Owner of each non-fungible token id.
    pub nft_owner: Vec<(String, String)>,
    /// Metadata blob stored at first mint, immutable afterwards.
    pub metadata: Vec<(String, String)>,
}

/// The sum of all balances of one fungible token.
pub open spec fn sum_bal(s: Seq<(String, u128)>) -> int
    decreases s.len(),
{
    if s.len() == 0 {
        0
    } else {
        sum_bal(s.drop_last()) + s.last().1
    }
}

/// A sum of unsigned balances is never negative.
pub proof fn lemma_sum_nonneg(s: Seq<(String, u128)>)
    ensures
        sum_bal(s) >= 0,
    decreases s.len(),
{
    if s.len() > 0 {
        lemma_sum_nonneg(s.drop_last());
    }
}

/// Replacing one entry moves the sum by the difference of the values.
pub proof fn lemma_sum_update(s: Seq<(String, u128)>, i: int, p: (String, u128))
    requires
        0 <= i < s.len(),
    ensures
        sum_bal(s.update(i, p)) == sum_bal(s) - s[i].1 + p.1,
    decreases s.len(),
{
    let t = s.update(i, p);
    if i == s.len() - 1 {
        assert(t.drop_last() =~= s.drop_last());
        assert(t.last() == p);
    } else {
        lemma_sum_update(s.drop_last(), i, p);
        assert(t.drop_last() =~= s.drop_last().update(i, p));
        assert(t.last() == s.last());
    }
}

/// Appending an entry adds its value to the sum.
pub proof fn lemma_sum_push(s: Seq<(String, u128)>, p: (String, u128))
    ensures
        sum_bal(s.push(p)) == sum_bal(s) + p.1,
{
    assert(s.push(p).drop_last() =~= s);
    assert(s.push(p).last() == p);
}

/// No single balance exceeds the sum of all of them.
pub proof fn lemma_sum_elem(s: Seq<(String, u128)>, i: int)
    requires
        0 <= i < s.len(),
    ensures
        s[i].1 <= sum_bal(s),
    decreases s.len(),
{
    lemma_sum_nonneg(s.drop_last());
    if i < s.len() - 1 {
        lemma_sum_elem(s.drop_last(), i);
    }
}

/// The balance an owner holds in one balance table; zero when absent.
pub open spec fn bal_of(s: Seq<(String, u128)>, owner: Seq<char>) -> u128 {
    match kv_get(s, owner) {
        Some(b) => b,
        None => 0,
    }
}

/// Well-formedness of one fungible token: distinct owners, and balances
/// that add up to the recorded supply.
pub open spec fn ft_wf(t: FtToken) -> bool {
    &&& kv_unique(t.balances@)
    &&& sum_bal(t.balances@) == t.supply
}

/// Well-formedness of the whole ledger.
pub open spec fn mt_wf(m: MultiToken) -> bool {
    &&& kv_unique(m.token_kind@)
    &&& kv_unique(m.ft_tokens@)
    &&& kv_unique(m.nft_owner@)
    &&& kv_unique(m.metadata@)
    &&& forall|i: int| 0 <= i < m.ft_tokens@.len() ==> ft_wf(#[trigger] m.ft_tokens@[i].1)
}

impl FtToken {
    /// Adds to one owner's balance, creating its entry if absent. The
    /// recorded supply is untouched; the caller adjusts it.
    fn credit(&mut self, owner: &String, amount: u128)
        requires
            kv_unique(old(self).balances@),
            bal_of(old(self).balances@, owner@) + amount <= u128::MAX,
        ensures
            kv_unique(final(self).balances@),
            bal_of(final(self).balances@, owner@) == bal_of(old(self).balances@, owner@) + amount,
            forall|o2: Seq<char>|
                o2 != owner@ ==> bal_of(final(self).balances@, o2) == bal_of(
                    old(self).balances@,
                    o2,
                ),
            forall|o2: Seq<char>|
                o2 != owner@ ==> kv_has(final(self).balances@, o2) == kv_has(
                    old(self).balances@,
                    o2,
                ),
            kv_has(final(self).balances@, owner@),
            sum_bal(final(self).balances@) == sum_bal(old(self).balances@) + amount,
            final(self).supply == old(self).supply,
    {
        let ghost s0 = self.balances@;
        match kv_find(&self.balances, owner) {
            Some(i) => {
                proof {
                    lemma_kv_get_at(s0, owner@, i as int);
                }
                let c = owner.clone();
                let nb: u128 = self.balances[i].1 + amount;
                vstd::pervasive::VecAdditionalExecFns::set(&mut self.balances, i, (c, nb));
                proof {
                    lemma_kv_update(s0, self.balances@, i as int, owner@);
                    lemma_sum_update(s0, i as int, (c, nb));
                    assert forall|o2: Seq<char>|
                        o2 != owner@ implies bal_of(self.balances@, o2) == bal_of(s0, o2) by {
                        assert(kv_get(self.balances@, o2) == kv_get(s0, o2));
                    }
                    assert forall|o2: Seq<char>|
                        o2 != owner@ implies kv_has(self.balances@, o2) == kv_has(s0, o2) by {
                        assert(kv_get(self.balances@, o2) == kv_get(s0, o2));
                    }
                }
            },
            None => {
                let c = owner.clone();
                self.balances.push((c, amount));
                proof {
                    crate::kv::lemma_kv_push(s0, self.balances@, owner@);
                    lemma_sum_push(s0, (c, amount));
                    assert forall|o2: Seq<char>|
                        o2 != owner@ implies bal_of(self.balances@, o2) == bal_of(s0, o2) by {
                        assert(kv_get(self.balances@, o2) == kv_get(s0, o2));
                    }
                    assert forall|o2: Seq<char>|
                        o2 != owner@ implies kv_has(self.balances@, o2) == kv_has(s0, o2) by {
                        assert(kv_get(self.balances@, o2) == kv_get(s0, o2));
                    }
                }
            },
        }
    }

    /// One owner's balance in this token; zero when absent.
    fn get_bal(&self, owner: &String) -> (r: u128)
        requires
            kv_unique(self.balances@),
        ensures
            r == bal_of(self.balances@, owner@),
    {
        match kv_find(&self.balances, owner) {
            None => 0,
            Some(i) => {
                proof {
                    lemma_kv_get_at(self.balances@, owner@, i as int);
                }
                self.balances[i].1
            },
        }
    }

    /// Subtracts from one owner's balance. The recorded supply is
    /// untouched; the caller adjusts it.
    fn debit(&mut self, owner: &String, amount: u128)
        requires
            kv_unique(old(self).balances@),
            bal_of(old(self).balances@, owner@) >= amount,
        ensures
            kv_unique(final(self).balances@),
            bal_of(final(self).balances@, owner@) == bal_of(old(self).balances@, owner@) - amount,
            forall|o2: Seq<char>|
                o2 != owner@ ==> bal_of(final(self).balances@, o2) == bal_of(
                    old(self).balances@,
                    o2,
                ),
            forall|o2: Seq<char>| #[trigger]
                kv_has(final(self).balances@, o2) == kv_has(old(self).balances@, o2),
            sum_bal(final(self).balances@) == sum_bal(old(self).balances@) - amount,
            final(self).supply == old(self).supply,
    {
        let ghost s0 = self.balances@;
        if amount == 0 {
            return ;
        }
        match kv_find(&self.balances, owner) {
            Some(i) => {
                proof {
                    lemma_kv_get_at(s0, owner@, i as int);
                }
                let c = owner.clone();
                let nb: u128 = self.balances[i].1 - amount;
                vstd::pervasive::VecAdditionalExecFns::set(&mut self.balances, i, (c, nb));
                proof {
                    lemma_kv_update(s0, self.balances@, i as int, owner@);
                    lemma_sum_update(s0, i as int, (c, nb));
                    assert forall|o2: Seq<char>|
                        o2 != owner@ implies bal_of(self.balances@, o2) == bal_of(s0, o2) by {
                        assert(kv_get(self.balances@, o2) == kv_get(s0, o2));
                    }
                    assert forall|o2: Seq<char>| #[trigger]
                        kv_has(self.balances@, o2) == kv_has(s0, o2) by {
                        if o2 != owner@ {
                            assert(kv_get(self.balances@, o2) == kv_get(s0, o2));
                        }
                    }
                }
            },
            None => {
                // the balance defaults to zero, so a positive debit cannot
                // reach this arm
                proof {
                    assert(false);
                }
            },
        }
    }
}

/// What stops a mint, if anything: a non-fungible id can never be minted
/// twice, a fungible mint must match the recorded kind, carry a positive
/// amount, and not overflow the supply.
pub open spec fn mint_err(
    m: MultiToken,
    t: Seq<char>,
    kind: TokenKind,
    amount: Option<u128>,
) -> Option<ContractError> {
    match m.spec_kind(t) {
        Some(TokenKind::Nft) => Some(ContractError::AlreadyMinted),
        Some(TokenKind::Ft) => if kind != TokenKind::Ft {
            Some(ContractError::KindConflict)
        } else {
            mint_ft_err(m, t, amount)
        },
        None => if kind == TokenKind::Ft {
            mint_ft_err(m, t, amount)
        } else {
            None
        },
    }
}

/// The fungible-path checks of [`mint_err`].
pub open spec fn mint_ft_err(m: MultiToken, t: Seq<char>, amount: Option<u128>) -> Option<
    ContractError,
> {
    match amount {
        None => Some(ContractError::InvalidAmount),
        Some(a) => if a == 0 {
            Some(ContractError::InvalidAmount)
        } else if m.spec_supply(t) + a > u128::MAX {
            Some(ContractError::Overflow)
        } else {
            None
        },
    }
}

/// What stops a transfer, if anything: a positive amount needs a
/// sufficient sender balance. A zero amount always goes through.
pub open spec fn transfer_err(m: MultiToken, from: Seq<char>, t: Seq<char>, amount: u128) -> Option<
    ContractError,
> {
    if amount == 0 {
        None
    } else if m.spec_bal(from, t) < amount {
        Some(ContractError::InsufficientBalance)
    } else {
        None
    }
}

impl MultiToken {
    /// The kind recorded for a token id, if any.
    pub open spec fn spec_kind(self, t: Seq<char>) -> Option<TokenKind> {
        kv_get(self.token_kind@, t)
    }

    /// The total supply of a fungible token id; zero for unknown ids.
    pub open spec fn spec_supply(self, t: Seq<char>) -> u128 {
        match kv_get(self.ft_tokens@, t) {
            Some(ft) => ft.supply,
            None => 0,
        }
    }

    /// One account's balance of a fungible token id; zero by default.
    pub open spec fn spec_bal(self, owner: Seq<char>, t: Seq<char>) -> u128 {
        match kv_get(self.ft_tokens@, t) {
            Some(ft) => bal_of(ft.balances@, owner),
            None => 0,
        }
    }

    /// Whether an account has a balance entry (possibly zero) for a
    /// fungible token id.
    pub open spec fn spec_mt_registered(self, owner: Seq<char>, t: Seq<char>) -> bool {
        match kv_get(self.ft_tokens@, t) {
            Some(ft) => kv_has(ft.balances@, owner),
            None => false,
        }
    }

    /// The owner recorded for a non-fungible token id, if any.
    pub open spec fn spec_nft_owner(self, t: Seq<char>) -> Option<Seq<char>> {
        match kv_get(self.nft_owner@, t) {
            Some(o) => Some(o@),
            None => None,
        }
    }

    /// The metadata blob recorded for a token id, if any.
    pub open spec fn spec_meta(self, t: Seq<char>) -> Option<Seq<char>> {
        match kv_get(self.metadata@, t) {
            Some(m) => Some(m@),
            None => None,
        }
    }

    /// An empty ledger.
    pub fn new() -> (r: MultiToken)
        ensures
            mt_wf(r),
            r.token_kind@.len() == 0,
            r.ft_tokens@.len() == 0,
            r.nft_owner@.len() == 0,
            r.metadata@.len() == 0,
    {
        MultiToken {
            token_kind: Vec::new(),
            ft_tokens: Vec::new(),
            nft_owner: Vec::new(),
            metadata: Vec::new(),
        }
    }

    /// One account's balance of a fungible token id; zero by default.
    pub fn balance_of(&self, owner: &String, token_id: &String) -> (r: u128)
        requires
            mt_wf(*self),
        ensures
            r == self.spec_bal(owner@, token_id@),
    {
        match kv_find(&self.ft_tokens, token_id) {
            None => 0,
            Some(i) => {
                proof {
                    lemma_kv_get_at(self.ft_tokens@, token_id@, i as int);
                }
                match kv_find(&self.ft_tokens[i].1.balances, owner) {
                    None => 0,
                    Some(j) => {
                        proof {
                            lemma_kv_get_at(self.ft_tokens@[i as int].1.balances@, owner@, j as int);
                        }
                        self.ft_tokens[i].1.balances[j].1
                    },
                }
            },
        }
    }

    /// The total supply of a fungible token id; zero for unknown ids.
    pub fn total_supply(&self, token_id: &String) -> (r: u128)
        requires
            mt_wf(*self),
        ensures
            r == self.spec_supply(token_id@),
    {
        match kv_find(&self.ft_tokens, token_id) {
            None => 0,
            Some(i) => {
                proof {
                    lemma_kv_get_at(self.ft_tokens@, token_id@, i as int);
                }
                self.ft_tokens[i].1.supply
            },
        }
    }

    /// The kind recorded for a token id, if any.
    pub fn kind_of(&self, token_id: &String) -> (r: Option<TokenKind>)
        requires
            mt_wf(*self),
        ensures
            r == self.spec_kind(token_id@),
    {
        match kv_find(&self.token_kind, token_id) {
            None => None,
            Some(i) => {
                proof {
                    lemma_kv_get_at(self.token_kind@, token_id@, i as int);
                }
                Some(self.token_kind[i].1)
            },
        }
    }

    /// Whether an account has a balance entry for a fungible token id.
    pub fn is_mt_registered(&self, owner: &String, token_id: &String) -> (r: bool)
        requires
            mt_wf(*self),
        ensures
            r == self.spec_mt_registered(owner@, token_id@),
    {
        match kv_find(&self.ft_tokens, token_id) {
            None => false,
            Some(i) => {
                proof {
                    lemma_kv_get_at(self.ft_tokens@, token_id@, i as int);
                }
                match kv_find(&self.ft_tokens[i].1.balances, owner) {
                    None => false,
                    Some(_) => true,
                }
            },
        }
    }

    /// The metadata blob recorded for a token id, if any.
    pub fn metadata_of(&self, token_id: &String) -> (r: Option<String>)
        requires
            mt_wf(*self),
        ensures
            match r {
                Some(m) => self.spec_meta(token_id@) == Some(m@),
                None => self.spec_meta(token_id@) is None,
            },
    {
        match kv_find(&self.metadata, token_id) {
            None => None,
            Some(i) => {
                proof {
                    lemma_kv_get_at(self.metadata@, token_id@, i as int);
                }
                Some(self.metadata[i].1.clone())
            },
        }
    }

    /// Records a kind for a token id. Idempotent when the kind matches;
    /// fails with `KindConflict`, changing nothing, when it differs.
    pub fn register_token_kind(&mut self, token_id: &String, kind: TokenKind) -> (r: Result<
        (),
        ContractError,
    >)
        requires
            mt_wf(*old(self)),
        ensures
            mt_wf(*final(self)),
            final(self).ft_tokens == old(self).ft_tokens,
            final(self).nft_owner == old(self).nft_owner,
            final(self).metadata == old(self).metadata,
            match r {
                Ok(()) => {
                    &&& (old(self).spec_kind(token_id@) is None || old(self).spec_kind(token_id@)
                        == Some(kind))
                    &&& final(self).spec_kind(token_id@) == Some(kind)
                    &&& forall|t2: Seq<char>|
                        t2 != token_id@ ==> final(self).spec_kind(t2) == old(self).spec_kind(t2)
                },
                Err(e) => {
                    &&& *final(self) == *old(self)
                    &&& e == ContractError::KindConflict
                    &&& old(self).spec_kind(token_id@) is Some
                    &&& old(self).spec_kind(token_id@) != Some(kind)
                },
            },
    {
        let ghost s0 = self.token_kind@;
        match kv_find(&self.token_kind, token_id) {
            Some(i) => {
                proof {
                    lemma_kv_get_at(s0, token_id@, i as int);
                }
                if self.token_kind[i].1 == kind {
                    Ok(())
                } else {
                    Err(ContractError::KindConflict)
                }
            },
            None => {
                kv_set(&mut self.token_kind, token_id, kind);
                Ok(())
            },
        }
    }

    /// Mints `amount` of a fungible token to `owner`, or records `owner`
    /// as holder of a fresh non-fungible token. The metadata blob is
    /// stored at the first mint of an id and is immutable afterwards.
    /// Fails, changing nothing, exactly as [`mint_err`] says.
    pub fn mint(
        &mut self,
        token_id: &String,
        kind: TokenKind,
        amount: Option<u128>,
        owner: &String,
        metadata: Option<String>,
    ) -> (r: Result<(), ContractError>)
        requires
            mt_wf(*old(self)),
        ensures
            mt_wf(*final(self)),
            match r {
                Ok(()) => {
                    &&& mint_err(*old(self), token_id@, kind, amount) is None
                    &&& final(self).spec_kind(token_id@) == Some(kind)
                    &&& forall|t2: Seq<char>|
                        t2 != token_id@ ==> final(self).spec_kind(t2) == old(self).spec_kind(t2)
                    &&& (kind == TokenKind::Ft ==> amount is Some)
                    &&& (kind == TokenKind::Ft ==> (amount matches Some(a) ==> {
                        &&& final(self).spec_supply(token_id@) == old(self).spec_supply(token_id@)
                            + a
                        &&& final(self).spec_bal(owner@, token_id@) == old(self).spec_bal(
                            owner@,
                            token_id@,
                        ) + a
                        &&& forall|t2: Seq<char>|
                            t2 != token_id@ ==> final(self).spec_supply(t2) == old(
                                self,
                            ).spec_supply(t2)
                        &&& forall|o2: Seq<char>, t2: Seq<char>|
                            !(o2 == owner@ && t2 == token_id@) ==> final(self).spec_bal(o2, t2)
                                == old(self).spec_bal(o2, t2)
                        &&& forall|o2: Seq<char>, t2: Seq<char>|
                            !(o2 == owner@ && t2 == token_id@) ==> final(self).spec_mt_registered(
                                o2,
                                t2,
                            ) == old(self).spec_mt_registered(o2, t2)
                        &&& final(self).spec_mt_registered(owner@, token_id@)
                        &&& final(self).nft_owner == old(self).nft_owner
                    }))
                    &&& (kind == TokenKind::Nft ==> {
                        &&& final(self).ft_tokens == old(self).ft_tokens
                        &&& final(self).spec_nft_owner(token_id@) == Some(owner@)
                        &&& forall|t2: Seq<char>|
                            t2 != token_id@ ==> final(self).spec_nft_owner(t2) == old(
                                self,
                            ).spec_nft_owner(t2)
                    })
                    &&& final(self).spec_meta(token_id@) == (if old(self).spec_meta(token_id@)
                        is Some {
                        old(self).spec_meta(token_id@)
                    } else {
                        match metadata {
                            Some(md) => Some(md@),
                            None => None,
                        }
                    })
                    &&& forall|t2: Seq<char>|
                        t2 != token_id@ ==> final(self).spec_meta(t2) == old(self).spec_meta(t2)
                },
                Err(e) => {
                    &&& *final(self) == *old(self)
                    &&& mint_err(*old(self), token_id@, kind, amount) == Some(e)
                },
            },
    {
        let ghost m0 = *self;
        match self.kind_of(token_id) {
            Some(TokenKind::Nft) => {
                return Err(ContractError::AlreadyMinted);
            },
            Some(TokenKind::Ft) => {
                if kind != TokenKind::Ft {
                    return Err(ContractError::KindConflict);
                }
            },
            None => {
            },
        }
        match kind {
            TokenKind::Ft => {
                let a: u128 = match amount {
                    Some(a) => a,
                    None => {
                        return Err(ContractError::InvalidAmount);
                    },
                };
                if a == 0 {
                    return Err(ContractError::InvalidAmount);
                }
                let ghost fts0 = self.ft_tokens@;
                match kv_find(&self.ft_tokens, token_id) {
                    Some(i) => {
                        proof {
                            lemma_kv_get_at(fts0, token_id@, i as int);
                        }
                        let sup: u128 = self.ft_tokens[i].1.supply;
                        let ns: u128 = match sup.checked_add(a) {
                            Some(ns) => ns,
                            None => {
                                return Err(ContractError::Overflow);
                            },
                        };
                        proof {
                            let bals0 = fts0[i as int].1.balances@;
                            if kv_has(bals0, owner@) {
                                let w = crate::kv::kv_idx(bals0, owner@);
                                assert(0 <= w < bals0.len() && bals0[w].0@ == owner@);
                                lemma_sum_elem(bals0, w);
                            }
                        }
                        let elem = &mut self.ft_tokens[i];
                        elem.1.credit(owner, a);
                        elem.1.supply = ns;
                        proof {
                            lemma_kv_update(fts0, self.ft_tokens@, i as int, token_id@);
                            self.lemma_ft_update_frames(m0, token_id@, i as int);
                        }
                    },
                    None => {
                        let mut bals: Vec<(String, u128)> = Vec::new();
                        bals.push((owner.clone(), a));
                        proof {
                            assert(bals@.len() == 1);
                            assert(bals@.last().1 == a);
                            assert(bals@.drop_last() =~= Seq::<(String, u128)>::empty());
                            assert(sum_bal(bals@.drop_last()) == 0);
                            assert(sum_bal(bals@) == sum_bal(bals@.drop_last()) + bals@.last().1);
                            assert(sum_bal(bals@) == a);
                        }
                        kv_set(&mut self.ft_tokens, token_id, FtToken { balances: bals, supply: a });
                        proof {
                            self.lemma_ft_fresh_frames(m0, token_id@, owner@, a);
                        }
                    },
                }
                kv_set(&mut self.token_kind, token_id, kind);
            },
            TokenKind::Nft => {
                kv_set(&mut self.token_kind, token_id, kind);
                kv_set(&mut self.nft_owner, token_id, owner.clone());
                proof {
                    assert forall|t2: Seq<char>|
                        t2 != token_id@ implies self.spec_nft_owner(t2) == m0.spec_nft_owner(
                        t2,
                    ) by {
                        assert(kv_get(self.nft_owner@, t2) == kv_get(m0.nft_owner@, t2));
                    }
                }
            },
        }
        let has_meta = crate::kv::kv_contains(&self.metadata, token_id);
        if !has_meta {
            match metadata {
                Some(md) => {
                    kv_set(&mut self.metadata, token_id, md);
                },
                None => {
                },
            }
        }
        proof {
            assert forall|t2: Seq<char>|
                t2 != token_id@ implies self.spec_meta(t2) == m0.spec_meta(t2) by {
                if self.metadata@ != m0.metadata@ {
                    assert(kv_get(self.metadata@, t2) == kv_get(m0.metadata@, t2));
                }
            }
            assert forall|t2: Seq<char>|
                t2 != token_id@ implies self.spec_kind(t2) == m0.spec_kind(t2) by {
                assert(kv_get(self.token_kind@, t2) == kv_get(m0.token_kind@, t2));
            }
        }
        Ok(())
    }

    /// Moves `amount` of a fungible token between accounts. A zero
    /// amount, or a move from an account to itself, succeeds without
    /// changing anything. Fails with `InsufficientBalance`, changing
    /// nothing, when the sender's balance is short.
    pub fn internal_transfer(
        &mut self,
        from: &String,
        to: &String,
        token_id: &String,
        amount: u128,
    ) -> (r: Result<(), ContractError>)
        requires
            mt_wf(*old(self)),
        ensures
            mt_wf(*final(self)),
            match r {
                Ok(()) => {
                    &&& transfer_err(*old(self), from@, token_id@, amount) is None
                    &&& (amount == 0 || from@ == to@ ==> *final(self) == *old(self))
                    &&& (amount > 0 && from@ != to@ ==> {
                        &&& final(self).spec_bal(from@, token_id@) == old(self).spec_bal(
                            from@,
                            token_id@,
                        ) - amount
                        &&& final(self).spec_bal(to@, token_id@) == old(self).spec_bal(
                            to@,
                            token_id@,
                        ) + amount
                        &&& final(self).spec_mt_registered(to@, token_id@)
                        &&& forall|o2: Seq<char>, t2: Seq<char>|
                            !(t2 == token_id@ && (o2 == from@ || o2 == to@))
                                ==> final(self).spec_bal(o2, t2) == old(self).spec_bal(o2, t2)
                        &&& forall|o2: Seq<char>, t2: Seq<char>|
                            !(t2 == token_id@ && o2 == to@) ==> final(self).spec_mt_registered(
                                o2,
                                t2,
                            ) == old(self).spec_mt_registered(o2, t2)
                        &&& forall|t2: Seq<char>| #[trigger]
                            final(self).spec_supply(t2) == old(self).spec_supply(t2)
                        &&& final(self).token_kind == old(self).token_kind
                        &&& final(self).nft_owner == old(self).nft_owner
                        &&& final(self).metadata == old(self).metadata
                    })
                },
                Err(e) => {
                    &&& *final(self) == *old(self)
                    &&& transfer_err(*old(self), from@, token_id@, amount) == Some(e)
                },
            },
    {
        if amount == 0 {
            return Ok(());
        }
        let ghost m0 = *self;
        let ghost fts0 = self.ft_tokens@;
        match kv_find(&self.ft_tokens, token_id) {
            None => Err(ContractError::InsufficientBalance),
            Some(i) => {
                proof {
                    lemma_kv_get_at(fts0, token_id@, i as int);
                }
                let bal_from: u128 = self.ft_tokens[i].1.get_bal(from);
                if bal_from < amount {
                    return Err(ContractError::InsufficientBalance);
                }
                if *from == *to {
                    return Ok(());
                }
                let sup: u128 = self.ft_tokens[i].1.supply;
                let elem = &mut self.ft_tokens[i];
                elem.1.debit(from, amount);
                proof {
                    let bals1 = elem.1.balances@;
                    assert(sum_bal(bals1) == sup - amount);
                    if kv_has(bals1, to@) {
                        let w = crate::kv::kv_idx(bals1, to@);
                        assert(0 <= w < bals1.len() && bals1[w].0@ == to@);
                        lemma_sum_elem(bals1, w);
                        lemma_kv_get_at(bals1, to@, w);
                    }
                }
                elem.1.credit(to, amount);
                proof {
                    self.lemma_ft_update_frames(m0, token_id@, i as int);
                }
                Ok(())
            },
        }
    }

    /// Burns `amount` of a fungible token from one account, shrinking
    /// the total supply with it. Fails with `InsufficientBalance`,
    /// changing nothing, when the balance is short.
    pub fn internal_withdraw(&mut self, token_id: &String, account: &String, amount: u128) -> (r:
        Result<(), ContractError>)
        requires
            mt_wf(*old(self)),
        ensures
            mt_wf(*final(self)),
            match r {
                Ok(()) => {
                    &&& old(self).spec_bal(account@, token_id@) >= amount
                    &&& final(self).spec_bal(account@, token_id@) == old(self).spec_bal(
                        account@,
                        token_id@,
                    ) - amount
                    &&& final(self).spec_supply(token_id@) == old(self).spec_supply(token_id@)
                        - amount
                    &&& forall|o2: Seq<char>, t2: Seq<char>|
                        !(t2 == token_id@ && o2 == account@) ==> final(self).spec_bal(o2, t2)
                            == old(self).spec_bal(o2, t2)
                    &&& forall|t2: Seq<char>|
                        t2 != token_id@ ==> final(self).spec_supply(t2) == old(self).spec_supply(
                            t2,
                        )
                    &&& forall|o2: Seq<char>, t2: Seq<char>| #[trigger]
                        final(self).spec_mt_registered(o2, t2) == old(self).spec_mt_registered(
                            o2,
                            t2,
                        )
                    &&& final(self).token_kind == old(self).token_kind
                    &&& final(self).nft_owner == old(self).nft_owner
                    &&& final(self).metadata == old(self).metadata
                },
                Err(e) => {
                    &&& *final(self) == *old(self)
                    &&& e == ContractError::InsufficientBalance
                    &&& old(self).spec_bal(account@, token_id@) < amount
                },
            },
    {
        let ghost m0 = *self;
        let ghost fts0 = self.ft_tokens@;
        match kv_find(&self.ft_tokens, token_id) {
            None => {
                if amount == 0 {
                    Ok(())
                } else {
                    Err(ContractError::InsufficientBalance)
                }
            },
            Some(i) => {
                proof {
                    lemma_kv_get_at(fts0, token_id@, i as int);
                }
                let bal: u128 = self.ft_tokens[i].1.get_bal(account);
                if bal < amount {
                    return Err(ContractError::InsufficientBalance);
                }
                proof {
                    if kv_has(fts0[i as int].1.balances@, account@) {
                        let w = crate::kv::kv_idx(fts0[i as int].1.balances@, account@);
                        assert(0 <= w < fts0[i as int].1.balances@.len());
                        lemma_sum_elem(fts0[i as int].1.balances@, w);
                        lemma_kv_get_at(fts0[i as int].1.balances@, account@, w);
                    }
                }
                let sup: u128 = self.ft_tokens[i].1.supply;
                let elem = &mut self.ft_tokens[i];
                elem.1.debit(account, amount);
                elem.1.supply = sup - amount;
                proof {
                    self.lemma_ft_update_frames(m0, token_id@, i as int);
                }
                Ok(())
            },
        }
    }

    /// Gives an account a (zero) balance entry for a fungible token, so
    /// it counts as registered for it. Idempotent; no balance or supply
    /// changes. Fails with `NotFound` when the token id has no fungible
    /// ledger entry.
    pub fn internal_register_account(&mut self, token_id: &String, account: &String) -> (r: Result<
        (),
        ContractError,
    >)
        requires
            mt_wf(*old(self)),
        ensures
            mt_wf(*final(self)),
            match r {
                Ok(()) => {
                    &&& kv_has(old(self).ft_tokens@, token_id@)
                    &&& final(self).spec_mt_registered(account@, token_id@)
                    &&& forall|o2: Seq<char>, t2: Seq<char>|
                        !(t2 == token_id@ && o2 == account@) ==> final(self).spec_mt_registered(
                            o2,
                            t2,
                        ) == old(self).spec_mt_registered(o2, t2)
                    &&& forall|o2: Seq<char>, t2: Seq<char>| #[trigger]
                        final(self).spec_bal(o2, t2) == old(self).spec_bal(o2, t2)
                    &&& forall|t2: Seq<char>| #[trigger]
                        final(self).spec_supply(t2) == old(self).spec_supply(t2)
                    &&& final(self).token_kind == old(self).token_kind
                    &&& final(self).nft_owner == old(self).nft_owner
                    &&& final(self).metadata == old(self).metadata
                },
                Err(e) => {
                    &&& *final(self) == *old(self)
                    &&& e == ContractError::NotFound
                    &&& !kv_has(old(self).ft_tokens@, token_id@)
                },
            },
    {
        let ghost m0 = *self;
        let ghost fts0 = self.ft_tokens@;
        match kv_find(&self.ft_tokens, token_id) {
            None => Err(ContractError::NotFound),
            Some(i) => {
                proof {
                    lemma_kv_get_at(fts0, token_id@, i as int);
                }
                match kv_find(&self.ft_tokens[i].1.balances, account) {
                    Some(j) => {
                        proof {
                            lemma_kv_get_at(fts0[i as int].1.balances@, account@, j as int);
                        }
                        Ok(())
                    },
                    None => {
                        let elem = &mut self.ft_tokens[i];
                        elem.1.credit(account, 0);
                        proof {
                            self.lemma_ft_update_frames(m0, token_id@, i as int);
                        }
                        Ok(())
                    },
                }
            },
        }
    }

    /// Frame facts after replacing the fungible-token entry at index `i`
    /// (key `t`) with one whose balances changed at a single owner.
    proof fn lemma_ft_update_frames(self, m0: MultiToken, t: Seq<char>, i: int)
        requires
            kv_unique(m0.ft_tokens@),
            forall|j: int| 0 <= j < m0.ft_tokens@.len() ==> ft_wf(#[trigger] m0.ft_tokens@[j].1),
            0 <= i < m0.ft_tokens@.len(),
            m0.ft_tokens@[i].0@ == t,
            self.ft_tokens@.len() == m0.ft_tokens@.len(),
            self.ft_tokens@[i].0@ == t,
            ft_wf(self.ft_tokens@[i].1),
            forall|j: int|
                0 <= j < m0.ft_tokens@.len() && j != i ==> self.ft_tokens@[j] == m0.ft_tokens@[j],
        ensures
            kv_unique(self.ft_tokens@),
            forall|j: int| 0 <= j < self.ft_tokens@.len() ==> ft_wf(#[trigger] self.ft_tokens@[j].1),
            kv_get(self.ft_tokens@, t) == Some(self.ft_tokens@[i].1),
            forall|t2: Seq<char>|
                t2 != t ==> self.spec_supply(t2) == m0.spec_supply(t2),
            forall|o2: Seq<char>, t2: Seq<char>|
                t2 != t ==> self.spec_bal(o2, t2) == m0.spec_bal(o2, t2),
            forall|o2: Seq<char>, t2: Seq<char>|
                t2 != t ==> self.spec_mt_registered(o2, t2) == m0.spec_mt_registered(o2, t2),
            self.spec_supply(t) == self.ft_tokens@[i].1.supply,
            forall|o2: Seq<char>| #[trigger]
                self.spec_bal(o2, t) == bal_of(self.ft_tokens@[i].1.balances@, o2),
            forall|o2: Seq<char>| #[trigger]
                self.spec_mt_registered(o2, t) == kv_has(self.ft_tokens@[i].1.balances@, o2),
            m0.spec_supply(t) == m0.ft_tokens@[i].1.supply,
            forall|o2: Seq<char>| #[trigger]
                m0.spec_bal(o2, t) == bal_of(m0.ft_tokens@[i].1.balances@, o2),
            forall|o2: Seq<char>| #[trigger]
                m0.spec_mt_registered(o2, t) == kv_has(m0.ft_tokens@[i].1.balances@, o2),
    {
        lemma_kv_update(m0.ft_tokens@, self.ft_tokens@, i, t);
        lemma_kv_get_at(m0.ft_tokens@, t, i);
        lemma_kv_get_at(self.ft_tokens@, t, i);
        assert forall|j: int| 0 <= j < self.ft_tokens@.len() implies ft_wf(
            #[trigger] self.ft_tokens@[j].1,
        ) by {
            if j != i {
                assert(self.ft_tokens@[j] == m0.ft_tokens@[j]);
            }
        }
        assert forall|t2: Seq<char>| t2 != t implies self.spec_supply(t2) == m0.spec_supply(t2)
            && (forall|o2: Seq<char>| #[trigger]
            self.spec_bal(o2, t2) == m0.spec_bal(o2, t2)) && (forall|o2: Seq<char>| #[trigger]
            self.spec_mt_registered(o2, t2) == m0.spec_mt_registered(o2, t2)) by {
            assert(kv_get(self.ft_tokens@, t2) == kv_get(m0.ft_tokens@, t2));
        }
    }

    /// Frame facts after binding a fresh fungible-token entry for key `t`
    /// holding a single balance of `a` for `owner`.
    proof fn lemma_ft_fresh_frames(self, m0: MultiToken, t: Seq<char>, owner: Seq<char>, a: u128)
        requires
            kv_unique(m0.ft_tokens@),
            forall|j: int| 0 <= j < m0.ft_tokens@.len() ==> ft_wf(#[trigger] m0.ft_tokens@[j].1),
            !kv_has(m0.ft_tokens@, t),
            kv_unique(self.ft_tokens@),
            kv_get(self.ft_tokens@, t) matches Some(ft) && ft_wf(ft) && ft.supply == a && bal_of(
                ft.balances@,
                owner,
            ) == a && kv_has(ft.balances@, owner) && (forall|o2: Seq<char>|
                o2 != owner ==> bal_of(ft.balances@, o2) == 0 && !kv_has(ft.balances@, o2)),
            forall|t2: Seq<char>| t2 != t ==> kv_get(self.ft_tokens@, t2) == kv_get(m0.ft_tokens@, t2),
            forall|j: int|
                0 <= j < self.ft_tokens@.len() ==> (self.ft_tokens@[j].0@ == t && ft_wf(
                    self.ft_tokens@[j].1,
                )) || (0 <= j < m0.ft_tokens@.len() && self.ft_tokens@[j] == m0.ft_tokens@[j]),
        ensures
            forall|j: int| 0 <= j < self.ft_tokens@.len() ==> ft_wf(#[trigger] self.ft_tokens@[j].1),
            self.spec_supply(t) == m0.spec_supply(t) + a,
            self.spec_bal(owner, t) == m0.spec_bal(owner, t) + a,
            self.spec_mt_registered(owner, t),
            forall|t2: Seq<char>|
                t2 != t ==> self.spec_supply(t2) == m0.spec_supply(t2),
            forall|o2: Seq<char>, t2: Seq<char>|
                !(o2 == owner && t2 == t) ==> self.spec_bal(o2, t2) == m0.spec_bal(o2, t2),
            forall|o2: Seq<char>, t2: Seq<char>|
                !(o2 == owner && t2 == t) ==> self.spec_mt_registered(o2, t2)
                    == m0.spec_mt_registered(o2, t2),
    {
        assert forall|j: int| 0 <= j < self.ft_tokens@.len() implies ft_wf(
            #[trigger] self.ft_tokens@[j].1,
        ) by {
            if !(self.ft_tokens@[j].0@ == t && ft_wf(self.ft_tokens@[j].1)) {
                assert(0 <= j < m0.ft_tokens@.len() && self.ft_tokens@[j] == m0.ft_tokens@[j]);
            }
        }
        assert(m0.spec_supply(t) == 0 && m0.spec_bal(owner, t) == 0);
    }
}

} // verus!
