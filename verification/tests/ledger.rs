use fracledger::errors::ContractError;
use fracledger::ledger::{MultiToken, TokenKind};

#[test]
fn mint_kind_is_immutable() {
    let mut mt = MultiToken::new();
    let claim = "claim".to_string();
    let alice = "alice".to_string();
    mt.mint(&claim, TokenKind::Ft, Some(10), &alice, None).unwrap();
    // the same id cannot turn non-fungible
    assert_eq!(
        mt.mint(&claim, TokenKind::Nft, None, &alice, None),
        Err(ContractError::KindConflict)
    );
    // but more of the fungible token can be minted
    mt.mint(&claim, TokenKind::Ft, Some(5), &alice, None).unwrap();
    assert_eq!(mt.total_supply(&claim), 15);
    assert_eq!(mt.balance_of(&alice, &claim), 15);
}

#[test]
fn mint_nft_only_once() {
    let mut mt = MultiToken::new();
    let item = "item".to_string();
    let alice = "alice".to_string();
    let bob = "bob".to_string();
    mt.mint(&item, TokenKind::Nft, None, &alice, None).unwrap();
    assert_eq!(
        mt.mint(&item, TokenKind::Nft, None, &bob, None),
        Err(ContractError::AlreadyMinted)
    );
    assert_eq!(
        mt.mint(&item, TokenKind::Ft, Some(1), &bob, None),
        Err(ContractError::AlreadyMinted)
    );
}

#[test]
fn mint_requires_positive_amount() {
    let mut mt = MultiToken::new();
    let claim = "claim".to_string();
    let alice = "alice".to_string();
    assert_eq!(
        mt.mint(&claim, TokenKind::Ft, Some(0), &alice, None),
        Err(ContractError::InvalidAmount)
    );
    assert_eq!(
        mt.mint(&claim, TokenKind::Ft, None, &alice, None),
        Err(ContractError::InvalidAmount)
    );
}

#[test]
fn mint_supply_overflow_rejected() {
    let mut mt = MultiToken::new();
    let claim = "claim".to_string();
    let alice = "alice".to_string();
    mt.mint(&claim, TokenKind::Ft, Some(u128::MAX), &alice, None).unwrap();
    assert_eq!(
        mt.mint(&claim, TokenKind::Ft, Some(1), &alice, None),
        Err(ContractError::Overflow)
    );
    assert_eq!(mt.total_supply(&claim), u128::MAX);
}

#[test]
fn register_token_kind_idempotent_or_conflicting() {
    let mut mt = MultiToken::new();
    let claim = "claim".to_string();
    mt.register_token_kind(&claim, TokenKind::Ft).unwrap();
    mt.register_token_kind(&claim, TokenKind::Ft).unwrap();
    assert_eq!(
        mt.register_token_kind(&claim, TokenKind::Nft),
        Err(ContractError::KindConflict)
    );
}

#[test]
fn transfer_moves_and_conserves() {
    let mut mt = MultiToken::new();
    let claim = "claim".to_string();
    let alice = "alice".to_string();
    let bob = "bob".to_string();
    mt.mint(&claim, TokenKind::Ft, Some(100), &alice, None).unwrap();
    mt.internal_transfer(&alice, &bob, &claim, 30).unwrap();
    assert_eq!(mt.balance_of(&alice, &claim), 70);
    assert_eq!(mt.balance_of(&bob, &claim), 30);
    assert_eq!(mt.total_supply(&claim), 100);
    assert_eq!(
        mt.internal_transfer(&alice, &bob, &claim, 71),
        Err(ContractError::InsufficientBalance)
    );
    // a zero-amount transfer succeeds as a no-op, even of an unknown token
    mt.internal_transfer(&alice, &bob, &"nope".to_string(), 0).unwrap();
}

#[test]
fn withdraw_burns_supply() {
    let mut mt = MultiToken::new();
    let claim = "claim".to_string();
    let alice = "alice".to_string();
    mt.mint(&claim, TokenKind::Ft, Some(100), &alice, None).unwrap();
    mt.internal_withdraw(&claim, &alice, 40).unwrap();
    assert_eq!(mt.balance_of(&alice, &claim), 60);
    assert_eq!(mt.total_supply(&claim), 60);
    assert_eq!(
        mt.internal_withdraw(&claim, &alice, 61),
        Err(ContractError::InsufficientBalance)
    );
}

#[test]
fn register_account_gives_zero_entry() {
    let mut mt = MultiToken::new();
    let claim = "claim".to_string();
    let alice = "alice".to_string();
    let bob = "bob".to_string();
    assert_eq!(
        mt.internal_register_account(&claim, &bob),
        Err(ContractError::NotFound)
    );
    mt.mint(&claim, TokenKind::Ft, Some(10), &alice, None).unwrap();
    mt.internal_register_account(&claim, &bob).unwrap();
    assert_eq!(mt.balance_of(&bob, &claim), 0);
    assert_eq!(mt.total_supply(&claim), 10);
}

#[test]
fn metadata_is_stored_once() {
    let mut mt = MultiToken::new();
    let claim = "claim".to_string();
    let alice = "alice".to_string();
    mt.mint(&claim, TokenKind::Ft, Some(1), &alice, Some("first".to_string())).unwrap();
    mt.mint(&claim, TokenKind::Ft, Some(1), &alice, Some("second".to_string())).unwrap();
    // later mints may supply metadata but never replace the original
    assert_eq!(mt.metadata_of(&claim), Some("first".to_string()));
    assert_eq!(mt.total_supply(&claim), 2);
    assert_eq!(mt.metadata_of(&"nope".to_string()), None);
}
