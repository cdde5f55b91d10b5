use fracledger::asset::AssetId;
use fracledger::contract::{Contract, STORAGE_BYTE_COST};
use fracledger::errors::ContractError;
use fracledger::sales::SaleOptions;

const NFT_MINT_FEE: u128 = 1_000_000;
const SALE_FEE_NUMERATOR: u128 = 100_000_000;
const SUPPLY: u128 = 1_000_000_000_000_000;

fn nft(token_id: &str) -> AssetId {
    AssetId::Nft {
        contract_id: "nft".to_string(),
        token_id: token_id.to_string(),
    }
}

/// A contract with a running sale: 100 units at price 100, owned by
/// "root", with "buyer" registered for the claim token.
fn init_sale() -> (Contract, String) {
    let root = "root".to_string();
    let buyer = "buyer".to_string();
    let mt_id = "MyNFTFRACED".to_string();
    let mut contract = Contract::new(
        &root,
        "dummy".to_string(),
        Some(root.clone()),
        Some("alice".to_string()),
        Some(NFT_MINT_FEE),
        Some(SALE_FEE_NUMERATOR),
    );
    contract.internal_balance_increase(&root, &nft("nft_1"), 1).unwrap();
    contract
        .nft_fractionalize(
            vec![nft("nft_1")],
            &mt_id,
            SUPPLY,
            None,
            None,
            Some(100),
            Some(100),
            &root,
            NFT_MINT_FEE + STORAGE_BYTE_COST * 1_000,
            1_000,
        )
        .unwrap();
    contract.register_account(&buyer);
    contract.mt_register(&mt_id, &buyer).unwrap();
    (contract, mt_id)
}

#[test]
fn buy_wrong_deposit_off_by_one_rejected() {
    let (mut contract, mt_id) = init_sale();
    let buyer = "buyer".to_string();
    let before = contract.balance_of(&buyer, &mt_id);
    let r = contract.sale_buy(&mt_id, 10, &buyer, 999);
    assert_eq!(r, Err(ContractError::WrongDeposit { expected: 1000 }));
    let r = contract.sale_buy(&mt_id, 10, &buyer, 1001);
    assert_eq!(r, Err(ContractError::WrongDeposit { expected: 1000 }));
    assert_eq!(contract.balance_of(&buyer, &mt_id), before);
    assert_eq!(contract.sale_info(&mt_id).unwrap().sold, 0);
}

#[test]
fn buy_unregistered_caller_rejected() {
    let (mut contract, mt_id) = init_sale();
    let stranger = "stranger".to_string();
    let r = contract.sale_buy(&mt_id, 10, &stranger, 1000);
    assert_eq!(r, Err(ContractError::NotRegistered));
}

#[test]
fn buy_without_listing_rejected() {
    let (mut contract, _mt_id) = init_sale();
    let buyer = "buyer".to_string();
    let other = "other".to_string();
    let r = contract.sale_buy(&other, 10, &buyer, 1000);
    assert_eq!(r, Err(ContractError::NotRegistered));
    // a token the buyer holds but that was never listed
    let mt_id2 = "second".to_string();
    contract.internal_balance_increase(&"root".to_string(), &nft("nft_2"), 1).unwrap();
    contract
        .nft_fractionalize(
            vec![nft("nft_2")],
            &mt_id2,
            SUPPLY,
            None,
            None,
            None,
            None,
            &"root".to_string(),
            NFT_MINT_FEE + STORAGE_BYTE_COST * 1_000,
            1_000,
        )
        .unwrap();
    contract.mt_register(&mt_id2, &buyer).unwrap();
    let r = contract.sale_buy(&mt_id2, 10, &buyer, 1000);
    assert_eq!(r, Err(ContractError::NoSuchListing));
}

#[test]
fn buy_beyond_remaining_rejected() {
    let (mut contract, mt_id) = init_sale();
    let buyer = "buyer".to_string();
    contract.sale_buy(&mt_id, 60, &buyer, 6000).unwrap();
    assert_eq!(contract.sale_info(&mt_id).unwrap().sold, 60);
    // only 40 remain on offer
    let r = contract.sale_buy(&mt_id, 41, &buyer, 4100);
    assert_eq!(r, Err(ContractError::ExceedsRemaining));
    contract.sale_buy(&mt_id, 40, &buyer, 4000).unwrap();
    assert_eq!(contract.sale_info(&mt_id).unwrap().sold, 100);
    // the listing is exhausted and inert
    let r = contract.sale_buy(&mt_id, 1, &buyer, 100);
    assert_eq!(r, Err(ContractError::ExceedsRemaining));
}

#[test]
fn buy_zero_units_succeeds_idly() {
    let (mut contract, mt_id) = init_sale();
    let buyer = "buyer".to_string();
    contract.sale_buy(&mt_id, 0, &buyer, 0).unwrap();
    assert_eq!(contract.sale_info(&mt_id).unwrap().sold, 0);
    assert_eq!(contract.balance_of(&buyer, &mt_id), 0);
}

#[test]
fn listing_cannot_be_created_twice() {
    let (mut contract, mt_id) = init_sale();
    let r = contract.sales_create(
        &mt_id,
        SaleOptions {
            amount_to_sell: 5,
            near_price_per_token: 1,
            sold: 0,
            owner: "root".to_string(),
        },
    );
    assert_eq!(r, Err(ContractError::ListingExists));
}

#[test]
fn sale_info_missing_listing_rejected() {
    let (contract, _mt_id) = init_sale();
    assert_eq!(
        contract.sale_info(&"nope".to_string()),
        Err(ContractError::NoSuchListing)
    );
}

#[test]
fn sale_get_all_sales_lists_every_listing() {
    let (contract, mt_id) = init_sale();
    let all = contract.sale_get_all_sales();
    assert_eq!(all.len(), 1);
    assert_eq!(all[0].0, mt_id);
    assert_eq!(all[0].1.amount_to_sell, 100);
    assert_eq!(all[0].1.near_price_per_token, 100);
    assert_eq!(all[0].1.sold, 0);
}

#[test]
fn buy_cost_overflow_rejected() {
    let root = "root".to_string();
    let buyer = "buyer".to_string();
    let mt_id = "claim".to_string();
    let mut contract = Contract::new(
        &root,
        "dummy".to_string(),
        None,
        None,
        None,
        Some(SALE_FEE_NUMERATOR),
    );
    contract.internal_balance_increase(&root, &nft("nft_1"), 1).unwrap();
    contract
        .nft_fractionalize(
            vec![nft("nft_1")],
            &mt_id,
            SUPPLY,
            None,
            None,
            Some(100),
            Some(u128::MAX / 2),
            &root,
            NFT_MINT_FEE + STORAGE_BYTE_COST * 1_000,
            1_000,
        )
        .unwrap();
    contract.register_account(&buyer);
    contract.mt_register(&mt_id, &buyer).unwrap();
    let r = contract.sale_buy(&mt_id, 3, &buyer, 0);
    assert_eq!(r, Err(ContractError::Overflow));
}
