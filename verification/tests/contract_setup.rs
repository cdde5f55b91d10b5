use fracledger::asset::AssetId;
use fracledger::contract::{Contract, STORAGE_BYTE_COST};
use fracledger::sales::SaleOptions;

const NFT_MINT_FEE: u128 = 1_000_000;
const SALE_FEE_NUMERATOR: u128 = 100_000_000;

#[test]
fn new_defaults_owner_and_treasury_to_caller() {
    let caller = "root".to_string();
    let contract = Contract::new(&caller, "dummy".to_string(), None, None, None, None);
    assert_eq!(contract.nft_fractionalize_get_mint_fee(), 0);
    assert_eq!(contract.accounts_near_balance_of(&caller), 0);
    let mut contract = contract;
    // only the caller may change the mint fee, so it must be the owner
    contract.nft_fractionalize_update_mint_fee(&caller, 7).unwrap();
    assert_eq!(contract.nft_fractionalize_get_mint_fee(), 7);
}

#[test]
fn near_cost_is_price_times_amount() {
    let sale = SaleOptions {
        amount_to_sell: 100,
        near_price_per_token: 250,
        sold: 0,
        owner: "root".to_string(),
    };
    assert_eq!(sale.get_near_cost(4), Ok(1000));
    assert_eq!(sale.get_near_cost(0), Ok(0));
    let dear = SaleOptions {
        amount_to_sell: 100,
        near_price_per_token: u128::MAX,
        sold: 0,
        owner: "root".to_string(),
    };
    assert!(dear.get_near_cost(2).is_err());
}

#[test]
fn sale_proceeds_merge_when_treasury_is_seller() {
    // the treasury account is also the listing owner: the whole payment
    // lands on one account
    let root = "root".to_string();
    let buyer = "buyer".to_string();
    let mt_id = "claim".to_string();
    let mut contract = Contract::new(
        &root,
        "dummy".to_string(),
        Some(root.clone()),
        Some(root.clone()),
        Some(NFT_MINT_FEE),
        Some(SALE_FEE_NUMERATOR),
    );
    let item = AssetId::Nft {
        contract_id: "nft".to_string(),
        token_id: "nft_1".to_string(),
    };
    contract.internal_balance_increase(&root, &item, 1).unwrap();
    contract
        .nft_fractionalize(
            vec![item],
            &mt_id,
            1_000,
            None,
            None,
            Some(100),
            Some(100),
            &root,
            NFT_MINT_FEE + STORAGE_BYTE_COST * 1_000,
            1_000,
        )
        .unwrap();
    contract.register_account(&buyer);
    contract.mt_register(&mt_id, &buyer).unwrap();
    let before = contract.accounts_near_balance_of(&root);
    contract.sale_buy(&mt_id, 10, &buyer, 1000).unwrap();
    assert_eq!(contract.accounts_near_balance_of(&root) - before, 1000);
}
