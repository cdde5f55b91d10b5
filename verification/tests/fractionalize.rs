use fracledger::asset::AssetId;
use fracledger::contract::{Contract, STORAGE_BYTE_COST};
use fracledger::errors::ContractError;

const NFT_MINT_FEE: u128 = 1_000_000;
const SALE_FEE_NUMERATOR: u128 = 100_000_000;
const SUPPLY: u128 = 1_000_000_000_000_000;

fn nft(token_id: &str) -> AssetId {
    AssetId::Nft {
        contract_id: "nft".to_string(),
        token_id: token_id.to_string(),
    }
}

/// A contract owned by "root" with treasury "alice", the caller "root"
/// registered and holding one unit of each of the given assets in
/// custody.
fn init(nfts: &[AssetId], nft_mint_fee: u128, sale_fee: u128) -> Contract {
    let root = "root".to_string();
    let mut contract = Contract::new(
        &root,
        "dummy".to_string(),
        Some(root.clone()),
        Some("alice".to_string()),
        Some(nft_mint_fee),
        Some(sale_fee),
    );
    for asset in nfts {
        contract
            .internal_balance_increase(&root, asset, 1)
            .unwrap();
    }
    contract
}

fn init_with_fractionalize_nfts(
    sale_amount: Option<u128>,
    sale_price: Option<u128>,
    attached: Option<u128>,
) -> (Contract, Vec<AssetId>, String, Result<u128, ContractError>) {
    let nfts = vec![nft("nft_1"), nft("nft_2")];
    let mut contract = init(&nfts, NFT_MINT_FEE, SALE_FEE_NUMERATOR);
    let mt_id = "MyNFTFRACED".to_string();
    let root = "root".to_string();
    for asset in &nfts {
        assert_eq!(contract.internal_balance_get_balance(&root, asset), 1);
    }
    let r = contract.nft_fractionalize(
        vec![nft("nft_1"), nft("nft_2")],
        &mt_id,
        SUPPLY,
        None,
        Some("mt-1.0.0".to_string()),
        sale_amount,
        sale_price,
        &root,
        attached.unwrap_or(NFT_MINT_FEE + STORAGE_BYTE_COST * 1_000),
        1_000,
    );
    (contract, nfts, mt_id, r)
}

#[test]
fn simulate_simple_fractionalization() {
    let (mut contract, nfts, mt_id, r) = init_with_fractionalize_nfts(None, None, None);
    r.unwrap();
    let root = "root".to_string();
    assert_eq!(contract.balance_of(&root, &mt_id), SUPPLY);
    for asset in &nfts {
        assert_eq!(contract.internal_balance_get_balance(&root, asset), 0);
    }
    contract
        .nft_fractionalize_unwrap(&mt_id, None, &root, 1)
        .unwrap();
    for asset in &nfts {
        assert_eq!(contract.internal_balance_get_balance(&root, asset), 1);
    }
    assert_eq!(contract.balance_of(&root, &mt_id), 0);
    assert_eq!(contract.total_supply(&mt_id), 0);
}

#[test]
fn simulate_nft_frac_sale() {
    let sale_amount: u128 = 100;
    let whole_to_buy: u128 = 10;
    let sale_price: u128 = 100;
    let (mut contract, _nfts, mt_id, r) =
        init_with_fractionalize_nfts(Some(sale_amount), Some(sale_price), None);
    r.unwrap();
    let root = "root".to_string();
    let alice = "alice".to_string();
    let dummy = "dummy".to_string();

    assert_eq!(contract.balance_of(&root, &mt_id), SUPPLY - sale_amount);
    assert_eq!(contract.balance_of(&dummy, &mt_id), sale_amount);

    let sale = contract.sale_info(&mt_id).unwrap();
    assert_eq!(sale.amount_to_sell, sale_amount);
    assert_eq!(sale.near_price_per_token, sale_price);
    assert_eq!(sale.sold, 0);
    assert_eq!(sale.owner, root);

    // the buyer registers for the claim token, then buys
    contract.register_account(&alice);
    contract.mt_register(&mt_id, &alice).unwrap();
    let treasury_before = contract.accounts_near_balance_of(&alice);
    let seller_before = contract.accounts_near_balance_of(&root);
    contract
        .sale_buy(&mt_id, whole_to_buy, &alice, sale_price * whole_to_buy)
        .unwrap();

    let sale = contract.sale_info(&mt_id).unwrap();
    assert_eq!(sale.sold, whole_to_buy);
    assert_eq!(
        contract.balance_of(&dummy, &mt_id),
        sale_amount - whole_to_buy
    );
    assert_eq!(contract.balance_of(&alice, &mt_id), whole_to_buy);

    let expected_treasury_increase =
        sale_price * whole_to_buy * SALE_FEE_NUMERATOR / 1_000_000_000;
    let expected_seller_increase = sale_price * whole_to_buy - expected_treasury_increase;
    assert_eq!(
        contract.accounts_near_balance_of(&alice) - treasury_before,
        expected_treasury_increase
    );
    assert_eq!(
        contract.accounts_near_balance_of(&root) - seller_before,
        expected_seller_increase
    );
    assert_eq!(expected_treasury_increase, 100);
    assert_eq!(expected_seller_increase, 900);
}

#[test]
fn simulate_fractionalize_not_enough_attached() {
    let (contract, _nfts, _mt_id, r) =
        init_with_fractionalize_nfts(Some(100), Some(100), Some(0));
    let required: u128 = 909 * STORAGE_BYTE_COST + NFT_MINT_FEE;
    // with a 909-byte delta the host would demand exactly this
    assert_eq!(required, 9_090_000_000_000_001_000_000);
    let root = "root".to_string();
    let mut contract = contract;
    let r2 = contract.nft_fractionalize(
        vec![nft("nft_1"), nft("nft_2")],
        &"other".to_string(),
        SUPPLY,
        None,
        None,
        Some(100),
        Some(100),
        &root,
        0,
        909,
    );
    assert_eq!(
        r2,
        Err(ContractError::InsufficientDeposit { required })
    );
    // the first call, attached nothing, failed the same way
    assert_eq!(
        r,
        Err(ContractError::InsufficientDeposit {
            required: 1_000 * STORAGE_BYTE_COST + NFT_MINT_FEE
        })
    );
    // and nothing was debited
    assert_eq!(
        contract.internal_balance_get_balance(&root, &nft("nft_1")),
        1
    );
}

#[test]
fn simulate_fractionalize_too_much_attached_and_returns() {
    // two whole coins attached; everything beyond the required deposit
    // comes back as the refund
    let attached: u128 = 2_000_000_000_000_000_000_000_000;
    let (_contract, _nfts, _mt_id, r) =
        init_with_fractionalize_nfts(Some(100), Some(100), Some(attached));
    let required: u128 = 1_000 * STORAGE_BYTE_COST + NFT_MINT_FEE;
    assert_eq!(r, Ok(attached - required));
}

#[test]
fn fractionalize_twice_rejected_and_balances_kept() {
    let (mut contract, nfts, mt_id, r) = init_with_fractionalize_nfts(None, None, None);
    r.unwrap();
    let root = "root".to_string();
    // give the caller spare custody units so only the duplicate id can fail
    for asset in &nfts {
        contract.internal_balance_increase(&root, asset, 5).unwrap();
    }
    let before: Vec<u128> = nfts
        .iter()
        .map(|a| contract.internal_balance_get_balance(&root, a))
        .collect();
    let r2 = contract.nft_fractionalize(
        vec![nft("nft_1"), nft("nft_2")],
        &mt_id,
        SUPPLY,
        None,
        None,
        None,
        None,
        &root,
        NFT_MINT_FEE + STORAGE_BYTE_COST * 1_000,
        1_000,
    );
    assert_eq!(r2, Err(ContractError::AlreadyFractionalized));
    let after: Vec<u128> = nfts
        .iter()
        .map(|a| contract.internal_balance_get_balance(&root, a))
        .collect();
    assert_eq!(before, after);
    assert_eq!(contract.balance_of(&root, &mt_id), SUPPLY);
}

#[test]
fn fractionalize_rejects_fungible_asset() {
    let ft = AssetId::Ft {
        contract_id: "coin".to_string(),
    };
    let mut contract = init(&[ft.clone()], NFT_MINT_FEE, SALE_FEE_NUMERATOR);
    let root = "root".to_string();
    let r = contract.nft_fractionalize(
        vec![ft],
        &"claim".to_string(),
        SUPPLY,
        None,
        None,
        None,
        None,
        &root,
        NFT_MINT_FEE + STORAGE_BYTE_COST * 1_000,
        1_000,
    );
    assert_eq!(r, Err(ContractError::WrongAssetKind));
}

#[test]
fn fractionalize_rejects_missing_custody() {
    let mut contract = init(&[nft("nft_1")], NFT_MINT_FEE, SALE_FEE_NUMERATOR);
    let root = "root".to_string();
    let r = contract.nft_fractionalize(
        vec![nft("nft_1"), nft("nft_1")],
        &"claim".to_string(),
        SUPPLY,
        None,
        None,
        None,
        None,
        &root,
        NFT_MINT_FEE + STORAGE_BYTE_COST * 1_000,
        1_000,
    );
    // the second occurrence of the same asset finds no second unit
    assert_eq!(r, Err(ContractError::InsufficientBalance));
    assert_eq!(
        contract.internal_balance_get_balance(&root, &nft("nft_1")),
        1
    );
}

#[test]
fn fractionalize_rejects_sale_beyond_supply() {
    let (_contract, _nfts, _mt_id, r) =
        init_with_fractionalize_nfts(Some(SUPPLY + 1), Some(1), None);
    assert_eq!(r, Err(ContractError::InvalidAmount));
}

#[test]
fn unwrap_not_sole_holder_rejected() {
    let sale_amount: u128 = 100;
    let (mut contract, _nfts, mt_id, r) =
        init_with_fractionalize_nfts(Some(sale_amount), Some(100), None);
    r.unwrap();
    let root = "root".to_string();
    // part of the supply sits in custody for the sale, so the caller is
    // not the sole holder
    let r2 = contract.nft_fractionalize_unwrap(&mt_id, None, &root, 1);
    assert_eq!(r2, Err(ContractError::NotSoleHolder));
}

#[test]
fn unwrap_requires_one_attached_unit() {
    let (mut contract, _nfts, mt_id, r) = init_with_fractionalize_nfts(None, None, None);
    r.unwrap();
    let root = "root".to_string();
    let r2 = contract.nft_fractionalize_unwrap(&mt_id, None, &root, 0);
    assert_eq!(r2, Err(ContractError::WrongDeposit { expected: 1 }));
    let r3 = contract.nft_fractionalize_unwrap(&mt_id, None, &root, 2);
    assert_eq!(r3, Err(ContractError::WrongDeposit { expected: 1 }));
}

#[test]
fn unwrap_is_terminal() {
    let (mut contract, _nfts, mt_id, r) = init_with_fractionalize_nfts(None, None, None);
    r.unwrap();
    let root = "root".to_string();
    contract
        .nft_fractionalize_unwrap(&mt_id, None, &root, 1)
        .unwrap();
    let r2 = contract.nft_fractionalize_unwrap(&mt_id, None, &root, 1);
    assert_eq!(r2, Err(ContractError::AlreadyUnwrapped));
}

#[test]
fn unwrap_releases_to_chosen_account() {
    let (mut contract, nfts, mt_id, r) = init_with_fractionalize_nfts(None, None, None);
    r.unwrap();
    let root = "root".to_string();
    let alice = "alice".to_string();
    contract
        .nft_fractionalize_unwrap(&mt_id, Some(alice.clone()), &root, 1)
        .unwrap();
    for asset in &nfts {
        assert_eq!(contract.internal_balance_get_balance(&alice, asset), 1);
        assert_eq!(contract.internal_balance_get_balance(&root, asset), 0);
    }
}

#[test]
fn get_underlying_and_mint_fee() {
    let (mut contract, nfts, mt_id, r) = init_with_fractionalize_nfts(None, None, None);
    r.unwrap();
    assert_eq!(contract.nft_fractionalize_get_underlying(&mt_id).unwrap(), nfts);
    assert_eq!(
        contract.nft_fractionalize_get_underlying(&"nope".to_string()),
        Err(ContractError::NotFound)
    );
    assert_eq!(contract.nft_fractionalize_get_mint_fee(), NFT_MINT_FEE);
    let root = "root".to_string();
    let alice = "alice".to_string();
    assert_eq!(
        contract.nft_fractionalize_update_mint_fee(&alice, 5),
        Err(ContractError::Unauthorized)
    );
    contract.nft_fractionalize_update_mint_fee(&root, 5).unwrap();
    assert_eq!(contract.nft_fractionalize_get_mint_fee(), 5);
}
