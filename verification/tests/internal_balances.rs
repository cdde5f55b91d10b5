use fracledger::asset::AssetId;
use fracledger::contract::Contract;
use fracledger::errors::ContractError;

fn new_contract() -> Contract {
    let root = "root".to_string();
    Contract::new(&root, "dummy".to_string(), None, None, None, None)
}

#[test]
fn simulate_ft_simple_internal_balances_test() {
    let mut contract = new_contract();
    let root = "root".to_string();
    let amount_transfer: u128 = 1000;
    let ft_id = AssetId::Ft {
        contract_id: "ft".to_string(),
    };
    // a deposit notification credits the sender's custody balance
    contract
        .internal_balance_increase(&root, &ft_id, amount_transfer)
        .unwrap();
    assert_eq!(
        contract.internal_balance_get_balance(&root, &ft_id),
        amount_transfer
    );
    // withdrawing back out debits it again
    contract
        .internal_balance_subtract(&root, &ft_id, amount_transfer)
        .unwrap();
    assert_eq!(contract.internal_balance_get_balance(&root, &ft_id), 0);
}

#[test]
fn simulate_ft_simple_internal_balances_test_with_sender_id() {
    let mut contract = new_contract();
    let alice = "alice".to_string();
    let amount_transfer: u128 = 1000;
    let ft_id = AssetId::Ft {
        contract_id: "ft".to_string(),
    };
    // the deposit names another beneficiary than the transferring account
    contract.register_account(&alice);
    contract
        .internal_balance_increase(&alice, &ft_id, amount_transfer)
        .unwrap();
    assert_eq!(
        contract.internal_balance_get_balance(&alice, &ft_id),
        amount_transfer
    );
    contract
        .internal_balance_subtract(&alice, &ft_id, amount_transfer)
        .unwrap();
    assert_eq!(contract.internal_balance_get_balance(&alice, &ft_id), 0);
}

#[test]
fn simulate_nft_simple_internal_balances_test_no_sender_id() {
    let mut contract = new_contract();
    let root = "root".to_string();
    let nft_id = AssetId::Nft {
        contract_id: "nft".to_string(),
        token_id: "nft_token".to_string(),
    };
    contract.internal_balance_increase(&root, &nft_id, 1).unwrap();
    assert_eq!(contract.internal_balance_get_balance(&root, &nft_id), 1);
    contract.internal_balance_subtract(&root, &nft_id, 1).unwrap();
    assert_eq!(contract.internal_balance_get_balance(&root, &nft_id), 0);
}

#[test]
fn simulate_nft_simple_internal_balances_test_with_sender_id() {
    let mut contract = new_contract();
    let alice = "alice".to_string();
    let nft_id = AssetId::Nft {
        contract_id: "nft".to_string(),
        token_id: "nft_token".to_string(),
    };
    contract.register_account(&alice);
    contract.internal_balance_increase(&alice, &nft_id, 1).unwrap();
    assert_eq!(contract.internal_balance_get_balance(&alice, &nft_id), 1);
    contract.internal_balance_subtract(&alice, &nft_id, 1).unwrap();
    assert_eq!(contract.internal_balance_get_balance(&alice, &nft_id), 0);
}

#[test]
fn simulate_mt_ft_simple_internal_balances_test() {
    let mut contract = new_contract();
    let root = "root".to_string();
    let amount_transfer: u128 = 1000;
    let mt_id = AssetId::Mt {
        contract_id: "mt".to_string(),
        token_id: "mt_ft_token".to_string(),
    };
    contract
        .internal_balance_increase(&root, &mt_id, amount_transfer)
        .unwrap();
    assert_eq!(
        contract.internal_balance_get_balance(&root, &mt_id),
        amount_transfer
    );
    contract
        .internal_balance_subtract(&root, &mt_id, amount_transfer)
        .unwrap();
    assert_eq!(contract.internal_balance_get_balance(&root, &mt_id), 0);
}

#[test]
fn simulate_mt_nft_simple_internal_balances_test() {
    let mut contract = new_contract();
    let root = "root".to_string();
    let mt_id = AssetId::Mt {
        contract_id: "mt".to_string(),
        token_id: "mt_nft_token".to_string(),
    };
    contract.internal_balance_increase(&root, &mt_id, 1).unwrap();
    assert_eq!(contract.internal_balance_get_balance(&root, &mt_id), 1);
    contract.internal_balance_subtract(&root, &mt_id, 1).unwrap();
    assert_eq!(contract.internal_balance_get_balance(&root, &mt_id), 0);
}

#[test]
fn simulate_mt_ft_simple_internal_balances_test_with_sender_id() {
    let mut contract = new_contract();
    let alice = "alice".to_string();
    let amount_transfer: u128 = 1000;
    let mt_id = AssetId::Mt {
        contract_id: "mt".to_string(),
        token_id: "mt_ft_token".to_string(),
    };
    contract.register_account(&alice);
    contract
        .internal_balance_increase(&alice, &mt_id, amount_transfer)
        .unwrap();
    assert_eq!(
        contract.internal_balance_get_balance(&alice, &mt_id),
        amount_transfer
    );
    contract
        .internal_balance_subtract(&alice, &mt_id, amount_transfer)
        .unwrap();
    assert_eq!(contract.internal_balance_get_balance(&alice, &mt_id), 0);
}

#[test]
fn simulate_mt_nft_simple_internal_balances_test_with_sender_id() {
    let mut contract = new_contract();
    let alice = "alice".to_string();
    let mt_id = AssetId::Mt {
        contract_id: "mt".to_string(),
        token_id: "mt_nft_token".to_string(),
    };
    contract.register_account(&alice);
    contract.internal_balance_increase(&alice, &mt_id, 1).unwrap();
    assert_eq!(contract.internal_balance_get_balance(&alice, &mt_id), 1);
    contract.internal_balance_subtract(&alice, &mt_id, 1).unwrap();
    assert_eq!(contract.internal_balance_get_balance(&alice, &mt_id), 0);
}

#[test]
fn internal_balances_guard_their_edges() {
    let mut contract = new_contract();
    let root = "root".to_string();
    let stranger = "stranger".to_string();
    let ft_id = AssetId::Ft {
        contract_id: "ft".to_string(),
    };
    assert_eq!(
        contract.internal_balance_increase(&stranger, &ft_id, 1),
        Err(ContractError::NotRegistered)
    );
    contract.internal_balance_increase(&root, &ft_id, u128::MAX).unwrap();
    assert_eq!(
        contract.internal_balance_increase(&root, &ft_id, 1),
        Err(ContractError::Overflow)
    );
    assert_eq!(
        contract.internal_balance_subtract(&root, &ft_id, u128::MAX),
        Ok(())
    );
    assert_eq!(
        contract.internal_balance_subtract(&root, &ft_id, 1),
        Err(ContractError::InsufficientBalance)
    );
    assert_eq!(contract.accounts_near_balance_of(&root), 0);
}
