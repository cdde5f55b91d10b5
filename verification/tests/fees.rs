use fracledger::errors::ContractError;
use fracledger::fee::{calculate_fee, reconcile_deposit, required_deposit, FEE_DENOMINATOR};

#[test]
fn fee_exact_small_values() {
    // 10% of 1000 at the platform denominator
    assert_eq!(calculate_fee(1000, 100_000_000, FEE_DENOMINATOR), Ok(100));
    // floor(7 * 3 / 10^9) == 0
    assert_eq!(calculate_fee(7, 3, FEE_DENOMINATOR), Ok(0));
    assert_eq!(calculate_fee(0, 123_456_789, FEE_DENOMINATOR), Ok(0));
}

#[test]
fn fee_exact_wide_intermediate() {
    // amount * numerator needs far more than 128 bits here
    let amount: u128 = 1 << 100;
    assert_eq!(
        calculate_fee(amount, 1_000_000_000, FEE_DENOMINATOR),
        Ok(amount)
    );
    assert_eq!(
        calculate_fee(amount, 500_000_000, FEE_DENOMINATOR),
        Ok(amount / 2)
    );
    // ten to the thirtieth times a near-third fraction, exactly
    let amount: u128 = 1_000_000_000_000_000_000_000_000_000_000;
    assert_eq!(
        calculate_fee(amount, 333_333_333, FEE_DENOMINATOR),
        Ok(333_333_333_000_000_000_000_000_000_000)
    );
}

#[test]
fn fee_overflow_detected() {
    // a numerator twice the denominator doubles the amount, which cannot fit
    assert_eq!(
        calculate_fee(u128::MAX, 2_000_000_000, FEE_DENOMINATOR),
        Err(ContractError::Overflow)
    );
}

#[test]
fn fee_monotone_in_amount() {
    let mut last: u128 = 0;
    for amount in [0u128, 1, 9, 10, 11, 999, 1000, 123_456_789] {
        let fee = calculate_fee(amount, 100_000_000, FEE_DENOMINATOR).unwrap();
        assert!(fee >= last);
        last = fee;
    }
}

#[test]
fn required_deposit_negative_delta_owes_flat_fee_only() {
    assert_eq!(required_deposit(-50, 10, 7), Ok(7));
    assert_eq!(required_deposit(0, 10, 7), Ok(7));
    assert_eq!(required_deposit(3, 10, 7), Ok(37));
    assert_eq!(
        required_deposit(2, u128::MAX, 0),
        Err(ContractError::Overflow)
    );
}

#[test]
fn reconcile_deposit_returns_surplus_keeps_dust() {
    assert_eq!(
        reconcile_deposit(5, 10),
        Err(ContractError::InsufficientDeposit { required: 10 })
    );
    assert_eq!(reconcile_deposit(10, 10), Ok(0));
    // a surplus of one unit is dust and is retained
    assert_eq!(reconcile_deposit(11, 10), Ok(0));
    assert_eq!(reconcile_deposit(12, 10), Ok(2));
}
