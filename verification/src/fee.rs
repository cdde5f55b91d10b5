//! Fee and storage-deposit accounting.
//!
//! Fees are fixed-point fractions of an amount: `floor(amount * numerator /
//! denominator)`. Both the amount and the numerator span the full 128-bit
//! range, so the intermediate product does not fit any machine integer; the
//! implementation decomposes the product instead of widening it, and is
//! proved exact against the mathematical quotient.

use vstd::arithmetic::div_mod::{
    lemma_div_is_ordered, lemma_div_multiples_vanish, lemma_div_pos_is_pos,
    lemma_fundamental_div_mod, lemma_fundamental_div_mod_converse, lemma_mod_bound,
};
use vstd::arithmetic::mul::{lemma_mul_inequality, lemma_mul_is_commutative, lemma_mul_nonnegative};
use vstd::prelude::*;

use crate::errors::ContractError;

verus! {

/// Platform-wide fixed-point denominator for fee fractions.
pub const FEE_DENOMINATOR: u64 = 1_000_000_000;

/// A deposit surplus at or below this many units is retained rather than
/// returned to the caller.
pub const DUST_THRESHOLD: u128 = 1;

/// The exact fee owed on `amount`: `floor(amount * numerator / denominator)`.
pub open spec fn fee_of(amount: u128, numerator: u128, denominator: u64) -> int
    recommends
        denominator > 0,
{
    (amount * numerator) / (denominator as int)
}

/// Splitting both factors by the divisor turns one quotient of a too-wide
/// product into three quotients of products that fit a machine word.
proof fn lemma_muldiv_decompose(a: int, b: int, d: int)
    requires
        d > 0,
        a >= 0,
        b >= 0,
    ensures
        (a * b) / d == (a / d) * b + (a % d) * (b / d) + ((a % d) * (b % d)) / d,
{
    let qa = a / d;
    let ra = a % d;
    let qb = b / d;
    let rb = b % d;
    lemma_fundamental_div_mod(a, d);
    lemma_fundamental_div_mod(b, d);
    lemma_mod_bound(a, d);
    lemma_mod_bound(b, d);
    lemma_mul_nonnegative(ra, rb);
    lemma_fundamental_div_mod(ra * rb, d);
    lemma_mod_bound(ra * rb, d);
    let k = qa * b + ra * qb;
    let q3 = (ra * rb) / d;
    let r3 = (ra * rb) % d;
    assert((a * b) == (k + q3) * d + r3) by (nonlinear_arith)
        requires
            a == d * qa + ra,
            b == d * qb + rb,
            k == qa * b + ra * qb,
            ra * rb == d * q3 + r3,
    ;
    lemma_fundamental_div_mod_converse(a * b, d, k + q3, r3);
}

/// The exact proportional fee, with the intermediate product carried at
/// full precision. Returns `Overflow` exactly when the mathematical result
/// itself does not fit 128 bits.
pub fn calculate_fee(amount: u128, fee_numerator: u128, fee_denominator: u64) -> (r: Result<
    u128,
    ContractError,
>)
    requires
        fee_denominator > 0,
    ensures
        match r {
            Ok(v) => v == fee_of(amount, fee_numerator, fee_denominator),
            Err(e) => {
                &&& e == ContractError::Overflow
                &&& fee_of(amount, fee_numerator, fee_denominator) > u128::MAX
            },
        },
{
    let d: u128 = fee_denominator as u128;
    let qa: u128 = amount / d;
    let ra: u128 = amount % d;
    let qb: u128 = fee_numerator / d;
    let rb: u128 = fee_numerator % d;
    proof {
        lemma_muldiv_decompose(amount as int, fee_numerator as int, d as int);
        lemma_mul_nonnegative(ra as int, qb as int);
        assert(ra * rb < 0x1_0000_0000_0000_0000_0000_0000_0000_0000) by (nonlinear_arith)
            requires
                0 <= ra < 0x1_0000_0000_0000_0000,
                0 <= rb < 0x1_0000_0000_0000_0000,
        ;
    }
    let t3: u128 = ra * rb;
    let part3: u128 = t3 / d;
    let t1: u128 = match qa.checked_mul(fee_numerator) {
        Some(v) => v,
        None => {
            return Err(ContractError::Overflow);
        },
    };
    let t2: u128 = match ra.checked_mul(qb) {
        Some(v) => v,
        None => {
            return Err(ContractError::Overflow);
        },
    };
    let s1: u128 = match t1.checked_add(t2) {
        Some(v) => v,
        None => {
            return Err(ContractError::Overflow);
        },
    };
    let s2: u128 = match s1.checked_add(part3) {
        Some(v) => v,
        None => {
            return Err(ContractError::Overflow);
        },
    };
    Ok(s2)
}

/// A fee fraction never increases the amount it is taken from, and is
/// never negative, as long as the numerator stays at or below the
/// denominator.
pub proof fn lemma_fee_le_amount(amount: u128, numerator: u128, denominator: u64)
    requires
        denominator > 0,
        numerator <= denominator,
    ensures
        0 <= fee_of(amount, numerator, denominator) <= amount,
{
    let a = amount as int;
    let n = numerator as int;
    let d = denominator as int;
    lemma_mul_nonnegative(a, n);
    lemma_div_pos_is_pos(a * n, d);
    lemma_mul_inequality(n, d, a);
    lemma_mul_is_commutative(a, n);
    lemma_mul_is_commutative(a, d);
    lemma_div_is_ordered(a * n, a * d, d);
    lemma_div_multiples_vanish(a, d);
}

/// The fee is monotonic in the amount it is taken from.
pub proof fn lemma_fee_monotonic(a1: u128, a2: u128, numerator: u128, denominator: u64)
    requires
        denominator > 0,
        a1 <= a2,
    ensures
        fee_of(a1, numerator, denominator) <= fee_of(a2, numerator, denominator),
{
    lemma_mul_inequality(a1 as int, a2 as int, numerator as int);
    lemma_div_is_ordered(
        a1 as int * numerator as int,
        a2 as int * numerator as int,
        denominator as int,
    );
}

/// What a call must attach to pay for the storage it allocates plus a flat
/// fee. A negative delta (net storage freed) owes the flat fee alone.
pub open spec fn spec_required_deposit(
    storage_bytes_delta: i64,
    byte_cost: u128,
    flat_fee: u128,
) -> int {
    if storage_bytes_delta <= 0 {
        flat_fee as int
    } else {
        storage_bytes_delta * byte_cost + flat_fee
    }
}

/// `storage_bytes_delta * byte_cost + flat_fee`, clamped below at the flat
/// fee when storage was freed. Returns `Overflow` exactly when the result
/// does not fit 128 bits.
pub fn required_deposit(storage_bytes_delta: i64, byte_cost: u128, flat_fee: u128) -> (r: Result<
    u128,
    ContractError,
>)
    ensures
        match r {
            Ok(v) => v == spec_required_deposit(storage_bytes_delta, byte_cost, flat_fee),
            Err(e) => {
                &&& e == ContractError::Overflow
                &&& spec_required_deposit(storage_bytes_delta, byte_cost, flat_fee) > u128::MAX
            },
        },
{
    if storage_bytes_delta <= 0 {
        return Ok(flat_fee);
    }
    let bytes: u128 = storage_bytes_delta as u128;
    let storage_cost: u128 = match bytes.checked_mul(byte_cost) {
        Some(v) => v,
        None => {
            return Err(ContractError::Overflow);
        },
    };
    match storage_cost.checked_add(flat_fee) {
        Some(v) => Ok(v),
        None => Err(ContractError::Overflow),
    }
}

/// The refund owed back to the caller: the surplus over the required
/// deposit if it is worth returning, nothing if it is dust.
pub open spec fn spec_refund(attached: u128, required: u128) -> u128
    recommends
        attached >= required,
{
    if attached - required > DUST_THRESHOLD {
        (attached - required) as u128
    } else {
        0
    }
}

/// Checks an attached payment against the required deposit. Fails with
/// `InsufficientDeposit` exactly when the payment falls short; otherwise
/// returns the surplus to be paid back, keeping dust.
pub fn reconcile_deposit(attached: u128, required: u128) -> (r: Result<u128, ContractError>)
    ensures
        match r {
            Ok(refund) => {
                &&& attached >= required
                &&& refund == spec_refund(attached, required)
            },
            Err(e) => {
                &&& e == (ContractError::InsufficientDeposit { required })
                &&& attached < required
            },
        },
{
    if attached < required {
        return Err(ContractError::InsufficientDeposit { required });
    }
    let surplus: u128 = attached - required;
    if surplus > DUST_THRESHOLD {
        Ok(surplus)
    } else {
        Ok(0)
    }
}

} // verus!
