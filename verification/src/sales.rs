//! Sale listings.
//!
//! A listing offers a fixed quantity of a fungible claim token at a
//! fixed unit price, with a running counter of units sold. At most one
//! listing exists per token id, and `sold` never exceeds the amount on
//! offer.

use vstd::prelude::*;

use crate::errors::ContractError;
use crate::fee::FEE_DENOMINATOR;
use crate::kv::kv_unique;

verus! {

/// One sale listing.
#[derive(Debug, PartialEq, Eq)]
pub struct SaleOptions {
    /// How many units are offered in total.
    pub amount_to_sell: u128,
    /// The native-currency price of one unit.
    pub near_price_per_token: u128,
    /// How many units have been sold so far.
    pub sold: u128,
    /// The account the proceeds (minus the platform fee) go to.
    pub owner: String,
}

impl Clone for SaleOptions {
    fn clone(&self) -> (r: Self)
        ensures
            r == *self,
    {
        SaleOptions {
            amount_to_sell: self.amount_to_sell,
            near_price_per_token: self.near_price_per_token,
            sold: self.sold,
            owner: self.owner.clone(),
        }
    }
}

/// All sale state: listings by token id, plus the platform's fee
/// numerator over [`FEE_DENOMINATOR`].
pub struct Sales {
    pub sales: Vec<(String, SaleOptions)>,
    pub platform_fee_numerator: u128,
}

impl Sales {
    /// A fresh store with no listings and the given fee numerator.
    pub fn new(platform_fee: u128) -> (r: Sales)
        ensures
            r.sales@.len() == 0,
            r.platform_fee_numerator == platform_fee,
    {
        Sales { sales: Vec::new(), platform_fee_numerator: platform_fee }
    }
}

/// A single listing never sells more than it offers.
pub open spec fn sale_wf(s: SaleOptions) -> bool {
    s.sold <= s.amount_to_sell
}

/// Well-formedness of the sale state: distinct token ids, every listing
/// within its offer, and a fee that is a genuine fraction.
pub open spec fn sales_wf(s: Sales) -> bool {
    &&& kv_unique(s.sales@)
    &&& forall|i: int| 0 <= i < s.sales@.len() ==> sale_wf(#[trigger] s.sales@[i].1)
    &&& s.platform_fee_numerator <= FEE_DENOMINATOR as u128
}

impl SaleOptions {
    /// The exact native-currency cost of `amount` units. Fails with
    /// `Overflow` when it does not fit 128 bits.
    pub fn get_near_cost(&self, amount: u128) -> (r: Result<u128, ContractError>)
        ensures
            match r {
                Ok(c) => c == self.near_price_per_token * amount,
                Err(e) => {
                    &&& e == ContractError::Overflow
                    &&& self.near_price_per_token * amount > u128::MAX
                },
            },
    {
        match self.near_price_per_token.checked_mul(amount) {
            Some(c) => Ok(c),
            None => Err(ContractError::Overflow),
        }
    }
}

} // verus!
