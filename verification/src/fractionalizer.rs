//! Fractionalization records.
//!
//! One record per fractionalized token id: the ordered list of locked
//! assets and a terminal `unwrapped` flag. A record is created exactly
//! once and never deleted; once `unwrapped` is set the claim is burned,
//! the assets are released, and the record is inert.

use vstd::prelude::*;

use crate::asset::AssetId;

verus! {

/// The assets locked behind one fungible claim token.
pub struct NftInfo {
    /// The locked assets, in the order they were handed in.
    pub nfts: Vec<AssetId>,
    /// Set once the claim has been burned and the assets released; the
    /// record is terminal from then on.
    pub unwrapped: bool,
}

/// All fractionalization state: records by token id, plus the flat fee
/// charged for minting a claim.
pub struct NftFractionalizer {
    pub mt_to_nfts: Vec<(String, NftInfo)>,
    pub mint_fee: u128,
}

impl NftFractionalizer {
    /// A fresh store with no records and the given mint fee.
    pub fn new(mint_fee: u128) -> (r: NftFractionalizer)
        ensures
            r.mt_to_nfts@.len() == 0,
            r.mint_fee == mint_fee,
    {
        NftFractionalizer { mt_to_nfts: Vec::new(), mint_fee }
    }
}

/// An element-for-element copy of an asset id list.
pub fn assets_clone(v: &Vec<AssetId>) -> (r: Vec<AssetId>)
    ensures
        r@ == v@,
{
    let mut r: Vec<AssetId> = Vec::new();
    let mut i: usize = 0;
    while i < v.len()
        invariant
            i <= v@.len(),
            r@.len() == i,
            forall|j: int| 0 <= j < i ==> r@[j] == v@[j],
        decreases v@.len() - i,
    {
        r.push(v[i].clone());
        i = i + 1;
    }
    proof {
        assert(r@ =~= v@);
    }
    r
}

} // verus!
