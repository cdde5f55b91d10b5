use vstd::prelude::*;

verus! {

/// Every way an operation can refuse to run.
///
/// An operation that returns one of these leaves the state exactly as it
/// was: no partial debit or credit ever persists.
#[derive(Clone, Copy, Debug, PartialEq, Eq, Structural)]
pub enum ContractError {
    /// A token id already exists with a different kind.
    KindConflict,
    /// A fungible amount was zero where a positive one is needed, or a
    /// sale amount exceeds the supply being minted.
    InvalidAmount,
    /// A non-fungible token id was minted before.
    AlreadyMinted,
    /// A debit was larger than the balance backing it.
    InsufficientBalance,
    /// A result does not fit the 128-bit balance domain.
    Overflow,
    /// A fractionalization record already exists for the token id.
    AlreadyFractionalized,
    /// A fungible asset id stood where a non-fungible one is needed.
    WrongAssetKind,
    /// An unwrap was tried by an account not holding the full supply.
    NotSoleHolder,
    /// A queried record does not exist.
    NotFound,
    /// An owner-gated operation was called by another account.
    Unauthorized,
    /// The attached payment does not cover storage and fees.
    InsufficientDeposit { required: u128 },
    /// The attached payment is not exactly the price asked.
    WrongDeposit { expected: u128 },
    /// A sale listing already exists for the token id.
    ListingExists,
    /// No sale listing exists for the token id.
    NoSuchListing,
    /// An account is not registered where registration is needed.
    NotRegistered,
    /// A purchase would push the sold counter past the amount on offer.
    ExceedsRemaining,
    /// The fractionalization record is terminal: the claim was unwrapped.
    AlreadyUnwrapped,
}

} // verus!
