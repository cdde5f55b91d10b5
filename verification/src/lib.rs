//! A multi-asset ledger engine.
//!
//! The crate tracks fungible and non-fungible token balances for many
//! accounts and token classes in one state value, and layers three
//! transactional protocols on top of it: internal balance custody for
//! externally-issued assets, NFT fractionalization (locking a set of
//! non-fungible assets and minting a fungible claim against them), and a
//! fee-bearing sale of such claims.
//!
//! The host that would normally supply a caller identity, an attached
//! payment and a persistent store is out of scope: every operation takes
//! the caller and the attached amount as arguments, works on an explicit
//! state value, and returns the refund it owes as a plain number for an
//! outer dispatcher to pay out.

pub mod accounts;
pub mod asset;
pub mod contract;
pub mod errors;
pub mod fee;
pub mod fractionalizer;
pub mod kv;
pub mod laws;
pub mod ledger;
pub mod sales;
