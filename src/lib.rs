//! State-transition logic of a marketplace for non-fungible tokens: minting,
//! collections, listings, outright sale with royalty splits, and purchase by
//! installments, all against an explicit in-memory store.

pub mod types;
pub mod ledger;
pub mod settlement;
pub mod ids;
pub mod pallet;
pub mod laws;
