//! A verified token-accounting core.
//!
//! The library models a fungible-token module: a record store holding
//! mints, holder accounts, token metadata, freeze flags and a singleton
//! registry; engines that create token types, issue supply, move balances
//! and toggle freeze flags; and an authority gate for privileged issuance.
//! Every operation is an atomic transaction over the in-memory store:
//! it either applies fully or fails with one typed error and no mutation.
//!
//! Host concerns (durable storage, signature verification of identities,
//! storage-fee accounting, address derivation) stay with the caller: the
//! library works on already-authenticated plain values.

pub mod authority;
pub mod errors;
pub mod records;
pub mod store;
pub mod ledger;
pub mod laws;
