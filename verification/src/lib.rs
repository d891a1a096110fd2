//! A verified token-ownership ledger: a global registry of uniquely
//! identified tokens and per-owner dense index lists, emulated with
//! key-to-value maps, plus the token lifecycle built on top of it
//! (mint, price setting, transfer, purchase, recombination).

pub mod dna;
pub mod laws;
pub mod ledger;
pub mod model;
pub mod store;
pub mod types;
