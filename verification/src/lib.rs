//! A verified marketplace for mintable, priced, royalty-bearing non-fungible
//! tokens.
//!
//! The library couples three ledgers — per-class configuration, a sale book,
//! and account balances — with a class/token ownership registry, and proves
//! that every operation either applies completely or leaves all of them
//! untouched.

mod ledger;
mod registry;
pub mod market;
mod table;

pub use market::ClassConfig;
pub use market::Error;
pub use market::Event;
pub use market::Marketplace;
