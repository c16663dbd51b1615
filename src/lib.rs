//! A per-account, append-only ledger engine: domain model, balance-forward
//! computation, storage key schema, transaction planning and the retry driver.

pub mod text;
pub mod entity;
pub mod balance;
pub mod error;
pub mod append;
pub mod keys;
pub mod outside;
pub mod store;
pub mod revert;
pub mod select;
pub mod use_case;
pub mod query;
pub mod laws;
