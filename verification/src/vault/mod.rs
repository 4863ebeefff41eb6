//! Vault metadata, and the decisions of vault storage.
pub mod meta;
pub mod names;
pub mod removal;
pub mod store;
