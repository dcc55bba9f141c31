//! Synchronises bank transactions from SpareBank1 into a YNAB budget.
//!
//! The heart of the library is the import-identifier derivation: every
//! fetched transaction is turned into a YNAB transaction payload carrying a
//! deterministic `import_id`, so that submitting the same batch twice makes
//! the budgeting service skip the duplicates instead of re-importing them.

pub mod account_config;
pub mod amount;
pub mod auth_data;
pub mod common;
pub mod config;
pub mod setup;
pub mod sparebanken1;
pub mod text;
pub mod ynab;
