//! A personal ledger: accounts, categories and transactions with category splits.
//!
//! The ledger (`ledger`) is the only writer of its entities. Each operation validates
//! its input first and then commits as a whole, or fails with a typed error and leaves
//! the ledger exactly as it was. An account's balance always equals the sum of its
//! incomes minus the sum of its expenses; a transfer is recorded on its source account
//! and moves no balance. Every committed change hands one signal to each registered
//! observer (`notifier`). `client` holds the terminal client's state and its reactions
//! to keys; `laws` states properties that relate several operations.
pub mod amount;
pub mod client;
pub mod laws;
pub mod ledger;
pub mod model;
pub mod notifier;
mod outside;
pub mod text;
