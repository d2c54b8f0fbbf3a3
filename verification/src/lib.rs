//! A migration sequencing engine: it discovers and validates paired
//! `NNNN_<name>.up.sql` / `NNNN_<name>.down.sql` files, models the ledger of
//! applied migrations as a cursor into the sorted file list, and decides which
//! batch of migrations an `up` or `down` command applies inside one
//! all-or-nothing transaction.

pub mod catalog;
pub mod config;
pub mod engine;
pub mod errors;
pub mod flags;
pub mod ledger;
pub mod serial;
pub mod text;

pub use errors::MigError;
pub use flags::{Command, Config, DatabaseType, Flags};
