//! A ledger of client accounts driven by an ordered stream of transactions.
//!
//! Money is counted in whole units of the smallest amount the caller cares to
//! distinguish (for instance ten-thousandths of the currency), so every balance
//! is an exact integer and no rounding ever takes place.

pub mod account;
pub mod bank;
pub mod error;
pub mod laws;
pub mod ledger;
pub mod model;
pub mod transaction;

pub use account::Account;
pub use bank::Bank;
pub use error::{Diagnostic, EngineError, LookupError};
pub use ledger::Ledger;
pub use model::MAX_TRANSACTIONS;
pub use transaction::{Transaction, TransactionRecord, TransactionStatus, TransactionType};
