//! What can go wrong while a transaction is applied.

use vstd::prelude::*;

verus! {

/// Why a dispute, resolve or chargeback found no transaction to act on.
#[derive(Debug, Clone, Copy, PartialEq, Eq, Structural)]
pub enum LookupError {
    /// The ledger holds no record under the id.
    NotFound,
    /// The record belongs to another client.
    ClientMismatch,
    /// The record is not in the status the operation needs.
    WrongStatus,
}

/// An error that stops a whole batch.
#[derive(Debug, Clone, Copy, PartialEq, Eq, Structural)]
pub enum EngineError {
    /// A deposit or withdrawal that states no amount.
    MissingAmount,
}

/// A note that a dispute, resolve or chargeback was dropped, and why.
#[derive(Debug, Clone, Copy, PartialEq, Eq)]
pub struct Diagnostic {
    /// The id the dropped transaction referred to.
    pub id: u32,
    pub error: LookupError,
}

impl EngineError {
    /// The wording of the error.
    pub open spec fn text(self) -> Seq<char> {
        match self {
            EngineError::MissingAmount => "Invalid transaction data: missing amount"@,
        }
    }

    /// The error in words.
    pub fn message(&self) -> (message: String)
        ensures
            message@ == self.text(),
    {
        match self {
            EngineError::MissingAmount => "Invalid transaction data: missing amount".to_owned(),
        }
    }
}

} // verus!
