//! Transactions as they arrive, and the records the ledger keeps of them.

use vstd::prelude::*;

verus! {

/// What a transaction asks for.
#[derive(Debug, Clone, Copy, PartialEq, Eq, Structural)]
pub enum TransactionType {
    Deposit,
    Withdrawal,
    Dispute,
    Resolve,
    Chargeback,
}

/// Where a recorded transaction stands.
#[derive(Debug, Clone, Copy, PartialEq, Eq, Structural)]
pub enum TransactionStatus {
    Processed,
    Disputed,
}

/// One requested operation.
///
/// A deposit or withdrawal carries its own `id` and an `amount`. A dispute,
/// resolve or chargeback carries the `id` of the deposit or withdrawal it is
/// about, and no amount.
#[derive(Debug, Clone, Copy, PartialEq, Eq)]
pub struct Transaction {
    pub tx_type: TransactionType,
    pub client_id: u16,
    pub id: u32,
    pub amount: Option<i64>,
}

/// A transaction kept by the ledger, with its current status.
pub type TransactionRecord = (Transaction, TransactionStatus);

impl Transaction {
    /// A deposit or withdrawal, the only kinds that move money by themselves.
    pub open spec fn moves_funds(self) -> bool {
        self.tx_type is Deposit || self.tx_type is Withdrawal
    }

    /// A deposit or withdrawal that states no amount. Such a transaction
    /// cannot be applied and stops a batch.
    pub open spec fn is_malformed(self) -> bool {
        self.moves_funds() && self.amount is None
    }

    /// The amount the transaction states, as an integer; zero if it states
    /// none.
    pub open spec fn stated_amount(self) -> int {
        match self.amount {
            Some(amount) => amount as int,
            None => 0,
        }
    }

    /// What the ledger may keep a record of: a deposit or withdrawal with its
    /// amount.
    pub open spec fn is_recordable(self) -> bool {
        self.moves_funds() && self.amount is Some
    }
}

} // verus!
