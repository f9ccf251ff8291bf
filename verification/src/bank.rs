//! The transaction engine: applies transactions to the ledger, one at a
//! time and in order.

use vstd::prelude::*;
use crate::account::Account;
use crate::error::{Diagnostic, EngineError};
use crate::ledger::Ledger;
use crate::model::{
    has_malformed, headroom, required_status, verdict, BankView, MAX_TRANSACTIONS,
};
use crate::transaction::{Transaction, TransactionStatus, TransactionType};

verus! {

/// The balance is one that a signed integer of 64 bits can hold.
fn fits_in_64_bits(balance: i128) -> (fits: bool)
    ensures
        fits <==> -headroom(0) <= balance < headroom(0),
{
    i64::MIN as i128 <= balance && balance <= i64::MAX as i128
}

/// A ledger and the engine that applies transactions to it.
///
/// In this model one account stands for one client.
pub struct Bank {
    ledger: Ledger,
    accepted: u64,
    diagnostics: Vec<Diagnostic>,
}

impl View for Bank {
    type V = BankView;

    closed spec fn view(&self) -> BankView {
        BankView {
            ledger: self.ledger@,
            accepted: self.accepted as nat,
            diagnostics: self.diagnostics@,
        }
    }
}

impl Bank {
    /// The ledger is well formed, every account is balanced and within
    /// bounds, and the transaction count is within its limit.
    pub open spec fn wf(&self) -> bool {
        self@.wf()
    }

    /// A bank without accounts, records or notes.
    pub fn new() -> (bank: Bank)
        ensures
            bank@ == BankView::empty(),
            bank.wf(),
    {
        Bank { ledger: Ledger::new(), accepted: 0, diagnostics: Vec::new() }
    }

    /// A bank over an existing ledger. There is one exactly if every account
    /// of the ledger is balanced and each of its balances fits in 64 bits.
    pub fn with_ledger(ledger: Ledger) -> (opened: Option<Bank>)
        requires
            ledger.wf(),
        ensures
            opened is Some <==> BankView::opening(ledger@).wf(),
            opened matches Some(bank) ==> bank@ == BankView::opening(ledger@),
    {
        let accounts = ledger.accounts();
        proof {
            ledger@.lemma_snapshot();
        }
        let mut i: usize = 0;
        while i < accounts.len()
            invariant
                i <= accounts.len(),
                ledger.wf(),
                accounts@.len() == ledger@.snapshot().len(),
                forall|j: int|
                    0 <= j < accounts@.len() ==> (#[trigger] accounts@[j])@ == ledger@.snapshot()[j],
                forall|j: int|
                    0 <= j < i ==> (#[trigger] ledger@.snapshot()[j]).is_balanced()
                        && ledger@.snapshot()[j].within(headroom(0)),
            decreases accounts.len() - i,
        {
            let account = accounts[i];
            let sound = fits_in_64_bits(account.available) && fits_in_64_bits(account.held)
                && fits_in_64_bits(account.total) && account.total == account.available
                + account.held;
            if !sound {
                proof {
                    ledger@.lemma_snapshot();
                    let client_id = ledger@.clients[i as int];
                    assert(ledger@.accounts.contains_key(client_id));
                    assert(ledger@.accounts[client_id] == ledger@.snapshot()[i as int]);
                }
                return None;
            }
            i += 1;
        }
        proof {
            ledger@.lemma_snapshot();
            assert forall|client_id: u16| #[trigger]
                ledger@.accounts.contains_key(client_id) implies ledger@.accounts[client_id]
                .is_balanced() && ledger@.accounts[client_id].within(headroom(0)) by {
                let j = choose|j: int|
                    0 <= j < ledger@.clients.len() && #[trigger] ledger@.clients[j] == client_id;
                assert(ledger@.snapshot()[j] == ledger@.accounts[client_id]);
            }
        }
        Some(Bank { ledger: ledger, accepted: 0, diagnostics: Vec::new() })
    }

    /// Pays `amount` into `account` and records the deposit.
    fn deposit(&mut self, account: Account, tx: Transaction, amount: i64)
        requires
            old(self).wf(),
            old(self)@.accepted < MAX_TRANSACTIONS,
            old(self)@.ledger.has_account(tx.client_id),
            account@ == old(self)@.ledger.account(tx.client_id),
            tx.tx_type is Deposit,
            tx.amount == Some(amount),
        ensures
            final(self)@ == old(self)@.step(tx),
    {
        let mut account = account;
        account.available = account.available + amount as i128;
        account.total = account.total + amount as i128;
        self.ledger.put_account(account);
        self.ledger.record_transaction(tx.id, tx, TransactionStatus::Processed);
        self.accepted = self.accepted + 1;
    }

    /// Pays `amount` out of `account` and records the withdrawal, unless the
    /// available funds fall short of it.
    fn withdraw(&mut self, account: Account, tx: Transaction, amount: i64)
        requires
            old(self).wf(),
            old(self)@.accepted < MAX_TRANSACTIONS,
            old(self)@.ledger.has_account(tx.client_id),
            account@ == old(self)@.ledger.account(tx.client_id),
            tx.tx_type is Withdrawal,
            tx.amount == Some(amount),
        ensures
            final(self)@ == old(self)@.step(tx),
    {
        if amount as i128 <= account.available {
            let mut account = account;
            account.available = account.available - amount as i128;
            account.total = account.total - amount as i128;
            self.ledger.put_account(account);
            self.ledger.record_transaction(tx.id, tx, TransactionStatus::Processed);
        }
        self.accepted = self.accepted + 1;
    }

    /// Applies a dispute, resolve or chargeback to `account` and to the
    /// record it refers to, or notes why it was dropped.
    fn settle(&mut self, account: Account, tx: Transaction)
        requires
            old(self).wf(),
            old(self)@.accepted < MAX_TRANSACTIONS,
            old(self)@.ledger.has_account(tx.client_id),
            account@ == old(self)@.ledger.account(tx.client_id),
            account.client_id == tx.client_id,
            !tx.moves_funds(),
        ensures
            final(self)@ == old(self)@.step(tx),
    {
        proof {
            old(self)@.ledger.lemma_take_wf(tx.client_id, tx.id, required_status(tx.tx_type));
        }
        let desired = match tx.tx_type {
            TransactionType::Dispute => TransactionStatus::Processed,
            _ => TransactionStatus::Disputed,
        };
        match self.ledger.take_transaction_for_status(&account, tx.id, desired) {
            Ok(record) => {
                let amount: i128 = record.0.amount.unwrap() as i128;
                let mut account = account;
                let status = match tx.tx_type {
                    TransactionType::Dispute => {
                        account.held = account.held + amount;
                        account.available = account.available - amount;
                        TransactionStatus::Disputed
                    },
                    TransactionType::Resolve => {
                        account.held = account.held - amount;
                        account.available = account.available + amount;
                        TransactionStatus::Processed
                    },
                    _ => {
                        account.held = account.held - amount;
                        account.total = account.total - amount;
                        account.locked = true;
                        TransactionStatus::Processed
                    },
                };
                self.ledger.put_account(account);
                self.ledger.record_transaction(tx.id, record.0, status);
                // Taking the record out and putting it back is writing over it.
                assert(self@.ledger.records =~= old(self)@.step(tx).ledger.records);
            },
            Err(error) => {
                self.diagnostics.push(Diagnostic { id: tx.id, error: error });
            },
        }
        self.accepted = self.accepted + 1;
    }

    /// Applies one transaction.
    ///
    /// The client's account is opened if the client had none. A deposit or
    /// withdrawal that states no amount is refused, and nothing else
    /// happens. Every other transaction is accepted and counted: a deposit
    /// is paid in, a withdrawal is paid out if the available funds cover it,
    /// and a dispute, resolve or chargeback settles the transaction it
    /// refers to or, where it finds none to act on, leaves a note.
    pub fn process_transaction(&mut self, tx: Transaction) -> (outcome: Result<(), EngineError>)
        requires
            old(self).wf(),
            old(self)@.accepted < MAX_TRANSACTIONS,
        ensures
            final(self).wf(),
            final(self)@ == old(self)@.step(tx),
            outcome == verdict(tx),
    {
        proof {
            old(self)@.lemma_step_wf(tx);
            old(self)@.lemma_step_opens_account(tx);
        }
        let account = self.ledger.get_or_create_account(tx.client_id);
        match tx.tx_type {
            TransactionType::Deposit => {
                match tx.amount {
                    Some(amount) => self.deposit(account, tx, amount),
                    None => {
                        return Err(EngineError::MissingAmount);
                    },
                }
            },
            TransactionType::Withdrawal => {
                match tx.amount {
                    Some(amount) => self.withdraw(account, tx, amount),
                    None => {
                        return Err(EngineError::MissingAmount);
                    },
                }
            },
            _ => self.settle(account, tx),
        }
        Ok(())
    }

    /// Applies the transactions of a batch in order, and stops at the first
    /// deposit or withdrawal that states no amount: that one opens its
    /// client's account and no more, and nothing behind it is looked at.
    pub fn batch_process(&mut self, batch_tx: Vec<Transaction>) -> (outcome: Result<(), String>)
        requires
            old(self).wf(),
            old(self)@.accepted + batch_tx.len() <= MAX_TRANSACTIONS,
        ensures
            final(self).wf(),
            final(self)@ == old(self)@.run(batch_tx@),
            outcome is Err <==> has_malformed(batch_tx@),
            outcome matches Err(message) ==> message@ == EngineError::MissingAmount.text(),
    {
        let mut i: usize = 0;
        assert(batch_tx@.skip(0) =~= batch_tx@);
        while i < batch_tx.len()
            invariant
                i <= batch_tx.len(),
                self.wf(),
                self@.accepted <= old(self)@.accepted + i,
                old(self)@.accepted + batch_tx.len() <= MAX_TRANSACTIONS,
                self@.run(batch_tx@.skip(i as int)) == old(self)@.run(batch_tx@),
                forall|j: int| 0 <= j < i ==> !(#[trigger] batch_tx@[j]).is_malformed(),
            decreases batch_tx.len() - i,
        {
            let tx = batch_tx[i];
            proof {
                let rest = batch_tx@.skip(i as int);
                assert(rest.drop_first() =~= batch_tx@.skip(i + 1));
            }
            match self.process_transaction(tx) {
                Ok(()) => {},
                Err(e) => {
                    return Err(e.message());
                },
            }
            i += 1;
        }
        Ok(())
    }

    /// The ledger as it stands.
    pub fn ledger(&self) -> (ledger: &Ledger)
        ensures
            ledger@ == self@.ledger,
    {
        &self.ledger
    }

    /// The accounts, in the order in which they were opened.
    pub fn accounts(&self) -> (accounts: &Vec<Account>)
        requires
            self.wf(),
        ensures
            accounts@.len() == self@.ledger.snapshot().len(),
            forall|i: int|
                0 <= i < accounts@.len() ==> (#[trigger] accounts@[i])@
                    == self@.ledger.snapshot()[i],
    {
        self.ledger.accounts()
    }

    /// The number of transactions accepted so far: all that were handed over
    /// but the malformed ones.
    pub fn accepted(&self) -> (accepted: u64)
        ensures
            accepted == self@.accepted,
    {
        self.accepted
    }

    /// The notes on the disputes, resolves and chargebacks that were
    /// dropped, oldest first.
    pub fn diagnostics(&self) -> (diagnostics: &Vec<Diagnostic>)
        ensures
            diagnostics@ == self@.diagnostics,
    {
        &self.diagnostics
    }
}

} // verus!
