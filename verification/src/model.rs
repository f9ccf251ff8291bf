//! The ledger and the engine as mathematical state machines.
//!
//! [`LedgerView`] is what the store holds, [`BankView`] adds what the engine
//! keeps beside it. [`BankView::step`] says what one transaction does and
//! [`BankView::run`] what a batch does; the executable code is proved to
//! follow them.

use vstd::prelude::*;
use crate::account::AccountView;
use crate::error::{Diagnostic, EngineError, LookupError};
use crate::transaction::{Transaction, TransactionRecord, TransactionStatus, TransactionType};

verus! {

/// The largest number of transactions an engine accepts over its lifetime.
pub const MAX_TRANSACTIONS: u64 = 0xFFFF_FFFF_FFFF_FFFF;

/// The range that balances are known to lie in once `accepted` transactions
/// were accepted on accounts whose balances fitted in 64 bits at first: a
/// transaction moves a balance by an amount of 64 bits at most, so that the
/// balances are at least `-headroom(accepted)` and less than
/// `headroom(accepted)`. Up to [`MAX_TRANSACTIONS`] that is within 128 bits.
pub open spec fn headroom(accepted: nat) -> int {
    (accepted + 1) as int * 0x8000_0000_0000_0000
}

/// The clients in the order in which their accounts were opened, the
/// account of each, and the recorded transactions by id.
pub struct LedgerView {
    pub clients: Seq<u16>,
    pub accounts: Map<u16, AccountView>,
    pub records: Map<u32, TransactionRecord>,
}

impl LedgerView {
    /// No accounts and no records.
    pub open spec fn empty() -> LedgerView {
        LedgerView { clients: Seq::empty(), accounts: Map::empty(), records: Map::empty() }
    }

    /// The client has an account.
    pub open spec fn has_account(self, client_id: u16) -> bool {
        self.accounts.contains_key(client_id)
    }

    /// The client's balances; those of a fresh account if the client has none.
    pub open spec fn account(self, client_id: u16) -> AccountView {
        if self.accounts.contains_key(client_id) {
            self.accounts[client_id]
        } else {
            AccountView::opened(client_id)
        }
    }

    /// The accounts in the order in which they were opened.
    pub open spec fn snapshot(self) -> Seq<AccountView> {
        Seq::new(self.clients.len(), |i: int| self.accounts[self.clients[i]])
    }

    /// Every client is listed once, the listed clients are those that have
    /// an account, and each account is kept under its own client.
    pub open spec fn accounts_wf(self) -> bool {
        &&& self.clients.no_duplicates()
        &&& forall|client_id: u16|
            self.clients.contains(client_id) <==> #[trigger] self.accounts.contains_key(client_id)
        &&& forall|client_id: u16| #[trigger]
            self.accounts.contains_key(client_id) ==> self.accounts[client_id].client_id
                == client_id
    }

    /// Every record is a deposit or withdrawal with its amount.
    pub open spec fn records_wf(self) -> bool {
        forall|id: u32| #[trigger]
            self.records.contains_key(id) ==> self.records[id].0.is_recordable()
    }

    /// One account per client, and only deposits and withdrawals on record.
    pub open spec fn wf(self) -> bool {
        &&& self.accounts_wf()
        &&& self.records_wf()
    }

    /// Every account's total is the sum of its available and held funds.
    pub open spec fn balanced(self) -> bool {
        forall|client_id: u16| #[trigger]
            self.accounts.contains_key(client_id) ==> self.accounts[client_id].is_balanced()
    }

    /// Every balance of every account is at least `-limit` and less than
    /// `limit`.
    pub open spec fn within(self, limit: int) -> bool {
        forall|client_id: u16| #[trigger]
            self.accounts.contains_key(client_id) ==> self.accounts[client_id].within(limit)
    }

    /// The ledger once `account` is stored: in the place of its client's
    /// account, or as a new account behind the others if the client had
    /// none.
    pub open spec fn put_account(self, account: AccountView) -> LedgerView {
        LedgerView {
            clients: if self.accounts.contains_key(account.client_id) {
                self.clients
            } else {
                self.clients.push(account.client_id)
            },
            accounts: self.accounts.insert(account.client_id, account),
            ..self
        }
    }

    /// The ledger once the client has an account: unchanged if there was one,
    /// else with a fresh account opened behind the others.
    pub open spec fn with_account(self, client_id: u16) -> LedgerView {
        if self.accounts.contains_key(client_id) {
            self
        } else {
            self.put_account(AccountView::opened(client_id))
        }
    }

    /// The ledger with `(transaction, status)` on record under `id`, in the
    /// place of whatever was there.
    pub open spec fn record(
        self,
        id: u32,
        transaction: Transaction,
        status: TransactionStatus,
    ) -> LedgerView {
        LedgerView { records: self.records.insert(id, (transaction, status)), ..self }
    }

    /// The record under `id`, provided it belongs to the client and has the
    /// status asked for.
    pub open spec fn lookup(
        self,
        client_id: u16,
        id: u32,
        desired: TransactionStatus,
    ) -> Result<TransactionRecord, LookupError> {
        if !self.records.contains_key(id) {
            Err(LookupError::NotFound)
        } else if self.records[id].0.client_id != client_id {
            Err(LookupError::ClientMismatch)
        } else if self.records[id].1 != desired {
            Err(LookupError::WrongStatus)
        } else {
            Ok(self.records[id])
        }
    }

    /// The ledger after the record under `id` was taken out, which happens
    /// only where [`Self::lookup`] finds it.
    pub open spec fn take(self, client_id: u16, id: u32, desired: TransactionStatus) -> LedgerView {
        if self.lookup(client_id, id, desired) is Ok {
            LedgerView { records: self.records.remove(id), ..self }
        } else {
            self
        }
    }

    /// Storing an account under its own client keeps the ledger well
    /// formed.
    pub proof fn lemma_put_account_wf(self, account: AccountView)
        requires
            self.wf(),
        ensures
            self.put_account(account).wf(),
    {
        let after = self.put_account(account);
        let client_id = account.client_id;
        if !self.accounts.contains_key(client_id) {
            let last = self.clients.len() as int;
            assert(after.clients[last] == client_id);
            assert forall|other: u16| self.clients.contains(other) implies after.clients.contains(
                other,
            ) by {
                let i = choose|i: int| 0 <= i < self.clients.len() && self.clients[i] == other;
                assert(after.clients[i] == other);
            }
        }
    }

    /// Opening an account keeps the ledger well formed.
    pub proof fn lemma_with_account_wf(self, client_id: u16)
        requires
            self.wf(),
        ensures
            self.with_account(client_id).wf(),
    {
        self.lemma_put_account_wf(AccountView::opened(client_id));
    }

    /// Recording a deposit or withdrawal keeps the ledger well formed.
    pub proof fn lemma_record_wf(self, id: u32, transaction: Transaction, status: TransactionStatus)
        requires
            self.wf(),
            transaction.is_recordable(),
        ensures
            self.record(id, transaction, status).wf(),
    {
    }

    /// Taking a record out keeps the ledger well formed, and what is taken
    /// is a deposit or withdrawal of the client, with its amount.
    pub proof fn lemma_take_wf(self, client_id: u16, id: u32, desired: TransactionStatus)
        requires
            self.wf(),
        ensures
            self.take(client_id, id, desired).wf(),
            self.lookup(client_id, id, desired) matches Ok(record) ==> record.0.is_recordable(),
    {
    }

    /// In a well-formed ledger the snapshot shows each account once, under
    /// its client, and shows every account.
    pub proof fn lemma_snapshot(self)
        requires
            self.wf(),
        ensures
            self.snapshot().len() == self.clients.len(),
            forall|i: int|
                0 <= i < self.clients.len() ==> self.accounts.contains_key(
                    #[trigger] self.clients[i],
                ),
            forall|i: int|
                0 <= i < self.clients.len() ==> (#[trigger] self.snapshot()[i]).client_id
                    == self.clients[i],
            forall|client_id: u16| #[trigger]
                self.accounts.contains_key(client_id) ==> exists|i: int|
                    0 <= i < self.clients.len() && #[trigger] self.clients[i] == client_id,
    {
        assert forall|i: int| 0 <= i < self.clients.len() implies self.accounts.contains_key(
            #[trigger] self.clients[i],
        ) by {
            assert(self.clients.contains(self.clients[i]));
        }
    }
}

/// The status a record must have for a dispute, resolve or chargeback to act
/// on it.
pub open spec fn required_status(tx_type: TransactionType) -> TransactionStatus {
    if tx_type is Dispute {
        TransactionStatus::Processed
    } else {
        TransactionStatus::Disputed
    }
}

/// The status a dispute, resolve or chargeback leaves the record in.
pub open spec fn resulting_status(tx_type: TransactionType) -> TransactionStatus {
    if tx_type is Dispute {
        TransactionStatus::Disputed
    } else {
        TransactionStatus::Processed
    }
}

/// What a dispute, resolve or chargeback over `amount` does to the balances.
pub open spec fn settled(account: AccountView, tx_type: TransactionType, amount: int) -> AccountView {
    match tx_type {
        TransactionType::Dispute => account.disputed(amount),
        TransactionType::Resolve => account.resolved(amount),
        TransactionType::Chargeback => account.charged_back(amount),
        _ => account,
    }
}

/// The ledger, the number of transactions accepted so far (all that were
/// handed over but the malformed ones), and the notes on the transactions
/// that were dropped, oldest first.
pub struct BankView {
    pub ledger: LedgerView,
    pub accepted: nat,
    pub diagnostics: Seq<Diagnostic>,
}

impl BankView {
    /// A bank that has seen nothing yet.
    pub open spec fn empty() -> BankView {
        BankView { ledger: LedgerView::empty(), accepted: 0, diagnostics: Seq::empty() }
    }

    /// A bank that starts from `ledger`.
    pub open spec fn opening(ledger: LedgerView) -> BankView {
        BankView { ledger, accepted: 0, diagnostics: Seq::empty() }
    }

    /// The ledger is well formed, its accounts are balanced and within the
    /// headroom that the number of accepted transactions leaves, and the
    /// engine has not outlived its transaction count.
    pub open spec fn wf(self) -> bool {
        &&& self.ledger.wf()
        &&& self.ledger.balanced()
        &&& self.ledger.within(headroom(self.accepted))
        &&& self.accepted <= MAX_TRANSACTIONS
    }

    /// The bank after a deposit of `amount`.
    pub open spec fn deposit(self, tx: Transaction, amount: int) -> BankView {
        let account = self.ledger.account(tx.client_id);
        BankView {
            ledger: self.ledger.put_account(account.deposited(amount)).record(
                tx.id,
                tx,
                TransactionStatus::Processed,
            ),
            accepted: self.accepted + 1,
            ..self
        }
    }

    /// The bank after a withdrawal of `amount`: paid out and recorded if the
    /// available funds cover it, and nothing but the client's account opened
    /// if they do not.
    pub open spec fn withdraw(self, tx: Transaction, amount: int) -> BankView {
        let account = self.ledger.account(tx.client_id);
        if amount <= account.available {
            BankView {
                ledger: self.ledger.put_account(account.withdrawn(amount)).record(
                    tx.id,
                    tx,
                    TransactionStatus::Processed,
                ),
                accepted: self.accepted + 1,
                ..self
            }
        } else {
            BankView {
                ledger: self.ledger.with_account(tx.client_id),
                accepted: self.accepted + 1,
                ..self
            }
        }
    }

    /// The bank after a dispute, resolve or chargeback: the balances settled
    /// and the record moved to its new status if the record is found, else
    /// nothing but the client's account opened and a note of why the
    /// transaction was dropped.
    pub open spec fn settle(self, tx: Transaction) -> BankView {
        let account = self.ledger.account(tx.client_id);
        match self.ledger.lookup(tx.client_id, tx.id, required_status(tx.tx_type)) {
            Ok(record) => BankView {
                ledger: self.ledger.put_account(
                    settled(account, tx.tx_type, record.0.stated_amount()),
                ).record(tx.id, record.0, resulting_status(tx.tx_type)),
                accepted: self.accepted + 1,
                ..self
            },
            Err(error) => BankView {
                ledger: self.ledger.with_account(tx.client_id),
                accepted: self.accepted + 1,
                diagnostics: self.diagnostics.push(Diagnostic { id: tx.id, error }),
            },
        }
    }

    /// The bank after `tx` was handed to the engine.
    ///
    /// Whatever else happens, the client has an account afterwards. A
    /// malformed transaction does nothing more, and is not counted as
    /// accepted.
    pub open spec fn step(self, tx: Transaction) -> BankView {
        if tx.is_malformed() {
            BankView { ledger: self.ledger.with_account(tx.client_id), ..self }
        } else {
            match tx.tx_type {
                TransactionType::Deposit => self.deposit(tx, tx.stated_amount()),
                TransactionType::Withdrawal => self.withdraw(tx, tx.stated_amount()),
                _ => self.settle(tx),
            }
        }
    }

    /// The bank after a batch was handed to the engine, which takes the
    /// transactions in order and stops behind the first malformed one.
    ///
    /// The last transaction of a batch has a case of its own, so that a batch
    /// of one unfolds to its one step.
    pub open spec fn run(self, batch: Seq<Transaction>) -> BankView
        decreases batch.len(),
    {
        if batch.len() == 0 {
            self
        } else if batch[0].is_malformed() || batch.len() == 1 {
            self.step(batch[0])
        } else {
            self.step(batch[0]).run(batch.drop_first())
        }
    }

    /// Opening the client's account beforehand makes no difference to what
    /// a transaction does.
    pub proof fn lemma_step_opens_account(self, tx: Transaction)
        ensures
            (BankView { ledger: self.ledger.with_account(tx.client_id), ..self }).step(tx)
                == self.step(tx),
            self.ledger.with_account(tx.client_id).account(tx.client_id) == self.ledger.account(
                tx.client_id,
            ),
            self.step(tx).ledger.has_account(tx.client_id),
    {
        let opened = BankView { ledger: self.ledger.with_account(tx.client_id), ..self };
        assert(opened.step(tx).ledger.accounts =~= self.step(tx).ledger.accounts);
    }

    /// Every transaction leaves a well-formed ledger well formed.
    pub proof fn lemma_step_ledger_wf(self, tx: Transaction)
        requires
            self.ledger.wf(),
        ensures
            self.step(tx).ledger.wf(),
    {
        let account = self.ledger.account(tx.client_id);
        self.ledger.lemma_with_account_wf(tx.client_id);
        if tx.is_malformed() {
        } else if tx.tx_type is Deposit {
            self.ledger.lemma_put_account_wf(account.deposited(tx.stated_amount()));
        } else if tx.tx_type is Withdrawal {
            self.ledger.lemma_put_account_wf(account.withdrawn(tx.stated_amount()));
        } else {
            match self.ledger.lookup(tx.client_id, tx.id, required_status(tx.tx_type)) {
                Ok(record) => {
                    self.ledger.lemma_put_account_wf(
                        settled(account, tx.tx_type, record.0.stated_amount()),
                    );
                },
                Err(_) => {},
            }
        }
    }

    /// Handing a transaction to a well-formed bank that has room for one
    /// more leaves a well-formed bank, with at most one more accepted.
    pub proof fn lemma_step_wf(self, tx: Transaction)
        requires
            self.wf(),
            self.accepted < MAX_TRANSACTIONS,
        ensures
            self.step(tx).wf(),
            self.accepted <= self.step(tx).accepted <= self.accepted + 1,
            tx.is_malformed() ==> self.step(tx).accepted == self.accepted,
    {
        self.lemma_step_ledger_wf(tx);
    }
}

/// What the engine answers to a transaction: it refuses a malformed one and
/// accepts every other.
pub open spec fn verdict(tx: Transaction) -> Result<(), EngineError> {
    if tx.is_malformed() {
        Err(EngineError::MissingAmount)
    } else {
        Ok(())
    }
}

/// The batch holds a malformed transaction.
pub open spec fn has_malformed(batch: Seq<Transaction>) -> bool {
    exists|i: int| 0 <= i < batch.len() && (#[trigger] batch[i]).is_malformed()
}

} // verus!
