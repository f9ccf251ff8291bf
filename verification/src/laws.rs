//! What holds of every bank, whatever it is handed: the laws of the engine,
//! proved from [`BankView::step`] and [`BankView::run`].

use vstd::prelude::*;
use crate::error::{Diagnostic, EngineError};
use crate::model::{has_malformed, required_status, verdict, BankView, LedgerView};
use crate::transaction::{Transaction, TransactionStatus, TransactionType};

verus! {

impl LedgerView {
    /// No account holds anything back: all that is there is available.
    pub open spec fn unencumbered(self) -> bool {
        forall|client_id: u16| #[trigger]
            self.accounts.contains_key(client_id) ==> self.accounts[client_id].held == 0
                && self.accounts[client_id].available == self.accounts[client_id].total
    }

    /// Every client's balances in `self` are what they are in `other`.
    pub open spec fn same_balances(self, other: LedgerView) -> bool {
        forall|client_id: u16| #[trigger] self.account(client_id) == other.account(client_id)
    }
}

/// A transaction touches no account but its client's: it leaves that client
/// with an account and every other client as it was, and closes no account.
pub proof fn lemma_step_touches_one_client(bank: BankView, tx: Transaction)
    requires
        bank.ledger.wf(),
    ensures
        bank.step(tx).ledger.has_account(tx.client_id),
        bank.step(tx).ledger.clients == bank.ledger.with_account(tx.client_id).clients,
        forall|other: u16|
            other != tx.client_id ==> #[trigger] bank.step(tx).ledger.account(other)
                == bank.ledger.account(other),
        forall|other: u16|
            other != tx.client_id ==> (#[trigger] bank.step(tx).ledger.has_account(other)
                <==> bank.ledger.has_account(other)),
{
}

/// A batch is run one transaction at a time: running `batch` and then one
/// more transaction is running the longer batch, unless `batch` was stopped
/// by a malformed transaction, in which case the last one is never reached.
pub proof fn lemma_run_then_step(bank: BankView, batch: Seq<Transaction>, tx: Transaction)
    ensures
        bank.run(batch.push(tx)) == if has_malformed(batch) {
            bank.run(batch)
        } else {
            bank.run(batch).step(tx)
        },
    decreases batch.len(),
{
    let longer = batch.push(tx);
    if batch.len() > 0 {
        let rest = batch.drop_first();
        assert(longer.drop_first() =~= rest.push(tx));
        if !batch[0].is_malformed() {
            lemma_run_then_step(bank.step(batch[0]), rest, tx);
            if has_malformed(rest) {
                let k = choose|k: int| 0 <= k < rest.len() && (#[trigger] rest[k]).is_malformed();
                assert(batch[k + 1].is_malformed());
            }
            if has_malformed(batch) {
                let k = choose|k: int| 0 <= k < batch.len() && (#[trigger] batch[k]).is_malformed();
                assert(rest[k - 1].is_malformed());
            }
        }
    }
}

/// Every transaction keeps the books balanced: if each account's total was
/// the sum of its available and held funds before, it is so after.
pub proof fn lemma_step_keeps_balance(bank: BankView, tx: Transaction)
    requires
        bank.ledger.balanced(),
    ensures
        bank.step(tx).ledger.balanced(),
{
}

/// Every batch keeps the books balanced, wherever it stops.
pub proof fn lemma_run_keeps_balance(bank: BankView, batch: Seq<Transaction>)
    requires
        bank.ledger.balanced(),
    ensures
        bank.run(batch).ledger.balanced(),
    decreases batch.len(),
{
    if batch.len() > 0 {
        lemma_step_keeps_balance(bank, batch[0]);
        if !batch[0].is_malformed() && batch.len() > 1 {
            lemma_run_keeps_balance(bank.step(batch[0]), batch.drop_first());
        }
    }
}

/// Deposits hold nothing back: after a batch of deposits, every account of
/// a bank in which all funds were available still has all its funds
/// available.
pub proof fn lemma_deposits_keep_funds_available(bank: BankView, batch: Seq<Transaction>)
    requires
        bank.ledger.unencumbered(),
        forall|i: int| 0 <= i < batch.len() ==> (#[trigger] batch[i]).tx_type is Deposit,
    ensures
        bank.run(batch).ledger.unencumbered(),
    decreases batch.len(),
{
    if batch.len() > 0 {
        let tx = batch[0];
        if !tx.is_malformed() && batch.len() > 1 {
            assert forall|i: int| 0 <= i < batch.drop_first().len() implies (
            #[trigger] batch.drop_first()[i]).tx_type is Deposit by {
                assert(batch[i + 1].tx_type is Deposit);
            }
            lemma_deposits_keep_funds_available(bank.step(tx), batch.drop_first());
        }
    }
}

/// After any batch of deposits into a new bank, every account has all its
/// funds available and none held.
pub proof fn lemma_deposits_into_new_bank(batch: Seq<Transaction>)
    requires
        forall|i: int| 0 <= i < batch.len() ==> (#[trigger] batch[i]).tx_type is Deposit,
    ensures
        BankView::empty().run(batch).ledger.unencumbered(),
{
    lemma_deposits_keep_funds_available(BankView::empty(), batch);
}

/// A deposit with an amount adds the amount to the client's available and
/// total funds, holds nothing, and goes on record as processed.
pub proof fn lemma_deposit_pays_in(bank: BankView, tx: Transaction)
    requires
        bank.ledger.wf(),
        tx.tx_type is Deposit,
        tx.amount is Some,
    ensures
        bank.step(tx).ledger.account(tx.client_id) == bank.ledger.account(tx.client_id).deposited(
            tx.stated_amount(),
        ),
        bank.step(tx).ledger.records == bank.ledger.records.insert(
            tx.id,
            (tx, TransactionStatus::Processed),
        ),
        bank.step(tx).accepted == bank.accepted + 1,
        bank.step(tx).diagnostics == bank.diagnostics,
{
}

/// A withdrawal that the available funds cover takes the amount from the
/// client's available and total funds, and goes on record as processed.
pub proof fn lemma_withdrawal_pays_out(bank: BankView, tx: Transaction)
    requires
        bank.ledger.wf(),
        tx.tx_type is Withdrawal,
        tx.amount is Some,
        tx.stated_amount() <= bank.ledger.account(tx.client_id).available,
    ensures
        bank.step(tx).ledger.account(tx.client_id) == bank.ledger.account(tx.client_id).withdrawn(
            tx.stated_amount(),
        ),
        bank.step(tx).ledger.records == bank.ledger.records.insert(
            tx.id,
            (tx, TransactionStatus::Processed),
        ),
        bank.step(tx).accepted == bank.accepted + 1,
        bank.step(tx).diagnostics == bank.diagnostics,
{
}

/// A withdrawal of more than is available is accepted, changes no balance
/// and records nothing: the client has an account afterwards, and that is
/// all.
pub proof fn lemma_overdraft_changes_nothing(bank: BankView, tx: Transaction)
    requires
        bank.ledger.wf(),
        tx.tx_type is Withdrawal,
        tx.amount is Some,
        tx.stated_amount() > bank.ledger.account(tx.client_id).available,
    ensures
        verdict(tx) is Ok,
        bank.step(tx).ledger == bank.ledger.with_account(tx.client_id),
        bank.step(tx).ledger.same_balances(bank.ledger),
        bank.step(tx).ledger.records == bank.ledger.records,
        bank.ledger.has_account(tx.client_id) ==> bank.step(tx).ledger == bank.ledger,
        bank.step(tx).diagnostics == bank.diagnostics,
{
}

/// A dispute of a processed transaction of the same client moves that
/// transaction's amount from the client's available to the held funds,
/// leaves the total and the lock as they were, and marks the record
/// disputed.
pub proof fn lemma_dispute_holds_amount(bank: BankView, tx: Transaction)
    requires
        bank.ledger.wf(),
        tx.tx_type is Dispute,
        bank.ledger.lookup(tx.client_id, tx.id, TransactionStatus::Processed) is Ok,
    ensures
        bank.step(tx).ledger.account(tx.client_id) == bank.ledger.account(tx.client_id).disputed(
            bank.ledger.records[tx.id].0.stated_amount(),
        ),
        bank.step(tx).ledger.account(tx.client_id).total == bank.ledger.account(
            tx.client_id,
        ).total,
        bank.step(tx).ledger.records == bank.ledger.records.insert(
            tx.id,
            (bank.ledger.records[tx.id].0, TransactionStatus::Disputed),
        ),
        bank.step(tx).diagnostics == bank.diagnostics,
{
}

/// A resolve of a disputed transaction of the same client moves that
/// transaction's amount back from the held to the available funds, leaves
/// the total and the lock as they were, and marks the record processed.
pub proof fn lemma_resolve_releases_amount(bank: BankView, tx: Transaction)
    requires
        bank.ledger.wf(),
        tx.tx_type is Resolve,
        bank.ledger.lookup(tx.client_id, tx.id, TransactionStatus::Disputed) is Ok,
    ensures
        bank.step(tx).ledger.account(tx.client_id) == bank.ledger.account(tx.client_id).resolved(
            bank.ledger.records[tx.id].0.stated_amount(),
        ),
        bank.step(tx).ledger.account(tx.client_id).total == bank.ledger.account(
            tx.client_id,
        ).total,
        bank.step(tx).ledger.records == bank.ledger.records.insert(
            tx.id,
            (bank.ledger.records[tx.id].0, TransactionStatus::Processed),
        ),
        bank.step(tx).diagnostics == bank.diagnostics,
{
}

/// A resolve undoes a dispute: a dispute of a processed transaction,
/// followed by the resolve of the same transaction by the same client,
/// leaves every balance and every record as it was before the dispute. If
/// the client had an account, the whole ledger is as it was.
pub proof fn lemma_resolve_undoes_dispute(bank: BankView, dispute: Transaction, resolve: Transaction)
    requires
        bank.ledger.wf(),
        dispute.tx_type is Dispute,
        resolve.tx_type is Resolve,
        resolve.client_id == dispute.client_id,
        resolve.id == dispute.id,
        bank.ledger.lookup(dispute.client_id, dispute.id, TransactionStatus::Processed) is Ok,
    ensures
        bank.step(dispute).step(resolve).ledger == bank.ledger.with_account(dispute.client_id),
        bank.step(dispute).step(resolve).ledger.same_balances(bank.ledger),
        bank.step(dispute).step(resolve).ledger.records == bank.ledger.records,
        bank.ledger.has_account(dispute.client_id) ==> bank.step(dispute).step(resolve).ledger
            == bank.ledger,
        bank.step(dispute).step(resolve).diagnostics == bank.diagnostics,
{
    let after = bank.step(dispute).step(resolve).ledger;
    let opened = bank.ledger.with_account(dispute.client_id);
    let account = bank.ledger.account(dispute.client_id);
    let amount = bank.ledger.records[dispute.id].0.stated_amount();
    assert(account.disputed(amount).resolved(amount) == account);
    assert(after.records =~= bank.ledger.records);
    assert(after.accounts =~= opened.accounts);
}

/// A chargeback of a disputed transaction of the same client takes that
/// transaction's amount out of the held and the total funds, leaves the
/// available funds as they were, locks the account, and marks the record
/// processed.
pub proof fn lemma_chargeback_removes_amount(bank: BankView, tx: Transaction)
    requires
        bank.ledger.wf(),
        tx.tx_type is Chargeback,
        bank.ledger.lookup(tx.client_id, tx.id, TransactionStatus::Disputed) is Ok,
    ensures
        bank.step(tx).ledger.account(tx.client_id) == bank.ledger.account(
            tx.client_id,
        ).charged_back(bank.ledger.records[tx.id].0.stated_amount()),
        bank.step(tx).ledger.account(tx.client_id).available == bank.ledger.account(
            tx.client_id,
        ).available,
        bank.step(tx).ledger.account(tx.client_id).locked,
        bank.step(tx).ledger.records == bank.ledger.records.insert(
            tx.id,
            (bank.ledger.records[tx.id].0, TransactionStatus::Processed),
        ),
        bank.step(tx).diagnostics == bank.diagnostics,
{
}

/// Records are never lost, and a record changes only in three ways: a
/// dispute moves it from processed to disputed, a resolve or chargeback
/// moves it from disputed to processed, and a deposit or withdrawal under
/// the same id takes its place.
pub proof fn lemma_record_changes_lawfully(bank: BankView, tx: Transaction, id: u32)
    requires
        bank.ledger.wf(),
        bank.ledger.records.contains_key(id),
    ensures
        bank.step(tx).ledger.records.contains_key(id),
        ({
            let before = bank.ledger.records[id];
            let after = bank.step(tx).ledger.records[id];
            after != before ==> tx.id == id && match tx.tx_type {
                TransactionType::Dispute => before.1 is Processed && after == (
                    before.0,
                    TransactionStatus::Disputed,
                ),
                TransactionType::Resolve | TransactionType::Chargeback => before.1 is Disputed
                    && after == (before.0, TransactionStatus::Processed),
                TransactionType::Deposit | TransactionType::Withdrawal => after == (
                    tx,
                    TransactionStatus::Processed,
                ),
            }
        }),
{
}

/// A deposit that is disputed and then resolved or charged back takes no
/// balance below zero: where the client's available and held funds were
/// not negative and the deposit is not, they are not negative after the
/// deposit, after its dispute, and after the resolve or chargeback.
pub proof fn lemma_disputed_deposit_stays_above_zero(
    bank: BankView,
    deposit: Transaction,
    dispute: Transaction,
    closing: Transaction,
)
    requires
        bank.ledger.wf(),
        deposit.tx_type is Deposit,
        deposit.amount is Some,
        deposit.stated_amount() >= 0,
        dispute.tx_type is Dispute,
        closing.tx_type is Resolve || closing.tx_type is Chargeback,
        dispute.client_id == deposit.client_id && dispute.id == deposit.id,
        closing.client_id == deposit.client_id && closing.id == deposit.id,
        bank.ledger.account(deposit.client_id).available >= 0,
        bank.ledger.account(deposit.client_id).held >= 0,
    ensures
        bank.step(deposit).ledger.account(deposit.client_id).available >= 0,
        bank.step(deposit).ledger.account(deposit.client_id).held >= 0,
        bank.step(deposit).step(dispute).ledger.account(deposit.client_id).available >= 0,
        bank.step(deposit).step(dispute).ledger.account(deposit.client_id).held >= 0,
        bank.step(deposit).step(dispute).step(closing).ledger.account(
            deposit.client_id,
        ).available >= 0,
        bank.step(deposit).step(dispute).step(closing).ledger.account(deposit.client_id).held
            >= 0,
{
    let paid = bank.step(deposit);
    bank.lemma_step_ledger_wf(deposit);
    assert(paid.ledger.records[deposit.id] == (deposit, TransactionStatus::Processed));
    let disputed = paid.step(dispute);
    paid.lemma_step_ledger_wf(dispute);
    assert(disputed.ledger.records[deposit.id] == (deposit, TransactionStatus::Disputed));
}

/// No transaction unlocks an account.
pub proof fn lemma_step_keeps_lock(bank: BankView, tx: Transaction, client_id: u16)
    requires
        bank.ledger.wf(),
        bank.ledger.account(client_id).locked,
    ensures
        bank.step(tx).ledger.account(client_id).locked,
{
}

/// Once locked, an account stays locked through every batch.
pub proof fn lemma_lock_is_permanent(bank: BankView, batch: Seq<Transaction>, client_id: u16)
    requires
        bank.ledger.wf(),
        bank.ledger.account(client_id).locked,
    ensures
        bank.run(batch).ledger.account(client_id).locked,
    decreases batch.len(),
{
    if batch.len() > 0 {
        lemma_step_keeps_lock(bank, batch[0], client_id);
        bank.lemma_step_ledger_wf(batch[0]);
        if !batch[0].is_malformed() && batch.len() > 1 {
            lemma_lock_is_permanent(bank.step(batch[0]), batch.drop_first(), client_id);
        }
    }
}

/// A dispute, resolve or chargeback that finds no transaction to act on,
/// because there is none under the id, because it belongs to another
/// client, or because it is not in the status the operation needs, is
/// accepted all the same. It changes no balance and no record and leaves a
/// note of the reason, and the rest of the batch is processed behind it.
pub proof fn lemma_failed_lookup_changes_nothing(
    bank: BankView,
    tx: Transaction,
    rest: Seq<Transaction>,
)
    requires
        bank.ledger.wf(),
        !tx.moves_funds(),
        bank.ledger.lookup(tx.client_id, tx.id, required_status(tx.tx_type)) is Err,
    ensures
        verdict(tx) is Ok,
        bank.step(tx).ledger == bank.ledger.with_account(tx.client_id),
        bank.step(tx).ledger.same_balances(bank.ledger),
        bank.step(tx).ledger.records == bank.ledger.records,
        bank.ledger.has_account(tx.client_id) ==> bank.step(tx).ledger == bank.ledger,
        bank.step(tx).diagnostics == bank.diagnostics.push(
            (Diagnostic {
                id: tx.id,
                error: bank.ledger.lookup(
                    tx.client_id,
                    tx.id,
                    required_status(tx.tx_type),
                )->Err_0,
            }),
        ),
        bank.run(seq![tx] + rest) == bank.step(tx).run(rest),
{
    let batch = seq![tx] + rest;
    assert(batch.drop_first() =~= rest);
}

/// A deposit or withdrawal that states no amount is refused. It changes no
/// balance and no record, and is not counted: it opens its client's
/// account, and that is all.
pub proof fn lemma_malformed_changes_nothing(bank: BankView, tx: Transaction)
    requires
        bank.ledger.wf(),
        tx.is_malformed(),
    ensures
        verdict(tx) == Err::<(), EngineError>(EngineError::MissingAmount),
        bank.step(tx).ledger == bank.ledger.with_account(tx.client_id),
        bank.step(tx).ledger.same_balances(bank.ledger),
        bank.step(tx).ledger.records == bank.ledger.records,
        bank.step(tx).accepted == bank.accepted,
        bank.step(tx).diagnostics == bank.diagnostics,
{
}

/// A batch stops at its first malformed transaction: where `batch[at]` is
/// malformed and nothing before it is, running the batch is running what
/// comes before and then handing over `batch[at]`, and what comes behind
/// makes no difference.
pub proof fn lemma_batch_stops_at_malformed(bank: BankView, batch: Seq<Transaction>, at: int)
    requires
        0 <= at < batch.len(),
        batch[at].is_malformed(),
        forall|i: int| 0 <= i < at ==> !(#[trigger] batch[i]).is_malformed(),
    ensures
        bank.run(batch) == bank.run(batch.take(at)).step(batch[at]),
        bank.run(batch) == bank.run(batch.take(at + 1)),
    decreases at,
{
    if at > 0 {
        let rest = batch.drop_first();
        assert(!batch[0].is_malformed());
        assert forall|i: int| 0 <= i < at - 1 implies !(#[trigger] rest[i]).is_malformed() by {
            assert(!batch[i + 1].is_malformed());
        }
        lemma_batch_stops_at_malformed(bank.step(batch[0]), rest, at - 1);
        assert(batch.take(at).drop_first() =~= rest.take(at - 1));
        assert(batch.take(at + 1).drop_first() =~= rest.take(at));
    }
}

/// A batch without a malformed transaction is run to its end, one
/// transaction after the other.
pub proof fn lemma_batch_runs_to_end(bank: BankView, batch: Seq<Transaction>)
    requires
        batch.len() > 0,
        !has_malformed(batch),
    ensures
        bank.run(batch) == bank.run(batch.drop_last()).step(batch.last()),
{
    let front = batch.drop_last();
    assert(front.push(batch.last()) =~= batch);
    lemma_run_then_step(bank, front, batch.last());
    if has_malformed(front) {
        let k = choose|k: int| 0 <= k < front.len() && (#[trigger] front[k]).is_malformed();
        assert(batch[k].is_malformed());
    }
}

} // verus!
