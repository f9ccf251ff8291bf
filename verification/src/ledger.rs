//! The ledger store: the accounts, one per client, and the recorded
//! transactions by id.

use std::collections::HashMap;
use vstd::prelude::*;
use crate::account::{Account, AccountView};
use crate::error::LookupError;
use crate::model::LedgerView;
use crate::transaction::{Transaction, TransactionRecord, TransactionStatus};

verus! {

broadcast use vstd::std_specs::hash::group_hash_axioms;

/// One of the accounts belongs to the client.
spec fn holds(accounts: Seq<Account>, client_id: u16) -> bool {
    exists|i: int| 0 <= i < accounts.len() && (#[trigger] accounts[i]).client_id == client_id
}

/// The place of an account that belongs to the client, if there is one.
spec fn place(accounts: Seq<Account>, client_id: u16) -> int {
    choose|i: int| 0 <= i < accounts.len() && (#[trigger] accounts[i]).client_id == client_id
}

/// No two of the accounts belong to the same client.
spec fn distinct(accounts: Seq<Account>) -> bool {
    forall|i: int, j: int|
        0 <= i < j < accounts.len() ==> (#[trigger] accounts[i]).client_id != (
        #[trigger] accounts[j]).client_id
}

/// The clients of the accounts, in their order.
spec fn clients_of(accounts: Seq<Account>) -> Seq<u16> {
    Seq::new(accounts.len(), |i: int| accounts[i].client_id)
}

/// The accounts by client.
spec fn by_client(accounts: Seq<Account>) -> Map<u16, AccountView> {
    Map::new(
        |client_id: u16| holds(accounts, client_id),
        |client_id: u16| accounts[place(accounts, client_id)]@,
    )
}

/// Among distinct accounts, an account is found where it stands.
proof fn lemma_place(accounts: Seq<Account>, i: int)
    requires
        distinct(accounts),
        0 <= i < accounts.len(),
    ensures
        holds(accounts, accounts[i].client_id),
        place(accounts, accounts[i].client_id) == i,
        by_client(accounts)[accounts[i].client_id] == accounts[i]@,
{
    let p = place(accounts, accounts[i].client_id);
    assert(accounts[p].client_id == accounts[i].client_id);
}

/// The clients are listed without duplicates exactly if the accounts are
/// distinct, the listed clients are those that have an account, and each
/// account is kept under its own client.
proof fn lemma_clients(accounts: Seq<Account>)
    ensures
        clients_of(accounts).no_duplicates() <==> distinct(accounts),
        forall|client_id: u16|
            clients_of(accounts).contains(client_id) <==> #[trigger] by_client(
                accounts,
            ).contains_key(client_id),
        forall|client_id: u16| #[trigger]
            by_client(accounts).contains_key(client_id) ==> by_client(
                accounts,
            )[client_id].client_id == client_id,
{
    let clients = clients_of(accounts);
    if distinct(accounts) {
        assert forall|i: int, j: int|
            0 <= i < clients.len() && 0 <= j < clients.len() && i != j implies clients[i]
            != clients[j] by {
            if i < j {
                assert(accounts[i].client_id != accounts[j].client_id);
            } else {
                assert(accounts[j].client_id != accounts[i].client_id);
            }
        }
    }
    if clients.no_duplicates() {
        assert forall|i: int, j: int| 0 <= i < j < accounts.len() implies (
        #[trigger] accounts[i]).client_id != (#[trigger] accounts[j]).client_id by {
            assert(clients[i] != clients[j]);
        }
    }
    assert forall|client_id: u16|
        clients.contains(client_id) <==> #[trigger] by_client(accounts).contains_key(
            client_id,
        ) by {
        if clients.contains(client_id) {
            let i = choose|i: int| 0 <= i < clients.len() && clients[i] == client_id;
            assert(accounts[i].client_id == client_id);
        }
        if holds(accounts, client_id) {
            let i = place(accounts, client_id);
            assert(clients[i] == client_id);
        }
    }
    assert forall|client_id: u16| #[trigger]
        by_client(accounts).contains_key(client_id) implies by_client(
        accounts,
    )[client_id].client_id == client_id by {
        let i = place(accounts, client_id);
        assert(accounts[i].client_id == client_id);
    }
}

/// Where a sequence of distinct accounts comes from another by putting
/// `account` at `at`, in the place of its client's account or behind the
/// others, it holds by client what the other holds, with `account` put in.
proof fn lemma_by_client_insert(
    before: Seq<Account>,
    after: Seq<Account>,
    at: int,
    account: Account,
)
    requires
        distinct(before),
        distinct(after),
        0 <= at < after.len(),
        after[at] == account,
        before.len() <= after.len() <= before.len() + 1,
        after.len() == before.len() + 1 ==> at == before.len(),
        forall|i: int| 0 <= i < before.len() && i != at ==> (#[trigger] after[i]) == before[i],
        at < before.len() ==> before[at].client_id == account.client_id,
    ensures
        by_client(after) == by_client(before).insert(account.client_id, account@),
{
    let expected = by_client(before).insert(account.client_id, account@);
    lemma_place(after, at);
    assert forall|client_id: u16|
        by_client(after).contains_key(client_id) <==> expected.contains_key(client_id) by {
        if holds(after, client_id) && client_id != account.client_id {
            let p = place(after, client_id);
            assert(before[p].client_id == client_id);
        }
        if holds(before, client_id) {
            let p = place(before, client_id);
            assert(after[p].client_id == client_id);
        }
    }
    assert forall|client_id: u16| by_client(after).contains_key(client_id) implies by_client(
        after,
    )[client_id] == expected[client_id] by {
        let p = place(after, client_id);
        assert(after[p].client_id == client_id);
        lemma_place(after, p);
        if client_id != account.client_id {
            assert(before[p] == after[p]);
            lemma_place(before, p);
        }
    }
    assert(by_client(after) =~= expected);
}

/// Putting an account in the place of that of its client changes the
/// account of that client and nothing else.
proof fn lemma_replaced(accounts: Seq<Account>, i: int, account: Account)
    requires
        distinct(accounts),
        0 <= i < accounts.len(),
        accounts[i].client_id == account.client_id,
    ensures
        distinct(accounts.update(i, account)),
        clients_of(accounts.update(i, account)) == clients_of(accounts),
        by_client(accounts.update(i, account)) == by_client(accounts).insert(
            account.client_id,
            account@,
        ),
{
    let after = accounts.update(i, account);
    assert forall|a: int, b: int| 0 <= a < b < after.len() implies (#[trigger] after[a]).client_id
        != (#[trigger] after[b]).client_id by {
        assert(accounts[a].client_id != accounts[b].client_id);
    }
    assert(clients_of(after) =~= clients_of(accounts));
    lemma_by_client_insert(accounts, after, i, account);
}

/// Putting the account of a new client behind the others adds that
/// client's account and changes nothing else.
proof fn lemma_appended(accounts: Seq<Account>, account: Account)
    requires
        distinct(accounts),
        !holds(accounts, account.client_id),
    ensures
        distinct(accounts.push(account)),
        clients_of(accounts.push(account)) == clients_of(accounts).push(account.client_id),
        by_client(accounts.push(account)) == by_client(accounts).insert(
            account.client_id,
            account@,
        ),
{
    let after = accounts.push(account);
    let last = accounts.len() as int;
    assert forall|a: int, b: int| 0 <= a < b < after.len() implies (#[trigger] after[a]).client_id
        != (#[trigger] after[b]).client_id by {
        assert(accounts[a].client_id == after[a].client_id);
        if b < last {
            assert(accounts[b].client_id == after[b].client_id);
        }
    }
    assert(clients_of(after) =~= clients_of(accounts).push(account.client_id));
    lemma_by_client_insert(accounts, after, last, account);
}

/// The accounts and the transaction records of a bank.
pub struct Ledger {
    accounts: Vec<Account>,
    transactions: HashMap<u32, TransactionRecord>,
}

impl View for Ledger {
    type V = LedgerView;

    closed spec fn view(&self) -> LedgerView {
        LedgerView {
            clients: clients_of(self.accounts@),
            accounts: by_client(self.accounts@),
            records: self.transactions@,
        }
    }
}

impl Ledger {
    /// One account per client, and only deposits and withdrawals on record.
    pub open spec fn wf(&self) -> bool {
        self@.wf()
    }

    /// A ledger without accounts or records.
    pub fn new() -> (ledger: Ledger)
        ensures
            ledger@ == LedgerView::empty(),
            ledger.wf(),
    {
        let ledger = Ledger { accounts: Vec::new(), transactions: HashMap::new() };
        proof {
            assert(ledger@.clients =~= Seq::empty());
            assert(ledger@.accounts =~= Map::empty());
            lemma_clients(ledger.accounts@);
        }
        ledger
    }

    /// Where the client's account is kept, if the client has one.
    fn find(&self, client_id: u16) -> (found: Option<usize>)
        requires
            self.wf(),
        ensures
            distinct(self.accounts@),
            found is Some <==> holds(self.accounts@, client_id),
            found matches Some(i) ==> i < self.accounts.len() && self.accounts[i as int].client_id
                == client_id && self@.accounts[client_id] == self.accounts[i as int]@,
    {
        proof {
            lemma_clients(self.accounts@);
        }
        let mut i: usize = 0;
        while i < self.accounts.len()
            invariant
                i <= self.accounts.len(),
                distinct(self.accounts@),
                forall|j: int| 0 <= j < i ==> (#[trigger] self.accounts@[j]).client_id != client_id,
            decreases self.accounts.len() - i,
        {
            if self.accounts[i].client_id == client_id {
                proof {
                    lemma_place(self.accounts@, i as int);
                }
                return Some(i);
            }
            i += 1;
        }
        None
    }

    /// The client's account, if the client has one.
    pub fn get_account(&self, client_id: u16) -> (found: Option<Account>)
        requires
            self.wf(),
        ensures
            found is Some <==> self@.has_account(client_id),
            found matches Some(account) ==> account@ == self@.accounts[client_id],
    {
        match self.find(client_id) {
            Some(i) => Some(self.accounts[i]),
            None => None,
        }
    }

    /// The client's account, opened on the spot if the client had none.
    pub fn get_or_create_account(&mut self, client_id: u16) -> (account: Account)
        requires
            old(self).wf(),
        ensures
            final(self).wf(),
            final(self)@ == old(self)@.with_account(client_id),
            account@ == old(self)@.account(client_id),
    {
        match self.find(client_id) {
            Some(i) => self.accounts[i],
            None => {
                let account = Account::new(client_id);
                self.accounts.push(account);
                proof {
                    lemma_appended(old(self).accounts@, account);
                    old(self)@.lemma_with_account_wf(client_id);
                }
                account
            },
        }
    }

    /// Stores `account` in the place of its client's account, or behind the
    /// others if the client had none.
    pub fn put_account(&mut self, account: Account)
        requires
            old(self).wf(),
        ensures
            final(self).wf(),
            final(self)@ == old(self)@.put_account(account@),
    {
        proof {
            old(self)@.lemma_put_account_wf(account@);
        }
        match self.find(account.client_id) {
            Some(i) => {
                self.accounts.set(i, account);
                proof {
                    lemma_replaced(old(self).accounts@, i as int, account);
                }
            },
            None => {
                self.accounts.push(account);
                proof {
                    lemma_appended(old(self).accounts@, account);
                }
            },
        }
    }

    /// Puts `(transaction, status)` on record under `id`, in the place of any
    /// earlier record under that id.
    pub fn record_transaction(
        &mut self,
        id: u32,
        transaction: Transaction,
        status: TransactionStatus,
    )
        requires
            old(self).wf(),
            transaction.is_recordable(),
        ensures
            final(self).wf(),
            final(self)@ == old(self)@.record(id, transaction, status),
    {
        self.transactions.insert(id, (transaction, status));
        proof {
            old(self)@.lemma_record_wf(id, transaction, status);
        }
    }

    /// The record under `id`, if there is one.
    pub fn get_transaction(&self, id: u32) -> (found: Option<TransactionRecord>)
        ensures
            found is Some <==> self@.records.contains_key(id),
            found matches Some(record) ==> record == self@.records[id],
    {
        match self.transactions.get(&id) {
            Some(record) => Some(*record),
            None => None,
        }
    }

    /// Takes the record under `id` out of the ledger, provided it belongs to
    /// the client of `account` and has the status `desired`. Where it does
    /// not, the ledger stays as it is and the error says why.
    pub fn take_transaction_for_status(
        &mut self,
        account: &Account,
        id: u32,
        desired: TransactionStatus,
    ) -> (taken: Result<TransactionRecord, LookupError>)
        requires
            old(self).wf(),
        ensures
            final(self).wf(),
            taken == old(self)@.lookup(account.client_id, id, desired),
            final(self)@ == old(self)@.take(account.client_id, id, desired),
    {
        let record = match self.transactions.get(&id) {
            Some(record) => *record,
            None => {
                return Err(LookupError::NotFound);
            },
        };
        if record.0.client_id != account.client_id {
            return Err(LookupError::ClientMismatch);
        }
        if desired != record.1 {
            return Err(LookupError::WrongStatus);
        }
        self.transactions.remove(&id);
        proof {
            old(self)@.lemma_take_wf(account.client_id, id, desired);
        }
        Ok(record)
    }

    /// The accounts, in the order in which they were opened.
    pub fn accounts(&self) -> (accounts: &Vec<Account>)
        requires
            self.wf(),
        ensures
            accounts@.len() == self@.snapshot().len(),
            forall|i: int|
                0 <= i < accounts@.len() ==> (#[trigger] accounts@[i])@ == self@.snapshot()[i],
    {
        proof {
            lemma_clients(self.accounts@);
            assert forall|i: int| 0 <= i < self.accounts@.len() implies (
            #[trigger] self.accounts@[i])@ == self@.snapshot()[i] by {
                lemma_place(self.accounts@, i);
            }
        }
        &self.accounts
    }
}

} // verus!
