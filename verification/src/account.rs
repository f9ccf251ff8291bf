//! A client's account and its mathematical view.

use vstd::prelude::*;

verus! {

/// The balances of one client.
///
/// `total` is meant to equal `available + held`; see [`AccountView::is_balanced`].
#[derive(Debug, Clone, Copy, PartialEq, Eq)]
pub struct Account {
    pub client_id: u16,
    /// Funds the client may withdraw.
    pub available: i128,
    /// Funds frozen while a dispute is open.
    pub held: i128,
    pub total: i128,
    /// Set by a chargeback, and never cleared.
    pub locked: bool,
}

/// An account with unbounded integer balances, as contracts speak of it.
pub struct AccountView {
    pub client_id: u16,
    pub available: int,
    pub held: int,
    pub total: int,
    pub locked: bool,
}

impl AccountView {
    /// The account of a client who has not moved any money yet.
    pub open spec fn opened(client_id: u16) -> AccountView {
        AccountView { client_id, available: 0, held: 0, total: 0, locked: false }
    }

    /// The total is the sum of what is available and what is held.
    pub open spec fn is_balanced(self) -> bool {
        self.total == self.available + self.held
    }

    /// Each of the three balances is at least `-limit` and less than `limit`.
    pub open spec fn within(self, limit: int) -> bool {
        &&& -limit <= self.available < limit
        &&& -limit <= self.held < limit
        &&& -limit <= self.total < limit
    }

    /// The account after `amount` was paid in.
    pub open spec fn deposited(self, amount: int) -> AccountView {
        AccountView {
            available: self.available + amount,
            total: self.total + amount,
            ..self
        }
    }

    /// The account after `amount` was paid out.
    pub open spec fn withdrawn(self, amount: int) -> AccountView {
        AccountView {
            available: self.available - amount,
            total: self.total - amount,
            ..self
        }
    }

    /// The account after `amount` was frozen by a dispute.
    pub open spec fn disputed(self, amount: int) -> AccountView {
        AccountView { available: self.available - amount, held: self.held + amount, ..self }
    }

    /// The account after a dispute over `amount` was settled in the client's
    /// favour.
    pub open spec fn resolved(self, amount: int) -> AccountView {
        AccountView { available: self.available + amount, held: self.held - amount, ..self }
    }

    /// The account after a disputed `amount` was charged back.
    pub open spec fn charged_back(self, amount: int) -> AccountView {
        AccountView {
            held: self.held - amount,
            total: self.total - amount,
            locked: true,
            ..self
        }
    }
}

impl View for Account {
    type V = AccountView;

    open spec fn view(&self) -> AccountView {
        AccountView {
            client_id: self.client_id,
            available: self.available as int,
            held: self.held as int,
            total: self.total as int,
            locked: self.locked,
        }
    }
}

impl Account {
    /// A fresh, unlocked account with nothing in it.
    pub fn new(client_id: u16) -> (account: Account)
        ensures
            account@ == AccountView::opened(client_id),
    {
        Account { client_id: client_id, available: 0, held: 0, total: 0, locked: false }
    }
}

} // verus!
