use vstd::prelude::*;
use crate::transaction::{Balances, Outcome, Rejection, Transaction, TransactionKind, decide, lookup};

verus! {

/// What an account is, mathematically: its balances and the transactions
/// that were applied to it, in order.
pub struct AccountState {
    pub balances: Balances,
    pub history: Seq<Transaction>,
}

impl AccountState {
    /// The state of an account just created for `client`.
    pub open spec fn fresh(client: u16) -> AccountState {
        AccountState { balances: Balances::empty(client), history: Seq::empty() }
    }

    /// The balance invariants hold and every entry of the history belongs to
    /// this account's client.
    pub open spec fn wf(self) -> bool {
        &&& self.balances.wf()
        &&& forall|i: int| 0 <= i < self.history.len() ==> #[trigger] self.history[i].client == self.balances.client
    }

    /// The state after `t`, together with the outcome: an applied transaction
    /// takes the new balances and is appended to the history; a rejected one
    /// leaves the state unchanged.
    pub open spec fn step(self, t: Transaction) -> (AccountState, Outcome) {
        match decide(self.balances, self.history, t) {
            Ok(b) => (AccountState { balances: b, history: self.history.push(t) }, Outcome::Applied),
            Err(e) => (self, Outcome::Rejected(e)),
        }
    }
}

/// One client's account.
pub struct Account {
    pub balances: Balances,
    /// The transactions applied to this account, oldest first.
    pub transactions: Vec<Transaction>,
}

impl View for Account {
    type V = AccountState;

    open spec fn view(&self) -> AccountState {
        AccountState { balances: self.balances, history: self.transactions@ }
    }
}

impl Account {
    /// A new account for `client`, with zero balances, unlocked, with no history.
    pub fn new(client: u16) -> (r: Account)
        ensures
            r@ == AccountState::fresh(client),
            r@.wf(),
    {
        Account {
            balances: Balances { client, available: 0, held: 0, total: 0, locked: false },
            transactions: Vec::new(),
        }
    }

    /// The first transaction of the history whose id is that of `find_txn`.
    pub fn find_transaction(&self, find_txn: &Transaction) -> (r: Option<&Transaction>)
        ensures
            match r {
                Some(t) => lookup(self.transactions@, find_txn.tx) == Some(*t),
                None => lookup(self.transactions@, find_txn.tx).is_none(),
            },
    {
        let ghost h = self.transactions@;
        let mut i: usize = 0;
        assert(h.subrange(0, h.len() as int) =~= h);
        while i < self.transactions.len()
            invariant
                h == self.transactions@,
                0 <= i <= h.len(),
                lookup(h, find_txn.tx) == lookup(h.subrange(i as int, h.len() as int), find_txn.tx),
            decreases h.len() - i,
        {
            let ghost rest = h.subrange(i as int, h.len() as int);
            assert(rest[0] == h[i as int]);
            if self.transactions[i].tx == find_txn.tx {
                return Some(&self.transactions[i]);
            }
            assert(rest.subrange(1, rest.len() as int) =~= h.subrange(i + 1, h.len() as int));
            i = i + 1;
        }
        None
    }

    /// Applies one transaction according to the transition rules, appending it
    /// to the history exactly when it is applied.
    pub fn apply(&mut self, t: Transaction) -> (r: Outcome)
        requires
            old(self)@.wf(),
            t.client == old(self).balances.client,
        ensures
            (final(self)@, r) == old(self)@.step(t),
            final(self)@.wf(),
    {
        let b = self.balances;
        let amount: i64 = match t.kind {
            TransactionKind::Deposit | TransactionKind::Withdrawal => t.amount,
            _ => match self.find_transaction(&t) {
                Some(r) => r.amount,
                None => {
                    return Outcome::Rejected(Rejection::UnknownTransaction);
                },
            },
        };
        if amount <= 0 {
            return Outcome::Rejected(Rejection::NonPositiveAmount);
        }
        let next = match t.kind {
            TransactionKind::Deposit => {
                if b.locked {
                    return Outcome::Rejected(Rejection::AccountLocked);
                }
                if b.available > i64::MAX - amount || b.total > i64::MAX - amount {
                    return Outcome::Rejected(Rejection::Overflow);
                }
                Balances { available: b.available + amount, total: b.total + amount, ..b }
            },
            TransactionKind::Withdrawal => {
                if b.locked {
                    return Outcome::Rejected(Rejection::AccountLocked);
                }
                if amount > b.available {
                    return Outcome::Rejected(Rejection::InsufficientFunds);
                }
                Balances { available: b.available - amount, total: b.total - amount, ..b }
            },
            TransactionKind::Dispute => {
                if amount > b.available {
                    return Outcome::Rejected(Rejection::InsufficientFunds);
                }
                Balances { available: b.available - amount, held: b.held + amount, ..b }
            },
            TransactionKind::Resolve => {
                if amount > b.held {
                    return Outcome::Rejected(Rejection::InsufficientHeld);
                }
                Balances { available: b.available + amount, held: b.held - amount, ..b }
            },
            TransactionKind::Chargeback => {
                if b.held < i64::MIN + amount || b.total < i64::MIN + amount {
                    return Outcome::Rejected(Rejection::Overflow);
                }
                Balances { held: b.held - amount, total: b.total - amount, locked: true, ..b }
            },
        };
        self.balances = next;
        self.transactions.push(t);
        Outcome::Applied
    }
}

} // verus!
