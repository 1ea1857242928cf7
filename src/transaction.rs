use vstd::prelude::*;

verus! {

/// The five kinds of transaction that the ledger understands.
#[derive(Clone, Copy, Debug, PartialEq, Eq, Structural)]
pub enum TransactionKind {
    Deposit,
    Withdrawal,
    Dispute,
    Resolve,
    Chargeback,
}

/// One normalized input record.
///
/// For `Dispute`, `Resolve` and `Chargeback`, `tx` names the referenced
/// transaction and `amount` is ignored.
#[derive(Clone, Copy, Debug, PartialEq, Eq, Structural)]
pub struct Transaction {
    pub kind: TransactionKind,
    pub client: u16,
    pub tx: u32,
    /// Ten-thousandths of a unit.
    pub amount: i64,
}

/// The balances of one client's account, in ten-thousandths of a unit.
#[derive(Clone, Copy, Debug, PartialEq, Eq, Structural)]
pub struct Balances {
    pub client: u16,
    pub available: i64,
    pub held: i64,
    pub total: i64,
    pub locked: bool,
}

/// Why a transaction was dropped without effect.
#[derive(Clone, Copy, Debug, PartialEq, Eq, Structural)]
pub enum Rejection {
    /// The amount involved is zero or negative.
    NonPositiveAmount,
    /// A deposit or withdrawal on a locked account.
    AccountLocked,
    /// The amount exceeds the available funds.
    InsufficientFunds,
    /// The amount exceeds the held funds.
    InsufficientHeld,
    /// No transaction with the referenced id is in the account's history.
    UnknownTransaction,
    /// A balance would leave the range of `i64`.
    Overflow,
}

/// The result of applying one transaction.
#[derive(Clone, Copy, Debug, PartialEq, Eq, Structural)]
pub enum Outcome {
    Applied,
    Rejected(Rejection),
}

impl Balances {
    /// The balances of a freshly created account.
    pub open spec fn empty(client: u16) -> Balances {
        Balances { client, available: 0, held: 0, total: 0, locked: false }
    }

    /// `total == available + held` and `available >= 0`.
    pub open spec fn wf(self) -> bool {
        &&& self.total == self.available + self.held
        &&& self.available >= 0
    }
}

/// Whether `x` is in the range of `i64`.
pub open spec fn fits_i64(x: int) -> bool {
    i64::MIN <= x <= i64::MAX
}

/// The first transaction of `h` whose id is `id`.
pub open spec fn lookup(h: Seq<Transaction>, id: u32) -> Option<Transaction>
    decreases h.len(),
{
    if h.len() == 0 {
        None
    } else if h[0].tx == id {
        Some(h[0])
    } else {
        lookup(h.subrange(1, h.len() as int), id)
    }
}

/// The transition of one account: the new balances when `t` applies to an
/// account with balances `b` and history `h`, or why it is dropped.
pub open spec fn decide(b: Balances, h: Seq<Transaction>, t: Transaction) -> Result<Balances, Rejection> {
    match t.kind {
        TransactionKind::Deposit => {
            if t.amount <= 0 {
                Err(Rejection::NonPositiveAmount)
            } else if b.locked {
                Err(Rejection::AccountLocked)
            } else if !fits_i64(b.available + t.amount) || !fits_i64(b.total + t.amount) {
                Err(Rejection::Overflow)
            } else {
                Ok(Balances {
                    available: (b.available + t.amount) as i64,
                    total: (b.total + t.amount) as i64,
                    ..b
                })
            }
        },
        TransactionKind::Withdrawal => {
            if t.amount <= 0 {
                Err(Rejection::NonPositiveAmount)
            } else if b.locked {
                Err(Rejection::AccountLocked)
            } else if t.amount > b.available {
                Err(Rejection::InsufficientFunds)
            } else {
                Ok(Balances {
                    available: (b.available - t.amount) as i64,
                    total: (b.total - t.amount) as i64,
                    ..b
                })
            }
        },
        TransactionKind::Dispute => match lookup(h, t.tx) {
            None => Err(Rejection::UnknownTransaction),
            Some(r) => if r.amount <= 0 {
                Err(Rejection::NonPositiveAmount)
            } else if r.amount > b.available {
                Err(Rejection::InsufficientFunds)
            } else {
                Ok(Balances {
                    available: (b.available - r.amount) as i64,
                    held: (b.held + r.amount) as i64,
                    ..b
                })
            },
        },
        TransactionKind::Resolve => match lookup(h, t.tx) {
            None => Err(Rejection::UnknownTransaction),
            Some(r) => if r.amount <= 0 {
                Err(Rejection::NonPositiveAmount)
            } else if r.amount > b.held {
                Err(Rejection::InsufficientHeld)
            } else {
                Ok(Balances {
                    available: (b.available + r.amount) as i64,
                    held: (b.held - r.amount) as i64,
                    ..b
                })
            },
        },
        TransactionKind::Chargeback => match lookup(h, t.tx) {
            None => Err(Rejection::UnknownTransaction),
            Some(r) => if r.amount <= 0 {
                Err(Rejection::NonPositiveAmount)
            } else if !fits_i64(b.held - r.amount) || !fits_i64(b.total - r.amount) {
                Err(Rejection::Overflow)
            } else {
                Ok(Balances {
                    held: (b.held - r.amount) as i64,
                    total: (b.total - r.amount) as i64,
                    locked: true,
                    ..b
                })
            },
        },
    }
}

} // verus!
