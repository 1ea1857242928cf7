use ledger::account::Account;
use ledger::ledger::{replay, Ledger};
use ledger::record::{kind_from_lowercase, normalize, parse_amount, parse_kind, split_amount, RecordError};
use ledger::transaction::{Balances, Outcome, Rejection, Transaction, TransactionKind};

fn tx(kind: TransactionKind, client: u16, id: u32, amount: i64) -> Transaction {
    Transaction { kind, client, tx: id, amount }
}

fn dep(client: u16, id: u32, amount: i64) -> Transaction {
    tx(TransactionKind::Deposit, client, id, amount)
}

fn bal(client: u16, available: i64, held: i64, total: i64, locked: bool) -> Balances {
    Balances { client, available, held, total, locked }
}

fn balances_of(l: &Ledger, client: u16) -> Balances {
    l.account(client).unwrap().balances
}

#[test]
fn scenario_deposits_and_withdrawal() {
    let txs = vec![
        dep(1, 1, 100000),
        dep(2, 2, 50000),
        tx(TransactionKind::Withdrawal, 1, 3, 30000),
    ];
    let l = replay(&txs);
    assert_eq!(balances_of(&l, 1), bal(1, 70000, 0, 70000, false));
    assert_eq!(balances_of(&l, 2), bal(2, 50000, 0, 50000, false));
    assert_eq!(l.snapshot().len(), 2);
}

#[test]
fn scenario_dispute_holds_funds() {
    let txs = vec![dep(1, 1, 100000), tx(TransactionKind::Dispute, 1, 1, 0)];
    let l = replay(&txs);
    assert_eq!(balances_of(&l, 1), bal(1, 0, 100000, 100000, false));
}

#[test]
fn scenario_resolve_releases_funds() {
    let txs = vec![
        dep(1, 1, 100000),
        tx(TransactionKind::Dispute, 1, 1, 0),
        tx(TransactionKind::Resolve, 1, 1, 0),
    ];
    let l = replay(&txs);
    assert_eq!(balances_of(&l, 1), bal(1, 100000, 0, 100000, false));
}

#[test]
fn scenario_chargeback_locks_account() {
    let mut l = Ledger::new();
    assert_eq!(l.apply(dep(1, 1, 100000)), Outcome::Applied);
    assert_eq!(l.apply(tx(TransactionKind::Dispute, 1, 1, 0)), Outcome::Applied);
    assert_eq!(l.apply(tx(TransactionKind::Chargeback, 1, 1, 0)), Outcome::Applied);
    assert_eq!(l.apply(dep(1, 2, 50000)), Outcome::Rejected(Rejection::AccountLocked));
    let a = l.account(1).unwrap();
    assert_eq!(a.balances, bal(1, 0, 0, 0, true));
    assert_eq!(a.transactions.len(), 3);
    assert!(a.transactions.iter().all(|t| t.tx != 2));
}

#[test]
fn locked_account_refuses_withdrawal() {
    let txs = vec![
        dep(1, 1, 100000),
        dep(1, 2, 20000),
        tx(TransactionKind::Dispute, 1, 1, 0),
        tx(TransactionKind::Chargeback, 1, 1, 0),
    ];
    let mut l = replay(&txs);
    assert_eq!(
        l.apply(tx(TransactionKind::Withdrawal, 1, 5, 10000)),
        Outcome::Rejected(Rejection::AccountLocked)
    );
    assert_eq!(balances_of(&l, 1), bal(1, 20000, 0, 20000, true));
}

#[test]
fn snapshot_twice_is_identical() {
    let txs = vec![dep(1, 1, 100000), dep(7, 2, 1), tx(TransactionKind::Dispute, 1, 1, 0)];
    let l = replay(&txs);
    let a = l.snapshot();
    let b = l.snapshot();
    assert_eq!(a, b);
    assert_eq!(a, vec![bal(1, 0, 100000, 100000, false), bal(7, 1, 0, 1, false)]);
}

#[test]
fn balances_keep_total_equal_to_sum() {
    let txs = vec![
        dep(1, 1, 100000),
        dep(1, 2, 25000),
        tx(TransactionKind::Withdrawal, 1, 3, 5000),
        tx(TransactionKind::Dispute, 1, 2, 0),
        tx(TransactionKind::Withdrawal, 1, 4, 500000),
        tx(TransactionKind::Resolve, 1, 9, 0),
    ];
    let l = replay(&txs);
    for b in l.snapshot() {
        assert_eq!(b.total, b.available + b.held);
        assert!(b.available >= 0 && b.held >= 0);
    }
    assert_eq!(balances_of(&l, 1), bal(1, 95000, 25000, 120000, false));
}

#[test]
fn deposit_adds_exactly_its_amount() {
    let mut a = Account::new(3);
    assert_eq!(a.apply(dep(3, 1, 12345)), Outcome::Applied);
    assert_eq!(a.apply(dep(3, 2, 5)), Outcome::Applied);
    assert_eq!(a.balances, bal(3, 12350, 0, 12350, false));
    assert_eq!(a.transactions, vec![dep(3, 1, 12345), dep(3, 2, 5)]);
}

#[test]
fn withdrawal_beyond_available_is_dropped() {
    let mut a = Account::new(1);
    a.apply(dep(1, 1, 10000));
    let r = a.apply(tx(TransactionKind::Withdrawal, 1, 2, 10001));
    assert_eq!(r, Outcome::Rejected(Rejection::InsufficientFunds));
    assert_eq!(a.balances, bal(1, 10000, 0, 10000, false));
    assert_eq!(a.transactions.len(), 1);
    assert_eq!(a.apply(tx(TransactionKind::Withdrawal, 1, 3, 10000)), Outcome::Applied);
    assert_eq!(a.balances, bal(1, 0, 0, 0, false));
}

#[test]
fn dispute_of_unknown_transaction_is_dropped() {
    let mut a = Account::new(1);
    a.apply(dep(1, 1, 10000));
    let r = a.apply(tx(TransactionKind::Dispute, 1, 2, 0));
    assert_eq!(r, Outcome::Rejected(Rejection::UnknownTransaction));
    assert_eq!(a.balances, bal(1, 10000, 0, 10000, false));
    assert_eq!(a.transactions.len(), 1);
}

#[test]
fn dispute_of_other_clients_transaction_is_dropped() {
    let txs = vec![dep(1, 1, 10000), dep(2, 2, 10000)];
    let mut l = replay(&txs);
    let r = l.apply(tx(TransactionKind::Dispute, 2, 1, 0));
    assert_eq!(r, Outcome::Rejected(Rejection::UnknownTransaction));
    assert_eq!(balances_of(&l, 2), bal(2, 10000, 0, 10000, false));
}

#[test]
fn rejected_first_transaction_still_creates_account() {
    let mut l = Ledger::new();
    let r = l.apply(tx(TransactionKind::Withdrawal, 4, 1, 10000));
    assert_eq!(r, Outcome::Rejected(Rejection::InsufficientFunds));
    assert_eq!(l.snapshot(), vec![bal(4, 0, 0, 0, false)]);
    assert_eq!(l.account(4).unwrap().transactions.len(), 0);
    assert!(l.account(5).is_none());
}

#[test]
fn non_positive_amounts_are_dropped() {
    let mut a = Account::new(1);
    assert_eq!(a.apply(dep(1, 1, 0)), Outcome::Rejected(Rejection::NonPositiveAmount));
    assert_eq!(a.apply(dep(1, 1, -5)), Outcome::Rejected(Rejection::NonPositiveAmount));
    assert_eq!(
        a.apply(tx(TransactionKind::Withdrawal, 1, 2, 0)),
        Outcome::Rejected(Rejection::NonPositiveAmount)
    );
    assert_eq!(a.balances, bal(1, 0, 0, 0, false));
    assert!(a.transactions.is_empty());
}

#[test]
fn resolve_beyond_held_is_dropped() {
    let mut a = Account::new(1);
    a.apply(dep(1, 1, 10000));
    let r = a.apply(tx(TransactionKind::Resolve, 1, 1, 0));
    assert_eq!(r, Outcome::Rejected(Rejection::InsufficientHeld));
    assert_eq!(a.balances, bal(1, 10000, 0, 10000, false));
}

#[test]
fn dispute_beyond_available_is_dropped() {
    let mut a = Account::new(1);
    a.apply(dep(1, 1, 10000));
    a.apply(tx(TransactionKind::Withdrawal, 1, 2, 5000));
    let r = a.apply(tx(TransactionKind::Dispute, 1, 1, 0));
    assert_eq!(r, Outcome::Rejected(Rejection::InsufficientFunds));
    assert_eq!(a.balances, bal(1, 5000, 0, 5000, false));
}

#[test]
fn chargeback_without_dispute_makes_held_negative() {
    let mut a = Account::new(1);
    a.apply(dep(1, 1, 10000));
    assert_eq!(a.apply(tx(TransactionKind::Chargeback, 1, 1, 0)), Outcome::Applied);
    assert_eq!(a.balances, bal(1, 10000, -10000, 0, true));
}

#[test]
fn deposit_overflow_is_dropped() {
    let mut a = Account::new(1);
    assert_eq!(a.apply(dep(1, 1, i64::MAX)), Outcome::Applied);
    assert_eq!(a.apply(dep(1, 2, 1)), Outcome::Rejected(Rejection::Overflow));
    assert_eq!(a.balances, bal(1, i64::MAX, 0, i64::MAX, false));
}

#[test]
fn chargeback_overflow_is_dropped() {
    let mut a = Account::new(1);
    a.apply(dep(1, 1, i64::MAX));
    assert_eq!(a.apply(tx(TransactionKind::Chargeback, 1, 1, 0)), Outcome::Applied);
    assert_eq!(a.balances, bal(1, i64::MAX, -i64::MAX, 0, true));
    assert_eq!(
        a.apply(tx(TransactionKind::Chargeback, 1, 1, 0)),
        Outcome::Rejected(Rejection::Overflow)
    );
}

#[test]
fn find_transaction_returns_first_match() {
    let mut a = Account::new(1);
    a.apply(dep(1, 1, 10000));
    a.apply(dep(1, 2, 30000));
    a.apply(tx(TransactionKind::Dispute, 1, 2, 0));
    let found = a.find_transaction(&tx(TransactionKind::Resolve, 1, 2, 0));
    assert_eq!(found, Some(&dep(1, 2, 30000)));
    assert_eq!(a.find_transaction(&tx(TransactionKind::Resolve, 1, 9, 0)), None);
}

#[test]
fn kinds_are_read_without_case() {
    assert_eq!(parse_kind("deposit"), Some(TransactionKind::Deposit));
    assert_eq!(parse_kind("WITHDRAWAL"), Some(TransactionKind::Withdrawal));
    assert_eq!(parse_kind("Dispute"), Some(TransactionKind::Dispute));
    assert_eq!(parse_kind("resolve"), Some(TransactionKind::Resolve));
    assert_eq!(parse_kind("ChargeBack"), Some(TransactionKind::Chargeback));
    assert_eq!(parse_kind("refund"), None);
    assert_eq!(parse_kind("deposits"), None);
    assert_eq!(parse_kind(""), None);
    assert_eq!(parse_kind("chargebac\u{212A}"), Some(TransactionKind::Chargeback));
    assert_eq!(parse_kind("D\u{130}SPUTE"), None);
}

#[test]
fn lowercase_names_map_to_kinds() {
    assert_eq!(kind_from_lowercase(&"resolve".to_string()), Some(TransactionKind::Resolve));
    assert_eq!(kind_from_lowercase(&"Resolve".to_string()), None);
}

#[test]
fn amounts_are_read_in_ten_thousandths() {
    assert_eq!(parse_amount("".as_bytes()), Some(0));
    assert_eq!(parse_amount("10.0".as_bytes()), Some(100000));
    assert_eq!(parse_amount("1.5".as_bytes()), Some(15000));
    assert_eq!(parse_amount("2.1234".as_bytes()), Some(21234));
    assert_eq!(parse_amount("7".as_bytes()), Some(70000));
    assert_eq!(parse_amount(".25".as_bytes()), Some(2500));
    assert_eq!(parse_amount("3.".as_bytes()), Some(30000));
    assert_eq!(parse_amount("-1.5".as_bytes()), Some(-15000));
    assert_eq!(parse_amount("+0.0001".as_bytes()), Some(1));
    assert_eq!(parse_amount("922337203685477.5807".as_bytes()), Some(i64::MAX));
    assert_eq!(parse_amount("-922337203685477.5808".as_bytes()), Some(i64::MIN));
}

#[test]
fn extra_fraction_digits_are_rounded() {
    assert_eq!(parse_amount("1.23456".as_bytes()), Some(12346));
    assert_eq!(parse_amount("1.23454".as_bytes()), Some(12345));
    assert_eq!(parse_amount("1.234549999".as_bytes()), Some(12345));
    assert_eq!(parse_amount("0.00005".as_bytes()), Some(1));
    assert_eq!(parse_amount("-1.23456".as_bytes()), Some(-12346));
    assert_eq!(parse_amount("2.99995".as_bytes()), Some(30000));
    assert_eq!(parse_amount("1.2345x".as_bytes()), None);
    assert_eq!(parse_amount("922337203685477.58075".as_bytes()), None);
}

#[test]
fn malformed_amounts_are_refused() {
    assert_eq!(parse_amount("abc".as_bytes()), None);
    assert_eq!(parse_amount(".".as_bytes()), None);
    assert_eq!(parse_amount("-".as_bytes()), None);
    assert_eq!(parse_amount("1.2.3".as_bytes()), None);
    assert_eq!(parse_amount("1e3".as_bytes()), None);
    assert_eq!(parse_amount("922337203685477.5808".as_bytes()), None);
    assert_eq!(parse_amount("99999999999999999999999".as_bytes()), None);
}

#[test]
fn records_are_normalized() {
    assert_eq!(
        normalize("Deposit", 1, 1, "10.0".as_bytes()),
        Ok(Some(dep(1, 1, 100000)))
    );
    assert_eq!(
        normalize("dispute", 2, 9, "".as_bytes()),
        Ok(Some(tx(TransactionKind::Dispute, 2, 9, 0)))
    );
    assert_eq!(normalize("transfer", 1, 1, "1".as_bytes()), Ok(None));
    assert_eq!(
        normalize("deposit", 1, 1, "ten".as_bytes()),
        Err(RecordError::InvalidAmount)
    );
}

#[test]
fn amounts_split_for_writing() {
    assert_eq!(split_amount(70000), (false, 7, 0));
    assert_eq!(split_amount(21234), (false, 2, 1234));
    assert_eq!(split_amount(-15000), (true, 1, 5000));
    assert_eq!(split_amount(0), (false, 0, 0));
    assert_eq!(split_amount(i64::MIN), (true, 922337203685477, 5808));
}

#[test]
fn client_result_ignores_other_clients() {
    let mixed = vec![
        dep(1, 1, 100000),
        dep(2, 2, 70000),
        tx(TransactionKind::Dispute, 2, 1, 0),
        tx(TransactionKind::Withdrawal, 1, 3, 20000),
        tx(TransactionKind::Dispute, 1, 1, 0),
        tx(TransactionKind::Chargeback, 2, 2, 0),
    ];
    let own: Vec<Transaction> = mixed.iter().copied().filter(|t| t.client == 1).collect();
    let a = replay(&mixed);
    let b = replay(&own);
    assert_eq!(a.account(1).unwrap().balances, b.account(1).unwrap().balances);
    assert_eq!(a.account(1).unwrap().transactions, b.account(1).unwrap().transactions);
    assert_eq!(balances_of(&a, 1), bal(1, 80000, 0, 80000, false));
}

#[test]
fn locked_account_ignores_every_later_deposit_and_withdrawal() {
    let mut txs = vec![
        dep(1, 1, 100000),
        tx(TransactionKind::Dispute, 1, 1, 0),
        tx(TransactionKind::Chargeback, 1, 1, 0),
    ];
    let before = replay(&txs).snapshot();
    txs.push(dep(1, 5, 1));
    txs.push(tx(TransactionKind::Withdrawal, 1, 6, 0));
    txs.push(dep(1, 7, i64::MAX));
    let l = replay(&txs);
    assert_eq!(l.snapshot(), before);
    assert_eq!(l.account(1).unwrap().transactions.len(), 3);
}
