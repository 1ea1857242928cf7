//! Properties of the transition rules, proved over their mathematical model.
use vstd::prelude::*;
use crate::account::AccountState;
use crate::ledger::{store_wf, has_client, position, account_of, ledger_step, replay_of};
use crate::transaction::{Outcome, Rejection, Transaction, TransactionKind, decide, lookup, fits_i64};

verus! {

/// A single account step keeps the client and the account invariants
/// (`total == available + held`, `available >= 0`).
pub proof fn account_step_keeps_invariants(a: AccountState, t: Transaction)
    requires
        a.wf(),
        t.client == a.balances.client,
    ensures
        a.step(t).0.wf(),
        a.step(t).0.balances.client == a.balances.client,
{
    let (a2, _) = a.step(t);
    if decide(a.balances, a.history, t) is Ok {
        assert forall|i: int| 0 <= i < a2.history.len() implies #[trigger] a2.history[i].client == a2.balances.client by {
            if i < a.history.len() {
                assert(a2.history[i] == a.history[i]);
            }
        }
    }
}

/// In a well-formed store, the account at `i` is the one found for its client.
pub proof fn position_of_index(s: Seq<AccountState>, i: int)
    requires
        store_wf(s),
        0 <= i < s.len(),
    ensures
        has_client(s, s[i].balances.client),
        position(s, s[i].balances.client) == i,
        account_of(s, s[i].balances.client) == Some(s[i]),
{
    let c = s[i].balances.client;
    assert(has_client(s, c));
    let p = position(s, c);
    assert(s[p].balances.client == c);
}

/// Every step of the engine keeps every account's invariants:
/// `total == available + held` and `available >= 0`, and one account per client.
pub proof fn ledger_step_keeps_invariants(s: Seq<AccountState>, t: Transaction)
    requires
        store_wf(s),
    ensures
        store_wf(ledger_step(s, t).0),
{
    let s2 = ledger_step(s, t).0;
    if has_client(s, t.client) {
        let i = position(s, t.client);
        account_step_keeps_invariants(s[i], t);
        assert forall|j: int| 0 <= j < s2.len() implies (#[trigger] s2[j]).wf() by {
            if j != i {
                assert(s2[j] == s[j]);
            }
        }
        assert forall|j: int, k: int|
            0 <= j < s2.len() && 0 <= k < s2.len() && j != k
                implies (#[trigger] s2[j]).balances.client != (#[trigger] s2[k]).balances.client by {
            assert(s2[j].balances.client == s[j].balances.client);
            assert(s2[k].balances.client == s[k].balances.client);
        }
    } else {
        account_step_keeps_invariants(AccountState::fresh(t.client), t);
        assert forall|j: int, k: int|
            0 <= j < s2.len() && 0 <= k < s2.len() && j != k
                implies (#[trigger] s2[j]).balances.client != (#[trigger] s2[k]).balances.client by {
            if j < s.len() && k < s.len() {
                assert(s2[j] == s[j]);
                assert(s2[k] == s[k]);
            } else if j < s.len() {
                assert(s2[j] == s[j]);
            } else {
                assert(s2[k] == s[k]);
            }
        }
    }
}

/// After any stream of transactions every account satisfies
/// `total == available + held` and `available >= 0`.
pub proof fn replay_keeps_invariants(txs: Seq<Transaction>)
    ensures
        store_wf(replay_of(txs)),
    decreases txs.len(),
{
    if txs.len() > 0 {
        replay_keeps_invariants(txs.drop_last());
        ledger_step_keeps_invariants(replay_of(txs.drop_last()), txs.last());
    }
}

/// A transaction leaves the account of every other client as it was, and
/// creates no account for it.
pub proof fn step_leaves_other_clients(s: Seq<AccountState>, t: Transaction, c: u16)
    requires
        store_wf(s),
        c != t.client,
    ensures
        account_of(ledger_step(s, t).0, c) == account_of(s, c),
{
    ledger_step_keeps_invariants(s, t);
    let s2 = ledger_step(s, t).0;
    let n = if has_client(s, t.client) { position(s, t.client) } else { s.len() as int };
    if has_client(s, t.client) {
        account_step_keeps_invariants(s[n], t);
    } else {
        account_step_keeps_invariants(AccountState::fresh(t.client), t);
    }
    assert(s2[n].balances.client == t.client);
    if has_client(s, c) {
        let i = position(s, c);
        assert(s2[i] == s[i]);
        position_of_index(s2, i);
    } else {
        assert forall|j: int| 0 <= j < s2.len() implies (#[trigger] s2[j]).balances.client != c by {
            if j != n {
                assert(s2[j] == s[j]);
            }
        }
    }
}

/// `held` stays non-negative under every transaction but a chargeback whose
/// referenced amount exceeds the held funds.
pub proof fn held_stays_non_negative(a: AccountState, t: Transaction)
    requires
        a.wf(),
        a.balances.held >= 0,
        t.kind == TransactionKind::Chargeback && lookup(a.history, t.tx) is Some
            ==> lookup(a.history, t.tx).unwrap().amount <= a.balances.held,
    ensures
        a.step(t).0.balances.held >= 0,
{
}

/// A deposit of a positive amount to an unlocked account adds exactly that
/// amount to `available` and `total`, changes nothing else, and is recorded.
pub proof fn deposit_adds_amount(a: AccountState, t: Transaction)
    requires
        t.kind == TransactionKind::Deposit,
        t.amount > 0,
        !a.balances.locked,
        fits_i64(a.balances.available + t.amount),
        fits_i64(a.balances.total + t.amount),
    ensures
        a.step(t).1 == Outcome::Applied,
        a.step(t).0.balances.available == a.balances.available + t.amount,
        a.step(t).0.balances.total == a.balances.total + t.amount,
        a.step(t).0.balances.held == a.balances.held,
        a.step(t).0.balances.locked == a.balances.locked,
        a.step(t).0.balances.client == a.balances.client,
        a.step(t).0.history == a.history.push(t),
{
}

/// A withdrawal of more than the available funds changes nothing and is not
/// recorded.
pub proof fn withdrawal_beyond_available_is_no_op(a: AccountState, t: Transaction)
    requires
        t.kind == TransactionKind::Withdrawal,
        t.amount > a.balances.available,
    ensures
        a.step(t).0 == a,
        a.step(t).1 != Outcome::Applied,
{
}

/// A dispute naming an id that is not in the account's history changes
/// nothing.
pub proof fn dispute_of_unknown_is_no_op(a: AccountState, t: Transaction)
    requires
        t.kind == TransactionKind::Dispute,
        lookup(a.history, t.tx) is None,
    ensures
        a.step(t) == (a, Outcome::Rejected(Rejection::UnknownTransaction)),
{
}

/// In the engine, a dispute naming an id that is not in its existing client's
/// history leaves every account unchanged.
pub proof fn ledger_dispute_of_unknown_is_no_op(s: Seq<AccountState>, t: Transaction)
    requires
        store_wf(s),
        t.kind == TransactionKind::Dispute,
        account_of(s, t.client) matches Some(a) && lookup(a.history, t.tx) is None,
    ensures
        ledger_step(s, t) == (s, Outcome::Rejected(Rejection::UnknownTransaction)),
{
    let i = position(s, t.client);
    assert(s.update(i, s[i]) =~= s);
}

/// An applied chargeback locks the account.
pub proof fn chargeback_locks(a: AccountState, t: Transaction)
    requires
        t.kind == TransactionKind::Chargeback,
        a.step(t).1 == Outcome::Applied,
    ensures
        a.step(t).0.balances.locked,
{
}

/// A locked account stays locked, and a deposit or withdrawal on it changes
/// nothing, whatever its amount.
pub proof fn locked_is_permanent(a: AccountState, t: Transaction)
    requires
        a.balances.locked,
    ensures
        a.step(t).0.balances.locked,
        (t.kind == TransactionKind::Deposit || t.kind == TransactionKind::Withdrawal) ==> a.step(t).0 == a,
{
}

/// In the engine, a locked account stays locked through every later
/// transaction of any client, and a deposit or withdrawal for its client
/// leaves every account unchanged.
pub proof fn ledger_locked_is_permanent(s: Seq<AccountState>, t: Transaction, c: u16)
    requires
        store_wf(s),
        account_of(s, c) matches Some(a) && a.balances.locked,
    ensures
        account_of(ledger_step(s, t).0, c) matches Some(a2) && a2.balances.locked,
        t.client == c && (t.kind == TransactionKind::Deposit || t.kind == TransactionKind::Withdrawal)
            ==> ledger_step(s, t).0 == s,
{
    let i = position(s, c);
    ledger_step_keeps_invariants(s, t);
    let s2 = ledger_step(s, t).0;
    if has_client(s, t.client) {
        let k = position(s, t.client);
        account_step_keeps_invariants(s[k], t);
        if k == i {
            locked_is_permanent(s[i], t);
            if t.kind == TransactionKind::Deposit || t.kind == TransactionKind::Withdrawal {
                assert(s.update(i, s[i]) =~= s);
            }
        }
        assert(s2[i].balances.client == c);
        position_of_index(s2, i);
    } else {
        assert(s2[i] == s[i]);
        position_of_index(s2, i);
    }
}

/// Along a stream, once a client's account is locked it stays locked.
pub proof fn locked_through_stream(txs: Seq<Transaction>, n: int, c: u16)
    requires
        0 <= n <= txs.len(),
        account_of(replay_of(txs.subrange(0, n)), c) matches Some(a) && a.balances.locked,
    ensures
        account_of(replay_of(txs), c) matches Some(a) && a.balances.locked,
    decreases txs.len() - n,
{
    if n == txs.len() {
        assert(txs.subrange(0, n) =~= txs);
    } else {
        let pre = txs.subrange(0, n);
        replay_keeps_invariants(pre);
        ledger_locked_is_permanent(replay_of(pre), txs[n], c);
        assert(txs.subrange(0, n + 1).drop_last() =~= pre);
        locked_through_stream(txs, n + 1, c);
    }
}

/// Along a stream, once a client's account is locked, every later deposit or
/// withdrawal for that client, whatever its amount, leaves all accounts as
/// they were and is not recorded.
pub proof fn locked_ignores_later_deposits_and_withdrawals(txs: Seq<Transaction>, n: int, m: int, c: u16)
    requires
        0 <= n <= m < txs.len(),
        account_of(replay_of(txs.subrange(0, n)), c) matches Some(a) && a.balances.locked,
        txs[m].client == c,
        txs[m].kind == TransactionKind::Deposit || txs[m].kind == TransactionKind::Withdrawal,
    ensures
        replay_of(txs.subrange(0, m + 1)) == replay_of(txs.subrange(0, m)),
{
    let pre = txs.subrange(0, m);
    assert(pre.subrange(0, n) =~= txs.subrange(0, n));
    locked_through_stream(pre, n, c);
    replay_keeps_invariants(pre);
    ledger_locked_is_permanent(replay_of(pre), txs[m], c);
    assert(txs.subrange(0, m + 1).drop_last() =~= pre);
}

/// After one step, the account of the transaction's client is that account
/// (or a fresh one, for a new client) after the account step.
pub proof fn step_of_own_client(s: Seq<AccountState>, t: Transaction)
    requires
        store_wf(s),
    ensures
        account_of(ledger_step(s, t).0, t.client) == Some(
            match account_of(s, t.client) {
                Some(a) => a.step(t).0,
                None => AccountState::fresh(t.client).step(t).0,
            },
        ),
{
    ledger_step_keeps_invariants(s, t);
    let s2 = ledger_step(s, t).0;
    if has_client(s, t.client) {
        let i = position(s, t.client);
        account_step_keeps_invariants(s[i], t);
        position_of_index(s2, i);
    } else {
        account_step_keeps_invariants(AccountState::fresh(t.client), t);
        position_of_index(s2, s.len() as int);
    }
}

/// The transactions of `txs` that belong to `client`, in order.
pub open spec fn of_client(txs: Seq<Transaction>, client: u16) -> Seq<Transaction> {
    txs.filter(|t: Transaction| t.client == client)
}

/// A client's account after a stream depends only on that client's own
/// transactions: replaying them alone gives the same account.
pub proof fn client_depends_only_on_own_transactions(txs: Seq<Transaction>, c: u16)
    ensures
        account_of(replay_of(txs), c) == account_of(replay_of(of_client(txs, c)), c),
    decreases txs.len(),
{
    if txs.len() > 0 {
        let p = txs.drop_last();
        let t = txs.last();
        client_depends_only_on_own_transactions(p, c);
        replay_keeps_invariants(p);
        let fp = of_client(p, c);
        replay_keeps_invariants(fp);
        let pred = |x: Transaction| x.client == c;
        assert(of_client(txs, c) == txs.filter(pred));
        assert(fp == p.filter(pred));
        reveal_with_fuel(Seq::filter, 1);
        assert(txs.filter(pred) == if pred(t) { p.filter(pred).push(t) } else { p.filter(pred) });
        if t.client == c {
            assert(fp.push(t).drop_last() =~= fp);
            step_of_own_client(replay_of(p), t);
            step_of_own_client(replay_of(fp), t);
        } else {
            step_leaves_other_clients(replay_of(p), t, c);
        }
    }
}

} // verus!
