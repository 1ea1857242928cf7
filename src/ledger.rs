use vstd::prelude::*;
use crate::account::{Account, AccountState};
use crate::laws::ledger_step_keeps_invariants;
use crate::transaction::{Balances, Outcome, Transaction};
use std::collections::HashMap;

verus! {

/// Every account is well formed and no two accounts share a client.
pub open spec fn store_wf(s: Seq<AccountState>) -> bool {
    &&& forall|i: int| 0 <= i < s.len() ==> (#[trigger] s[i]).wf()
    &&& forall|i: int, j: int|
        0 <= i < s.len() && 0 <= j < s.len() && i != j
            ==> (#[trigger] s[i]).balances.client != (#[trigger] s[j]).balances.client
}

/// Whether some account of `s` belongs to `client`.
pub open spec fn has_client(s: Seq<AccountState>, client: u16) -> bool {
    exists|i: int| 0 <= i < s.len() && (#[trigger] s[i]).balances.client == client
}

/// The position of `client`'s account in `s`, when there is one.
pub open spec fn position(s: Seq<AccountState>, client: u16) -> int {
    choose|i: int| 0 <= i < s.len() && (#[trigger] s[i]).balances.client == client
}

/// The account of `client` in `s`, when there is one.
pub open spec fn account_of(s: Seq<AccountState>, client: u16) -> Option<AccountState> {
    if has_client(s, client) {
        Some(s[position(s, client)])
    } else {
        None
    }
}

/// One step of the engine: the transaction goes to its client's account,
/// which is created (at the end) on the client's first transaction, whether
/// or not the transaction then applies.
pub open spec fn ledger_step(s: Seq<AccountState>, t: Transaction) -> (Seq<AccountState>, Outcome) {
    if has_client(s, t.client) {
        let i = position(s, t.client);
        let (a, r) = s[i].step(t);
        (s.update(i, a), r)
    } else {
        let (a, r) = AccountState::fresh(t.client).step(t);
        (s.push(a), r)
    }
}

/// The accounts after replaying `txs` in order from an empty ledger.
pub open spec fn replay_of(txs: Seq<Transaction>) -> Seq<AccountState>
    decreases txs.len(),
{
    if txs.len() == 0 {
        Seq::empty()
    } else {
        ledger_step(replay_of(txs.drop_last()), txs.last()).0
    }
}

/// The balances of each account, in the order of the accounts.
pub open spec fn snapshot_of(s: Seq<AccountState>) -> Seq<Balances> {
    s.map_values(|a: AccountState| a.balances)
}

/// The engine's state: one account per client seen so far, in order of first
/// appearance, with an index from client to the account's position.
pub struct Ledger {
    accounts: Vec<Account>,
    index: HashMap<u16, usize>,
}

impl View for Ledger {
    type V = Seq<AccountState>;

    closed spec fn view(&self) -> Seq<AccountState> {
        self.accounts@.map_values(|a: Account| a@)
    }
}

impl Ledger {
    /// The accounts are well formed, one per client, and the index maps each
    /// client exactly to its account's position.
    pub closed spec fn wf(&self) -> bool {
        &&& store_wf(self@)
        &&& forall|c: u16| #[trigger] self.index@.contains_key(c) ==> {
            &&& self.index@[c] < self.accounts@.len()
            &&& self.accounts@[self.index@[c] as int].balances.client == c
        }
        &&& forall|i: int| 0 <= i < self.accounts@.len()
            ==> self.index@.contains_key(#[trigger] self.accounts@[i].balances.client)
    }

    /// An empty ledger.
    pub fn new() -> (r: Ledger)
        ensures
            r@ == Seq::<AccountState>::empty(),
            r.wf(),
    {
        let r = Ledger { accounts: Vec::new(), index: HashMap::new() };
        assert(r@ =~= Seq::<AccountState>::empty());
        r
    }

    /// The position of `client`'s account, if the client has been seen.
    fn find(&self, client: u16) -> (r: Option<usize>)
        requires
            self.wf(),
        ensures
            match r {
                Some(i) => has_client(self@, client) && i == position(self@, client)
                    && i < self.accounts@.len(),
                None => !has_client(self@, client),
            },
    {
        let ghost s = self@;
        match self.index.get(&client) {
            Some(ip) => {
                let i = *ip;
                assert(s[i as int] == self.accounts@[i as int]@);
                assert(has_client(s, client));
                let ghost p = position(s, client);
                assert(s[p].balances.client == client);
                Some(i)
            },
            None => {
                assert forall|j: int| 0 <= j < s.len() implies (#[trigger] s[j]).balances.client != client by {
                    assert(s[j] == self.accounts@[j]@);
                }
                None
            },
        }
    }

    /// Applies one transaction to the account of its client, creating that
    /// account first if the client is new.
    pub fn apply(&mut self, t: Transaction) -> (r: Outcome)
        requires
            old(self).wf(),
        ensures
            (final(self)@, r) == ledger_step(old(self)@, t),
            final(self).wf(),
            store_wf(final(self)@),
    {
        let ghost s = self@;
        let i: usize = match self.find(t.client) {
            Some(i) => i,
            None => {
                let n = self.accounts.len();
                self.accounts.push(Account::new(t.client));
                self.index.insert(t.client, n);
                n
            },
        };
        let ghost mid = self.accounts@;
        let r = self.accounts[i].apply(t);
        proof {
            let ghost (s2, r2) = ledger_step(s, t);
            assert(self@ =~= s2);
            ledger_step_keeps_invariants(s, t);
            assert forall|j: int| 0 <= j < self.accounts@.len() implies
                self.accounts@[j].balances.client == mid[j].balances.client by {
            }
            assert forall|j: int| 0 <= j < self.accounts@.len() implies
                self.index@.contains_key(#[trigger] self.accounts@[j].balances.client) by {
                assert(self.accounts@[j].balances.client == mid[j].balances.client);
                if j < s.len() {
                    assert(mid[j] == old(self).accounts@[j]);
                }
            }
        }
        r
    }

    /// The account of `client`, if the client has been seen.
    pub fn account(&self, client: u16) -> (r: Option<&Account>)
        requires
            self.wf(),
        ensures
            match r {
                Some(a) => account_of(self@, client) == Some(a@),
                None => account_of(self@, client).is_none(),
            },
    {
        match self.find(client) {
            Some(i) => {
                assert(self@[i as int] == self.accounts@[i as int]@);
                Some(&self.accounts[i])
            },
            None => None,
        }
    }

    /// The balances of every account.
    pub fn snapshot(&self) -> (r: Vec<Balances>)
        ensures
            r@ == snapshot_of(self@),
    {
        let mut r: Vec<Balances> = Vec::new();
        let mut i: usize = 0;
        while i < self.accounts.len()
            invariant
                0 <= i <= self.accounts@.len(),
                r@ =~= snapshot_of(self@).subrange(0, i as int),
            decreases self.accounts@.len() - i,
        {
            r.push(self.accounts[i].balances);
            i = i + 1;
        }
        r
    }
}

/// Replays `txs` in order from an empty ledger.
pub fn replay(txs: &Vec<Transaction>) -> (r: Ledger)
    ensures
        r@ == replay_of(txs@),
        r.wf(),
        store_wf(r@),
{
    let mut l = Ledger::new();
    let mut i: usize = 0;
    while i < txs.len()
        invariant
            0 <= i <= txs@.len(),
            l@ == replay_of(txs@.subrange(0, i as int)),
            l.wf(),
        decreases txs@.len() - i,
    {
        let ghost pre = txs@.subrange(0, i as int);
        assert(txs@.subrange(0, i + 1).drop_last() =~= pre);
        l.apply(txs[i]);
        i = i + 1;
    }
    assert(txs@.subrange(0, txs@.len() as int) =~= txs@);
    l
}

} // verus!
