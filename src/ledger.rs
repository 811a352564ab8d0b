use std::collections::HashMap;
use vstd::prelude::*;

use crate::account::Account;

verus! {

broadcast use vstd::std_specs::hash::group_hash_axioms;

/// The account of every client seen so far, keyed by client id.
pub struct AccountLedger {
    accounts: HashMap<u16, Account>,
}

impl View for AccountLedger {
    type V = Map<u16, Account>;

    closed spec fn view(&self) -> Map<u16, Account> {
        self.accounts@
    }
}

/// Each account is stored under its own client id and keeps its total
/// equal to its available plus its held funds.
pub open spec fn accounts_wf(m: Map<u16, Account>) -> bool {
    forall|c: u16| #[trigger] m.contains_key(c) ==> m[c].client == c && m[c].wf()
}

/// The account of `client` in `m`, or a fresh one where there is none.
pub open spec fn account_of(m: Map<u16, Account>, client: u16) -> Account {
    if m.contains_key(client) {
        m[client]
    } else {
        Account::fresh(client)
    }
}

impl AccountLedger {
    pub open spec fn wf(&self) -> bool {
        accounts_wf(self@)
    }

    pub fn new() -> (r: AccountLedger)
        ensures
            r@ == Map::<u16, Account>::empty(),
            r.wf(),
    {
        AccountLedger { accounts: HashMap::new() }
    }

    /// The account of `client`, or a fresh one (not stored) where there is none.
    pub fn current(&self, client: u16) -> (r: Account)
        requires
            self.wf(),
        ensures
            r == account_of(self@, client),
            r.wf(),
            r.client == client,
    {
        match self.accounts.get(&client) {
            Some(a) => *a,
            None => Account::new(client),
        }
    }

    /// Stores `a` under its client id, replacing what was there.
    pub fn store(&mut self, a: Account)
        requires
            old(self).wf(),
            a.wf(),
        ensures
            final(self)@ == old(self)@.insert(a.client, a),
            final(self).wf(),
    {
        self.accounts.insert(a.client, a);
    }

    /// Every account, in ascending order of client id.
    pub fn snapshot(&self) -> (r: Vec<Account>)
        requires
            self.wf(),
        ensures
            forall|i: int| 0 <= i < r@.len() ==> #[trigger] self@.contains_key(r@[i].client)
                && self@[r@[i].client] == r@[i],
            forall|i: int, j: int| 0 <= i < j < r@.len() ==> r@[i].client < r@[j].client,
            forall|c: u16| #[trigger] self@.contains_key(c) ==> exists|i: int|
                0 <= i < r@.len() && #[trigger] r@[i].client == c,
    {
        let mut r: Vec<Account> = Vec::new();
        let mut c: u32 = 0;
        while c <= 0xffff
            invariant
                self.wf(),
                c <= 0x10000,
                forall|i: int| #![trigger r@[i]] 0 <= i < r@.len() ==> self@.contains_key(r@[i].client)
                    && self@[r@[i].client] == r@[i] && r@[i].client < c,
                forall|i: int, j: int| #![trigger r@[i], r@[j]] 0 <= i < j < r@.len() ==> r@[i].client < r@[j].client,
                forall|k: u16| #[trigger] self@.contains_key(k) && k < c ==> exists|i: int|
                    0 <= i < r@.len() && #[trigger] r@[i].client == k,
            decreases 0x10000 - c,
        {
            let k = c as u16;
            match self.accounts.get(&k) {
                Some(a) => {
                    assert(self@.contains_key(k) && a.client == k);
                    let ghost before = r@;
                    r.push(*a);
                    proof {
                        assert forall|i: int| 0 <= i < before.len() implies r@[i] == before[i] by {}
                        assert(r@[before.len() as int] == *a);
                        assert forall|q: u16| #[trigger] self@.contains_key(q) && q < c + 1 implies exists|i: int|
                            0 <= i < r@.len() && #[trigger] r@[i].client == q by {
                            if q < c {
                                let i = choose|i: int| 0 <= i < before.len() && #[trigger] before[i].client == q;
                                assert(r@[i] == before[i]);
                            } else {
                                assert(r@[before.len() as int].client == q);
                            }
                        }
                    }
                },
                None => {},
            }
            c = c + 1;
        }
        r
    }
}

} // verus!
