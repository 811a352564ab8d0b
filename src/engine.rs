use vstd::prelude::*;

use crate::account::Account;
use crate::ledger::{account_of, accounts_wf, AccountLedger};
use crate::store::{records_wf, TransactionStore};
use crate::transaction::{StoredTransaction, Transaction, TransactionKind};

verus! {

/// Why a record could not be applied. A record that fails changes nothing.
#[derive(Clone, Copy, Debug, PartialEq, Eq, Structural)]
pub enum EngineError {
    /// A deposit or withdrawal without an amount.
    MissingAmount,
    /// A balance would leave the range of `i64`.
    Overflow,
}

/// The state of the engine: the accounts and the stored records.
pub ghost struct EngineState {
    pub accounts: Map<u16, Account>,
    pub records: Map<u32, StoredTransaction>,
}

impl EngineState {
    pub open spec fn wf(self) -> bool {
        &&& accounts_wf(self.accounts)
        &&& records_wf(self.records)
    }

    /// The state with `a` as the account of its client.
    pub open spec fn with_account(self, a: Account) -> EngineState {
        EngineState { accounts: self.accounts.insert(a.client, a), ..self }
    }

    /// The state with `r` stored under its id.
    pub open spec fn with_record(self, r: StoredTransaction) -> EngineState {
        EngineState { records: self.records.insert(r.tx, r), ..self }
    }
}

/// The record kept of a deposit or withdrawal `t` carrying `amount`.
pub open spec fn stored_of(t: Transaction, amount: i64) -> StoredTransaction {
    StoredTransaction { kind: t.kind, client: t.client, tx: t.tx, amount, disputed: false }
}

/// Where an account operation overflowed the state is kept and the step fails.
pub open spec fn settle(s: EngineState, next: Option<Account>) -> Result<EngineState, EngineError> {
    match next {
        Some(a) => Ok(s.with_account(a)),
        None => Err(EngineError::Overflow),
    }
}

/// The state after applying `t` to `s`, or the error it raises.
///
/// Every kind acts on the account of the client that `t` names, created
/// fresh where there is none. A dispute, resolve or chargeback whose `tx`
/// is not stored changes no balance; it does not compare its client with
/// the stored record's, and a dispute does not check whether the record is
/// already under dispute.
pub open spec fn step(s: EngineState, t: Transaction) -> Result<EngineState, EngineError> {
    let a = account_of(s.accounts, t.client);
    match t.kind {
        TransactionKind::Deposit => match t.amount {
            None => Err(EngineError::MissingAmount),
            Some(x) => settle(s.with_record(stored_of(t, x)), a.deposited(x)),
        },
        TransactionKind::Withdrawal => match t.amount {
            None => Err(EngineError::MissingAmount),
            Some(x) => settle(s.with_record(stored_of(t, x)), a.withdrawn(x)),
        },
        TransactionKind::Dispute => if s.records.contains_key(t.tx) {
            let r = s.records[t.tx];
            settle(s.with_record(r.flagged(true)), a.disputed(r.amount))
        } else {
            Ok(s.with_account(a))
        },
        TransactionKind::Resolve => if s.records.contains_key(t.tx) {
            let r = s.records[t.tx];
            let s1 = s.with_record(r.flagged(false));
            if r.disputed {
                settle(s1, a.resolved(r.amount))
            } else {
                Ok(s1.with_account(a))
            }
        } else {
            Ok(s.with_account(a))
        },
        TransactionKind::Chargeback => if s.records.contains_key(t.tx) {
            let r = s.records[t.tx];
            let s1 = s.with_record(r.flagged(false));
            if r.disputed {
                settle(s1, a.charged_back(r.amount))
            } else {
                Ok(s1.with_account(a))
            }
        } else {
            Ok(s.with_account(a))
        },
    }
}

/// The state after applying `ts` in order, and the first error, if any;
/// the state is the one before the record that failed.
pub open spec fn run(s: EngineState, ts: Seq<Transaction>) -> (EngineState, Option<EngineError>)
    decreases ts.len(),
{
    if ts.len() == 0 {
        (s, None)
    } else {
        match step(s, ts[0]) {
            Ok(s1) => run(s1, ts.drop_first()),
            Err(e) => (s, Some(e)),
        }
    }
}

/// Replays transaction records against the accounts of their clients.
pub struct Engine {
    ledger: AccountLedger,
    store: TransactionStore,
}

impl View for Engine {
    type V = EngineState;

    closed spec fn view(&self) -> EngineState {
        EngineState { accounts: self.ledger@, records: self.store@ }
    }
}

impl Engine {
    pub closed spec fn wf(&self) -> bool {
        self@.wf()
    }

    /// No accounts, no records.
    pub fn new() -> (r: Engine)
        ensures
            r.wf(),
            r@.accounts == Map::<u16, Account>::empty(),
            r@.records == Map::<u32, StoredTransaction>::empty(),
    {
        Engine { ledger: AccountLedger::new(), store: TransactionStore::new() }
    }

    /// Applies one record. On an error nothing changes.
    pub fn apply(&mut self, t: &Transaction) -> (r: Result<(), EngineError>)
        requires
            old(self).wf(),
        ensures
            final(self).wf(),
            final(self)@.wf(),
            match step(old(self)@, *t) {
                Ok(s) => r is Ok && final(self)@ == s,
                Err(e) => r == Err::<(), EngineError>(e) && final(self)@ == old(self)@,
            },
    {
        let mut a = self.ledger.current(t.client);
        match t.kind {
            TransactionKind::Deposit | TransactionKind::Withdrawal => {
                let x = match t.amount {
                    Some(x) => x,
                    None => return Err(EngineError::MissingAmount),
                };
                let ok = match t.kind {
                    TransactionKind::Deposit => a.deposit(x),
                    _ => a.withdraw(x),
                };
                if !ok {
                    return Err(EngineError::Overflow);
                }
                self.store.record(
                    StoredTransaction { kind: t.kind, client: t.client, tx: t.tx, amount: x, disputed: false },
                );
                self.ledger.store(a);
            },
            TransactionKind::Dispute | TransactionKind::Resolve | TransactionKind::Chargeback => {
                match self.store.lookup(t.tx) {
                    None => {},
                    Some(rec) => {
                        let ok = match t.kind {
                            TransactionKind::Dispute => a.dispute(rec.amount),
                            TransactionKind::Resolve => !rec.disputed || a.resolve(rec.amount),
                            _ => !rec.disputed || a.chargeback(rec.amount),
                        };
                        if !ok {
                            return Err(EngineError::Overflow);
                        }
                        let disputed = match t.kind {
                            TransactionKind::Dispute => true,
                            _ => false,
                        };
                        self.store.record(StoredTransaction { disputed, ..rec });
                    },
                }
                self.ledger.store(a);
            },
        }
        Ok(())
    }

    /// Applies the records in order, stopping at the first one that fails;
    /// the records before it stay applied, that one and the rest do not.
    pub fn process(&mut self, ts: &Vec<Transaction>) -> (r: Result<(), EngineError>)
        requires
            old(self).wf(),
        ensures
            final(self).wf(),
            final(self)@ == run(old(self)@, ts@).0,
            match run(old(self)@, ts@).1 {
                None => r is Ok,
                Some(e) => r == Err::<(), EngineError>(e),
            },
    {
        let mut i: usize = 0;
        assert(ts@.subrange(0, ts@.len() as int) =~= ts@);
        while i < ts.len()
            invariant
                self.wf(),
                i <= ts@.len(),
                run(self@, ts@.subrange(i as int, ts@.len() as int)) == run(old(self)@, ts@),
            decreases ts@.len() - i,
        {
            let ghost rest = ts@.subrange(i as int, ts@.len() as int);
            assert(rest[0] == ts@[i as int]);
            assert(rest.drop_first() =~= ts@.subrange(i + 1, ts@.len() as int));
            match self.apply(&ts[i]) {
                Ok(()) => {},
                Err(e) => {
                    return Err(e);
                },
            }
            i = i + 1;
        }
        assert(ts@.subrange(i as int, ts@.len() as int).len() == 0);
        Ok(())
    }

    /// Every account, in ascending order of client id.
    pub fn snapshot(&self) -> (r: Vec<Account>)
        requires
            self.wf(),
        ensures
            forall|i: int| 0 <= i < r@.len() ==> #[trigger] self@.accounts.contains_key(r@[i].client)
                && self@.accounts[r@[i].client] == r@[i],
            forall|i: int, j: int| 0 <= i < j < r@.len() ==> r@[i].client < r@[j].client,
            forall|c: u16| #[trigger] self@.accounts.contains_key(c) ==> exists|i: int|
                0 <= i < r@.len() && #[trigger] r@[i].client == c,
    {
        self.ledger.snapshot()
    }
}

} // verus!
