use vstd::prelude::*;

use crate::account::Account;
use crate::engine::{run, step, EngineState};
use crate::ledger::account_of;
use crate::transaction::{Transaction, TransactionKind};

verus! {

/// The record of kind `kind` from `client` on `tx`, without an amount.
pub open spec fn referring(kind: TransactionKind, client: u16, tx: u32) -> Transaction {
    Transaction { kind, client, tx, amount: None }
}

/// Every step that succeeds keeps each account's total equal to its
/// available plus its held funds, and each account under its own client id.
pub proof fn lemma_step_keeps_balances(s: EngineState, t: Transaction)
    requires
        s.wf(),
    ensures
        step(s, t) matches Ok(s2) ==> s2.wf(),
{
    let a = account_of(s.accounts, t.client);
    assert(a.wf() && a.client == t.client);
    if step(s, t) is Ok {
        let s2 = step(s, t)->Ok_0;
        assert forall|c: u16| #[trigger] s2.accounts.contains_key(c) implies s2.accounts[c].client == c
            && s2.accounts[c].wf() by {
            if c != t.client {
                assert(s.accounts.contains_key(c));
            }
        }
    }
}

/// Replaying any sequence of records keeps every account balanced.
pub proof fn lemma_run_keeps_balances(s: EngineState, ts: Seq<Transaction>)
    requires
        s.wf(),
    ensures
        run(s, ts).0.wf(),
    decreases ts.len(),
{
    if ts.len() > 0 {
        lemma_step_keeps_balances(s, ts[0]);
        if let Ok(s1) = step(s, ts[0]) {
            lemma_run_keeps_balances(s1, ts.drop_first());
        }
    }
}

/// A deposit of `amount` adds exactly `amount` to the available funds and
/// to the total of the client's account, and leaves its held funds alone.
pub proof fn lemma_deposit_adds(s: EngineState, client: u16, tx: u32, amount: i64)
    requires
        s.wf(),
    ensures
        ({
            let before = account_of(s.accounts, client);
            let t = Transaction { kind: TransactionKind::Deposit, client, tx, amount: Some(amount) };
            step(s, t) matches Ok(s2) ==> {
                let after = s2.accounts[client];
                &&& s2.accounts.contains_key(client)
                &&& after.available == before.available + amount
                &&& after.total == before.total + amount
                &&& after.held == before.held
                &&& after.locked == before.locked
            }
        }),
{
}

/// A withdrawal of more than the available funds leaves the account as it was.
pub proof fn lemma_overdraft_is_ignored(s: EngineState, client: u16, tx: u32, amount: i64)
    requires
        s.wf(),
        amount > account_of(s.accounts, client).available,
    ensures
        ({
            let t = Transaction { kind: TransactionKind::Withdrawal, client, tx, amount: Some(amount) };
            step(s, t) matches Ok(s2) && account_of(s2.accounts, client) == account_of(s.accounts, client)
                && (s.accounts.contains_key(client) ==> s2.accounts == s.accounts)
        }),
{
    let t = Transaction { kind: TransactionKind::Withdrawal, client, tx, amount: Some(amount) };
    if s.accounts.contains_key(client) {
        let s2 = step(s, t)->Ok_0;
        assert(s2.accounts =~= s.accounts);
    }
}

/// A dispute of an unknown transaction changes neither the account nor the
/// stored records.
pub proof fn lemma_unknown_dispute_is_ignored(s: EngineState, client: u16, tx: u32)
    requires
        s.wf(),
        !s.records.contains_key(tx),
    ensures
        step(s, referring(TransactionKind::Dispute, client, tx)) matches Ok(s2)
            && account_of(s2.accounts, client) == account_of(s.accounts, client)
            && s2.records == s.records
            && (s.accounts.contains_key(client) ==> s2.accounts == s.accounts),
{
    let s2 = step(s, referring(TransactionKind::Dispute, client, tx))->Ok_0;
    if s.accounts.contains_key(client) {
        assert(s2.accounts =~= s.accounts);
    }
}

/// A dispute followed by a resolve of the same transaction succeeds and
/// gives the account back exactly as it was before the dispute.
pub proof fn lemma_resolve_undoes_dispute(s: EngineState, client: u16, tx: u32)
    requires
        s.wf(),
        step(s, referring(TransactionKind::Dispute, client, tx)) is Ok,
    ensures
        ({
            let s1 = step(s, referring(TransactionKind::Dispute, client, tx))->Ok_0;
            step(s1, referring(TransactionKind::Resolve, client, tx)) matches Ok(s2)
                && s2.accounts[client] == account_of(s.accounts, client)
        }),
{
    let a = account_of(s.accounts, client);
    let s1 = step(s, referring(TransactionKind::Dispute, client, tx))->Ok_0;
    if s.records.contains_key(tx) {
        let r = s.records[tx];
        let a1 = a.disputed(r.amount)->Some_0;
        assert(s1.records[tx] == r.flagged(true));
        assert(s1.accounts[client] == a1);
        assert(account_of(s1.accounts, client) == a1);
        assert(a1.resolved(r.amount) == Some(a));
    }
}

/// A dispute followed by a chargeback of the same transaction, where both
/// succeed, takes the disputed amount out of the held funds again and out of
/// the total, and locks the account.
pub proof fn lemma_chargeback_removes_disputed(s: EngineState, client: u16, tx: u32)
    requires
        s.wf(),
        s.records.contains_key(tx),
        step(s, referring(TransactionKind::Dispute, client, tx)) is Ok,
        step(
            step(s, referring(TransactionKind::Dispute, client, tx))->Ok_0,
            referring(TransactionKind::Chargeback, client, tx),
        ) is Ok,
    ensures
        ({
            let before = account_of(s.accounts, client);
            let amount = s.records[tx].amount;
            let s1 = step(s, referring(TransactionKind::Dispute, client, tx))->Ok_0;
            let s2 = step(s1, referring(TransactionKind::Chargeback, client, tx))->Ok_0;
            &&& s1.accounts[client].held == before.held + amount
            &&& s2.accounts[client].held == s1.accounts[client].held - amount
            &&& s2.accounts[client].held == before.held
            &&& s2.accounts[client].available == before.available - amount
            &&& s2.accounts[client].total == before.total - amount
            &&& s2.accounts[client].locked
        }),
{
    let a = account_of(s.accounts, client);
    let r = s.records[tx];
    let s1 = step(s, referring(TransactionKind::Dispute, client, tx))->Ok_0;
    let a1 = a.disputed(r.amount)->Some_0;
    assert(s1.records[tx] == r.flagged(true));
    assert(account_of(s1.accounts, client) == a1);
}

/// Once an account is locked, every step that succeeds keeps it locked.
pub proof fn lemma_lock_is_permanent(s: EngineState, t: Transaction, client: u16)
    requires
        s.wf(),
        s.accounts.contains_key(client),
        s.accounts[client].locked,
    ensures
        step(s, t) matches Ok(s2) ==> s2.accounts.contains_key(client) && s2.accounts[client].locked,
{
}

/// Once an account is locked it stays locked whatever records follow.
pub proof fn lemma_lock_survives_run(s: EngineState, ts: Seq<Transaction>, client: u16)
    requires
        s.wf(),
        s.accounts.contains_key(client),
        s.accounts[client].locked,
    ensures
        run(s, ts).0.accounts.contains_key(client),
        run(s, ts).0.accounts[client].locked,
    decreases ts.len(),
{
    if ts.len() > 0 {
        lemma_lock_is_permanent(s, ts[0], client);
        lemma_step_keeps_balances(s, ts[0]);
        if let Ok(s1) = step(s, ts[0]) {
            lemma_lock_survives_run(s1, ts.drop_first(), client);
        }
    }
}

/// A resolve or a chargeback of a stored transaction that is not under
/// dispute changes no balance and leaves the record's flag cleared.
pub proof fn lemma_undisputed_settlement_is_ignored(
    s: EngineState,
    kind: TransactionKind,
    client: u16,
    tx: u32,
)
    requires
        s.wf(),
        kind == TransactionKind::Resolve || kind == TransactionKind::Chargeback,
        s.records.contains_key(tx),
        !s.records[tx].disputed,
    ensures
        step(s, referring(kind, client, tx)) matches Ok(s2)
            && account_of(s2.accounts, client) == account_of(s.accounts, client)
            && !s2.records[tx].disputed
            && s2.records == s.records
            && (s.accounts.contains_key(client) ==> s2.accounts == s.accounts),
{
    let s2 = step(s, referring(kind, client, tx))->Ok_0;
    assert(s.records[tx].flagged(false) == s.records[tx]);
    assert(s2.records =~= s.records);
    if s.accounts.contains_key(client) {
        assert(s2.accounts =~= s.accounts);
    }
}

} // verus!
