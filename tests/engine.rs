use payments_engine::{Account, Engine, EngineError, Transaction, TransactionKind};

const UNIT: i64 = 10000;

fn money(kind: TransactionKind, client: u16, tx: u32, amount: i64) -> Transaction {
    Transaction { kind, client, tx, amount: Some(amount) }
}

fn refer(kind: TransactionKind, client: u16, tx: u32) -> Transaction {
    Transaction { kind, client, tx, amount: None }
}

fn run(ts: Vec<Transaction>) -> Vec<Account> {
    let mut e = Engine::new();
    assert_eq!(e.process(&ts), Ok(()));
    e.snapshot()
}

fn only(accounts: &[Account]) -> Account {
    assert_eq!(accounts.len(), 1);
    accounts[0]
}

fn balances(a: Account) -> (i64, i64, i64, bool) {
    (a.available, a.held, a.total, a.locked)
}

#[test]
fn single_deposit() {
    let a = only(&run(vec![money(TransactionKind::Deposit, 1, 1, UNIT)]));
    assert_eq!(a.client, 1);
    assert_eq!(balances(a), (UNIT, 0, UNIT, false));
}

#[test]
fn deposit_then_withdrawal() {
    let a = only(&run(vec![
        money(TransactionKind::Deposit, 1, 1, 5 * UNIT),
        money(TransactionKind::Withdrawal, 1, 2, 3 * UNIT),
    ]));
    assert_eq!(balances(a), (2 * UNIT, 0, 2 * UNIT, false));
}

#[test]
fn withdrawal_on_fresh_account_is_ignored() {
    let a = only(&run(vec![money(TransactionKind::Withdrawal, 1, 1, 10 * UNIT)]));
    assert_eq!(balances(a), (0, 0, 0, false));
}

#[test]
fn dispute_holds_deposit() {
    let a = only(&run(vec![
        money(TransactionKind::Deposit, 1, 1, 5 * UNIT),
        refer(TransactionKind::Dispute, 1, 1),
    ]));
    assert_eq!(balances(a), (0, 5 * UNIT, 5 * UNIT, false));
}

#[test]
fn chargeback_after_dispute_locks() {
    let a = only(&run(vec![
        money(TransactionKind::Deposit, 1, 1, 5 * UNIT),
        refer(TransactionKind::Dispute, 1, 1),
        refer(TransactionKind::Chargeback, 1, 1),
    ]));
    assert_eq!(balances(a), (0, 0, 0, true));
}

#[test]
fn resolve_without_dispute_is_ignored() {
    let a = only(&run(vec![
        money(TransactionKind::Deposit, 1, 1, 5 * UNIT),
        refer(TransactionKind::Resolve, 1, 1),
    ]));
    assert_eq!(balances(a), (5 * UNIT, 0, 5 * UNIT, false));
}

#[test]
fn deposit_adds_to_available_and_total() {
    let before = run(vec![
        money(TransactionKind::Deposit, 1, 1, 7 * UNIT),
        refer(TransactionKind::Dispute, 1, 1),
        money(TransactionKind::Deposit, 1, 2, 2 * UNIT),
    ]);
    let a = only(&before);
    assert_eq!(balances(a), (2 * UNIT, 7 * UNIT, 9 * UNIT, false));
    let after = run(vec![
        money(TransactionKind::Deposit, 1, 1, 7 * UNIT),
        refer(TransactionKind::Dispute, 1, 1),
        money(TransactionKind::Deposit, 1, 2, 2 * UNIT),
        money(TransactionKind::Deposit, 1, 3, 12345),
    ]);
    let b = only(&after);
    assert_eq!(b.available, a.available + 12345);
    assert_eq!(b.total, a.total + 12345);
    assert_eq!(b.held, a.held);
}

#[test]
fn overdraft_leaves_account_unchanged() {
    let a = only(&run(vec![
        money(TransactionKind::Deposit, 1, 1, 3 * UNIT),
        money(TransactionKind::Withdrawal, 1, 2, 3 * UNIT + 1),
    ]));
    assert_eq!(balances(a), (3 * UNIT, 0, 3 * UNIT, false));
}

#[test]
fn dispute_of_unknown_tx_is_ignored() {
    let a = only(&run(vec![
        money(TransactionKind::Deposit, 1, 1, 3 * UNIT),
        refer(TransactionKind::Dispute, 1, 99),
    ]));
    assert_eq!(balances(a), (3 * UNIT, 0, 3 * UNIT, false));
}

#[test]
fn resolve_restores_pre_dispute_balances() {
    let a = only(&run(vec![
        money(TransactionKind::Deposit, 1, 1, 4 * UNIT),
        money(TransactionKind::Withdrawal, 1, 2, UNIT),
        refer(TransactionKind::Dispute, 1, 1),
        refer(TransactionKind::Resolve, 1, 1),
    ]));
    assert_eq!(balances(a), (3 * UNIT, 0, 3 * UNIT, false));
}

#[test]
fn dispute_after_drawdown_goes_negative() {
    let a = only(&run(vec![
        money(TransactionKind::Deposit, 1, 1, 4 * UNIT),
        money(TransactionKind::Withdrawal, 1, 2, 3 * UNIT),
        refer(TransactionKind::Dispute, 1, 1),
    ]));
    assert_eq!(balances(a), (-3 * UNIT, 4 * UNIT, UNIT, false));
}

#[test]
fn lock_survives_later_records() {
    let a = only(&run(vec![
        money(TransactionKind::Deposit, 1, 1, 5 * UNIT),
        refer(TransactionKind::Dispute, 1, 1),
        refer(TransactionKind::Chargeback, 1, 1),
        money(TransactionKind::Deposit, 1, 2, UNIT),
        refer(TransactionKind::Resolve, 1, 1),
    ]));
    assert_eq!(balances(a), (UNIT, 0, UNIT, true));
}

#[test]
fn chargeback_without_dispute_is_ignored() {
    let a = only(&run(vec![
        money(TransactionKind::Deposit, 1, 1, 5 * UNIT),
        refer(TransactionKind::Chargeback, 1, 1),
        refer(TransactionKind::Resolve, 1, 1),
    ]));
    assert_eq!(balances(a), (5 * UNIT, 0, 5 * UNIT, false));
}

#[test]
fn second_resolve_after_resolve_is_ignored() {
    let a = only(&run(vec![
        money(TransactionKind::Deposit, 1, 1, 5 * UNIT),
        refer(TransactionKind::Dispute, 1, 1),
        refer(TransactionKind::Resolve, 1, 1),
        refer(TransactionKind::Resolve, 1, 1),
    ]));
    assert_eq!(balances(a), (5 * UNIT, 0, 5 * UNIT, false));
}

#[test]
fn snapshot_is_in_client_order() {
    let accounts = run(vec![
        money(TransactionKind::Deposit, 9, 1, UNIT),
        money(TransactionKind::Deposit, 2, 2, 2 * UNIT),
        refer(TransactionKind::Dispute, 65535, 7),
        money(TransactionKind::Deposit, 0, 3, 3 * UNIT),
    ]);
    let ids: Vec<u16> = accounts.iter().map(|a| a.client).collect();
    assert_eq!(ids, vec![0, 2, 9, 65535]);
    assert_eq!(balances(accounts[3]), (0, 0, 0, false));
}

#[test]
fn missing_amount_stops_without_change() {
    let mut e = Engine::new();
    let ts = vec![
        money(TransactionKind::Deposit, 1, 1, UNIT),
        refer(TransactionKind::Deposit, 2, 2),
        money(TransactionKind::Deposit, 1, 3, UNIT),
    ];
    assert_eq!(e.process(&ts), Err(EngineError::MissingAmount));
    let a = only(&e.snapshot());
    assert_eq!(balances(a), (UNIT, 0, UNIT, false));
}

#[test]
fn overflow_is_refused_without_change() {
    let mut e = Engine::new();
    assert_eq!(e.apply(&money(TransactionKind::Deposit, 1, 1, i64::MAX)), Ok(()));
    assert_eq!(e.apply(&money(TransactionKind::Deposit, 1, 2, 1)), Err(EngineError::Overflow));
    let a = only(&e.snapshot());
    assert_eq!(balances(a), (i64::MAX, 0, i64::MAX, false));
}

#[test]
fn every_observed_total_is_available_plus_held() {
    let ts = vec![
        money(TransactionKind::Deposit, 1, 1, 5 * UNIT),
        money(TransactionKind::Deposit, 2, 2, 3 * UNIT),
        refer(TransactionKind::Dispute, 1, 1),
        money(TransactionKind::Withdrawal, 2, 3, UNIT),
        refer(TransactionKind::Dispute, 2, 3),
        refer(TransactionKind::Chargeback, 2, 3),
        refer(TransactionKind::Resolve, 1, 1),
    ];
    let mut e = Engine::new();
    for t in &ts {
        assert_eq!(e.apply(t), Ok(()));
        for a in e.snapshot() {
            assert_eq!(a.total, a.available + a.held);
        }
    }
}
