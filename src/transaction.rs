use vstd::prelude::*;

verus! {

/// What a transaction record asks for.
#[derive(Clone, Copy, Debug, PartialEq, Eq, Structural)]
pub enum TransactionKind {
    Deposit,
    Withdrawal,
    Dispute,
    Resolve,
    Chargeback,
}

/// One input record. `amount` counts ten-thousandths of a unit; a deposit
/// or a withdrawal needs it, the dispute family ignores it.
#[derive(Clone, Copy, Debug, PartialEq, Eq, Structural)]
pub struct Transaction {
    pub kind: TransactionKind,
    pub client: u16,
    pub tx: u32,
    pub amount: Option<i64>,
}

/// A deposit or withdrawal kept for later disputes, with its dispute flag.
#[derive(Clone, Copy, Debug, PartialEq, Eq, Structural)]
pub struct StoredTransaction {
    pub kind: TransactionKind,
    pub client: u16,
    pub tx: u32,
    pub amount: i64,
    pub disputed: bool,
}

impl StoredTransaction {
    /// The same record with its dispute flag set to `disputed`.
    pub open spec fn flagged(self, disputed: bool) -> StoredTransaction {
        StoredTransaction { disputed, ..self }
    }
}

} // verus!
