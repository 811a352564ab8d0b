use std::collections::HashMap;
use vstd::prelude::*;

use crate::transaction::StoredTransaction;

verus! {

broadcast use vstd::std_specs::hash::group_hash_axioms;

/// Every deposit and withdrawal seen so far, keyed by transaction id.
pub struct TransactionStore {
    records: HashMap<u32, StoredTransaction>,
}

impl View for TransactionStore {
    type V = Map<u32, StoredTransaction>;

    closed spec fn view(&self) -> Map<u32, StoredTransaction> {
        self.records@
    }
}

/// Each record is stored under its own transaction id.
pub open spec fn records_wf(m: Map<u32, StoredTransaction>) -> bool {
    forall|k: u32| #[trigger] m.contains_key(k) ==> m[k].tx == k
}

impl TransactionStore {
    pub fn new() -> (r: TransactionStore)
        ensures
            r@ == Map::<u32, StoredTransaction>::empty(),
    {
        TransactionStore { records: HashMap::new() }
    }

    /// Inserts `t` under its id; a record already there is replaced.
    pub fn record(&mut self, t: StoredTransaction)
        ensures
            final(self)@ == old(self)@.insert(t.tx, t),
    {
        self.records.insert(t.tx, t);
    }

    /// The record stored under `tx`, if any.
    pub fn lookup(&self, tx: u32) -> (r: Option<StoredTransaction>)
        ensures
            r == (if self@.contains_key(tx) { Some(self@[tx]) } else { None::<StoredTransaction> }),
    {
        match self.records.get(&tx) {
            Some(t) => Some(*t),
            None => None,
        }
    }
}

} // verus!
