//! A ledger that replays deposits, withdrawals and the dispute lifecycle
//! (dispute, resolve, chargeback) and yields the final balance of every client.
//!
//! Amounts are fixed-point: an `i64` counts ten-thousandths of a unit.

pub mod account;
pub mod ledger;
pub mod store;
pub mod transaction;
pub mod engine;
pub mod lemmas;
pub mod parse;
pub mod render;

pub use account::Account;
pub use engine::{Engine, EngineError};
pub use parse::{parse_amount, parse_kind, parse_record, parse_unsigned, RecordError};
pub use render::render_amount;
pub use transaction::{StoredTransaction, Transaction, TransactionKind};
