//! Per-client account balances and a ledger of deposits and withdrawals,
//! driven by a verified transaction state machine.
//!
//! Monetary values are fixed-point integers counted in ten-thousandths of a
//! currency unit, so `12.5` is held as `125000`.

pub mod error;
pub mod funds;
pub mod transaction;
pub mod processor;
pub mod laws;

pub use error::BankError;
pub use processor::Bank;
pub use processor::BankView;
pub use funds::AccountRow;
pub use funds::Funds;
pub use transaction::Transaction;
pub use transaction::TransactionType;
pub mod amount;
pub mod report;
