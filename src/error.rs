//! Reasons for which a transaction is refused.

use vstd::prelude::*;

verus! {

/// Why a transaction was rejected. Every rejection aborts only the one
/// transaction it concerns and leaves the books as they were.
#[derive(Clone, Copy, Debug, PartialEq, Eq, Structural)]
pub enum BankError {
    /// The account is locked after a chargeback.
    AccountFrozen,
    /// A balance would leave the range that an `i64` can hold.
    LimitExceeded,
    /// A withdrawal did not stay strictly below the available balance.
    InsufficientFunds,
    /// The referenced record is already under dispute.
    AlreadyDisputed,
    /// The referenced record is not under dispute.
    NotDisputed,
    /// The referenced record's dispute was already resolved.
    AlreadyResolved,
    /// No record with that transaction id is in the ledger.
    TransactionNotFound,
    /// The referenced record belongs to another client.
    ForeignClient,
    /// The referenced record carries no amount.
    InvalidTransaction,
    /// A deposit or withdrawal came without an amount (an input-format fault).
    MissingAmount,
}

pub open spec fn reason_text(e: BankError) -> Seq<char> {
    match e {
        BankError::AccountFrozen => "Account frozen"@,
        BankError::LimitExceeded => "Upper limit reached"@,
        BankError::InsufficientFunds => "Insufficient funds"@,
        BankError::AlreadyDisputed => "Transaction is already disputed"@,
        BankError::NotDisputed => "Transaction is not disputed"@,
        BankError::AlreadyResolved => "Transaction already resolved"@,
        BankError::TransactionNotFound => "Transaction not found"@,
        BankError::ForeignClient => "Dispute transaction of another client"@,
        BankError::InvalidTransaction => "Invalid transaction"@,
        BankError::MissingAmount => "Amount is missing"@,
    }
}

impl BankError {
    /// A short human-readable reason for the rejection.
    pub fn reason(&self) -> (r: &'static str)
        ensures
            r@ == reason_text(*self),
    {
        match self {
            BankError::AccountFrozen => "Account frozen",
            BankError::LimitExceeded => "Upper limit reached",
            BankError::InsufficientFunds => "Insufficient funds",
            BankError::AlreadyDisputed => "Transaction is already disputed",
            BankError::NotDisputed => "Transaction is not disputed",
            BankError::AlreadyResolved => "Transaction already resolved",
            BankError::TransactionNotFound => "Transaction not found",
            BankError::ForeignClient => "Dispute transaction of another client",
            BankError::InvalidTransaction => "Invalid transaction",
            BankError::MissingAmount => "Amount is missing",
        }
    }
}

} // verus!
