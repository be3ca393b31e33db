//! Account balances and the report line that describes them.

use vstd::prelude::*;

verus! {

/// The balances of one client's account.
#[derive(Clone, Copy, Debug, PartialEq, Eq, Structural)]
pub struct Funds {
    /// Usable balance.
    pub available: i64,
    /// Balance held back while a dispute is open.
    pub held: i64,
    /// Set once a chargeback has been accepted.
    pub is_locked: bool,
}

/// The fresh account that a client gets on first reference.
pub open spec fn zero_funds() -> Funds {
    Funds { available: 0, held: 0, is_locked: false }
}

impl Funds {
    pub open spec fn spec_total(self) -> int {
        self.available + self.held
    }

    /// An unlocked account with the given balances.
    pub fn new(available: i64, held: i64) -> (r: Funds)
        ensures
            r == (Funds { available, held, is_locked: false }),
    {
        Funds { available, held, is_locked: false }
    }

    /// `available + held`, in a type wide enough to hold it.
    pub fn total(&self) -> (r: i128)
        ensures
            r == self.spec_total(),
    {
        self.available as i128 + self.held as i128
    }
}

/// One line of the account report.
#[derive(Clone, Copy, Debug, PartialEq, Eq, Structural)]
pub struct AccountRow {
    pub client: u16,
    pub available: i64,
    pub held: i64,
    pub total: i128,
    pub locked: bool,
}

/// The report line that describes `funds` of `client`.
pub open spec fn row_of(client: u16, funds: Funds) -> AccountRow {
    AccountRow {
        client,
        available: funds.available,
        held: funds.held,
        total: funds.spec_total() as i128,
        locked: funds.is_locked,
    }
}

} // verus!
