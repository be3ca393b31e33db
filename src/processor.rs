//! The books and the five transaction handlers that change them.

use std::collections::HashMap;
use vstd::prelude::*;
use vstd::std_specs::iter::IteratorSpec;
use crate::error::BankError;
use crate::funds::{row_of, zero_funds, AccountRow, Funds};
use crate::transaction::{Transaction, TransactionType};

verus! {

broadcast use vstd::std_specs::hash::group_hash_axioms;

/// The books: current balances per client, and every accepted deposit and
/// withdrawal keyed by its transaction id.
pub struct Bank {
    pub accounts: HashMap<u16, Funds>,
    pub ledger: HashMap<u32, Transaction>,
}

/// The books as mathematical maps.
pub struct BankView {
    pub accounts: Map<u16, Funds>,
    pub ledger: Map<u32, Transaction>,
}

impl View for Bank {
    type V = BankView;

    open spec fn view(&self) -> BankView {
        BankView { accounts: self.accounts@, ledger: self.ledger@ }
    }
}

/// A balance that an `i64` can hold.
pub open spec fn fits(x: int) -> bool {
    i64::MIN <= x <= i64::MAX
}

/// The account of `client`, or the zero account that a first reference creates.
pub open spec fn account_of(accounts: Map<u16, Funds>, client: u16) -> Funds {
    if accounts.contains_key(client) {
        accounts[client]
    } else {
        zero_funds()
    }
}

/// The books with the account of `client` set to `f`.
pub open spec fn with_account(s: BankView, client: u16, f: Funds) -> BankView {
    BankView { accounts: s.accounts.insert(client, f), ledger: s.ledger }
}

/// A deposit: creates the account if need be, then credits `available`.
pub open spec fn deposit_result(s: BankView, client: u16, amount: i64) -> (BankView, Result<(), BankError>) {
    let f = account_of(s.accounts, client);
    if f.is_locked {
        (with_account(s, client, f), Err(BankError::AccountFrozen))
    } else if !fits(f.available + amount) {
        (with_account(s, client, f), Err(BankError::LimitExceeded))
    } else {
        let g = Funds { available: (f.available + amount) as i64, held: f.held, is_locked: false };
        (with_account(s, client, g), Ok(()))
    }
}

/// A withdrawal: creates the account if need be, then debits `available`,
/// which must stay strictly above the amount.
pub open spec fn withdrawal_result(s: BankView, client: u16, amount: i64) -> (BankView, Result<(), BankError>) {
    let f = account_of(s.accounts, client);
    if f.is_locked {
        (with_account(s, client, f), Err(BankError::AccountFrozen))
    } else if !(f.available > amount) {
        (with_account(s, client, f), Err(BankError::InsufficientFunds))
    } else if !fits(f.available - amount) {
        (with_account(s, client, f), Err(BankError::LimitExceeded))
    } else {
        let g = Funds { available: (f.available - amount) as i64, held: f.held, is_locked: false };
        (with_account(s, client, g), Ok(()))
    }
}

/// The ledger record that a dispute, resolve or chargeback of `client` on
/// `tx` refers to, or why there is none it may use.
pub open spec fn lookup_record(ledger: Map<u32, Transaction>, client: u16, tx: u32) -> Result<Transaction, BankError> {
    if !ledger.contains_key(tx) {
        Err(BankError::TransactionNotFound)
    } else if ledger[tx].client != client {
        Err(BankError::ForeignClient)
    } else if ledger[tx].amount is None {
        Err(BankError::InvalidTransaction)
    } else {
        Ok(ledger[tx])
    }
}

/// A dispute: holds the record's amount and marks the record disputed.
pub open spec fn dispute_result(s: BankView, client: u16, tx: u32) -> (BankView, Result<(), BankError>) {
    match lookup_record(s.ledger, client, tx) {
        Err(e) => (s, Err(e)),
        Ok(rec) => {
            let f = account_of(s.accounts, client);
            let amount = rec.amount->0;
            if rec.has_been_disputed {
                (s, Err(BankError::AlreadyDisputed))
            } else if f.is_locked {
                (s, Err(BankError::AccountFrozen))
            } else if !fits(f.held + amount) {
                (s, Err(BankError::LimitExceeded))
            } else {
                let g = Funds { available: f.available, held: (f.held + amount) as i64, is_locked: false };
                let r = Transaction { has_been_disputed: true, ..rec };
                (BankView { accounts: s.accounts.insert(client, g), ledger: s.ledger.insert(tx, r) }, Ok(()))
            }
        },
    }
}

/// A resolve: moves the record's amount from `held` to `available` and marks
/// the record resolved.
pub open spec fn resolve_result(s: BankView, client: u16, tx: u32) -> (BankView, Result<(), BankError>) {
    match lookup_record(s.ledger, client, tx) {
        Err(e) => (s, Err(e)),
        Ok(rec) => {
            let f = account_of(s.accounts, client);
            let amount = rec.amount->0;
            if !rec.has_been_disputed {
                (s, Err(BankError::NotDisputed))
            } else if rec.has_been_resolved {
                (s, Err(BankError::AlreadyResolved))
            } else if f.is_locked {
                (s, Err(BankError::AccountFrozen))
            } else if !fits(f.available + amount) || !fits(f.held - amount) {
                (s, Err(BankError::LimitExceeded))
            } else {
                let g = Funds {
                    available: (f.available + amount) as i64,
                    held: (f.held - amount) as i64,
                    is_locked: false,
                };
                let r = Transaction { has_been_resolved: true, ..rec };
                (BankView { accounts: s.accounts.insert(client, g), ledger: s.ledger.insert(tx, r) }, Ok(()))
            }
        },
    }
}

/// A chargeback: takes the record's amount off `held`, locks the account and
/// clears the record's dispute flag again (its resolve flag stays off).
pub open spec fn chargeback_result(s: BankView, client: u16, tx: u32) -> (BankView, Result<(), BankError>) {
    match lookup_record(s.ledger, client, tx) {
        Err(e) => (s, Err(e)),
        Ok(rec) => {
            let f = account_of(s.accounts, client);
            let amount = rec.amount->0;
            if !rec.has_been_disputed {
                (s, Err(BankError::NotDisputed))
            } else if rec.has_been_resolved {
                (s, Err(BankError::AlreadyResolved))
            } else if !fits(f.held - amount) {
                (s, Err(BankError::LimitExceeded))
            } else {
                let g = Funds { available: f.available, held: (f.held - amount) as i64, is_locked: true };
                let r = Transaction { has_been_disputed: false, ..rec };
                (BankView { accounts: s.accounts.insert(client, g), ledger: s.ledger.insert(tx, r) }, Ok(()))
            }
        },
    }
}

/// What processing `t` does to the books, and whether it is accepted.
pub open spec fn process_result(s: BankView, t: Transaction) -> (BankView, Result<(), BankError>) {
    match t.kind {
        TransactionType::Deposit => deposit_result(s, t.client, t.amount->0),
        TransactionType::Withdrawal => withdrawal_result(s, t.client, t.amount->0),
        TransactionType::Dispute => dispute_result(s, t.client, t.tx),
        TransactionType::Resolve => resolve_result(s, t.client, t.tx),
        TransactionType::Chargeback => chargeback_result(s, t.client, t.tx),
    }
}

/// A record that the processor can take: deposits and withdrawals carry an amount.
pub open spec fn well_formed(t: Transaction) -> bool {
    t.kind.spec_moves_money() ==> t.amount is Some
}

/// Taking one record from the input: a malformed one is refused, an accepted
/// deposit or withdrawal is then kept in the ledger.
pub open spec fn ingest_result(s: BankView, t: Transaction) -> (BankView, Result<(), BankError>) {
    if !well_formed(t) {
        (s, Err(BankError::MissingAmount))
    } else {
        let (s2, r) = process_result(s, t);
        if r is Ok && t.kind.spec_moves_money() {
            (BankView { accounts: s2.accounts, ledger: s2.ledger.insert(t.tx, t) }, r)
        } else {
            (s2, r)
        }
    }
}

/// `a + b`, or `None` where the sum leaves the range of `i64`.
fn add_in_range(a: i64, b: i64) -> (r: Option<i64>)
    ensures
        r is Some <==> fits(a + b),
        r matches Some(v) ==> v == a + b,
{
    let sum: i128 = a as i128 + b as i128;
    if sum < i64::MIN as i128 || sum > i64::MAX as i128 {
        None
    } else {
        Some(sum as i64)
    }
}

/// `a - b`, or `None` where the difference leaves the range of `i64`.
fn sub_in_range(a: i64, b: i64) -> (r: Option<i64>)
    ensures
        r is Some <==> fits(a - b),
        r matches Some(v) ==> v == a - b,
{
    let diff: i128 = a as i128 - b as i128;
    if diff < i64::MIN as i128 || diff > i64::MAX as i128 {
        None
    } else {
        Some(diff as i64)
    }
}

/// Finds the ledger record that a dispute-family transaction refers to.
fn check_for_valid_disputed_transaction(
    ledger: &HashMap<u32, Transaction>,
    client: u16,
    tx: u32,
) -> (r: Result<Transaction, BankError>)
    ensures
        r == lookup_record(ledger@, client, tx),
{
    match ledger.get(&tx) {
        Some(rec) => {
            if rec.client != client {
                Err(BankError::ForeignClient)
            } else if rec.amount.is_none() {
                Err(BankError::InvalidTransaction)
            } else {
                Ok(*rec)
            }
        },
        None => Err(BankError::TransactionNotFound),
    }
}

impl Bank {
    /// Empty books.
    pub fn new() -> (r: Bank)
        ensures
            r@.accounts == Map::<u16, Funds>::empty(),
            r@.ledger == Map::<u32, Transaction>::empty(),
    {
        Bank { accounts: HashMap::new(), ledger: HashMap::new() }
    }

    /// The account of `client` as it stands, or a zero account if there is none yet.
    fn funds_of(&self, client: u16) -> (r: Funds)
        ensures
            r == account_of(self@.accounts, client),
    {
        match self.accounts.get(&client) {
            Some(f) => *f,
            None => Funds::new(0, 0),
        }
    }

    fn credit_account(&mut self, client: u16, amount: i64) -> (r: Result<(), BankError>)
        ensures
            (final(self)@, r) == deposit_result(old(self)@, client, amount),
    {
        let f = self.funds_of(client);
        if f.is_locked {
            self.accounts.insert(client, f);
            return Err(BankError::AccountFrozen);
        }
        match add_in_range(f.available, amount) {
            Some(v) => {
                self.accounts.insert(client, Funds { available: v, held: f.held, is_locked: false });
                Ok(())
            },
            None => {
                self.accounts.insert(client, f);
                Err(BankError::LimitExceeded)
            },
        }
    }

    fn debit_account(&mut self, client: u16, amount: i64) -> (r: Result<(), BankError>)
        ensures
            (final(self)@, r) == withdrawal_result(old(self)@, client, amount),
    {
        let f = self.funds_of(client);
        if f.is_locked {
            self.accounts.insert(client, f);
            return Err(BankError::AccountFrozen);
        }
        if !(f.available > amount) {
            self.accounts.insert(client, f);
            return Err(BankError::InsufficientFunds);
        }
        match sub_in_range(f.available, amount) {
            Some(v) => {
                self.accounts.insert(client, Funds { available: v, held: f.held, is_locked: false });
                Ok(())
            },
            None => {
                self.accounts.insert(client, f);
                Err(BankError::LimitExceeded)
            },
        }
    }

    fn dispute_transaction(&mut self, client: u16, tx: u32) -> (r: Result<(), BankError>)
        ensures
            (final(self)@, r) == dispute_result(old(self)@, client, tx),
    {
        let rec = check_for_valid_disputed_transaction(&self.ledger, client, tx)?;
        if rec.has_been_disputed {
            return Err(BankError::AlreadyDisputed);
        }
        let f = self.funds_of(client);
        if f.is_locked {
            return Err(BankError::AccountFrozen);
        }
        let amount = rec.amount.unwrap();
        match add_in_range(f.held, amount) {
            Some(h) => {
                self.accounts.insert(client, Funds { available: f.available, held: h, is_locked: false });
                self.ledger.insert(tx, Transaction { has_been_disputed: true, ..rec });
                Ok(())
            },
            None => Err(BankError::LimitExceeded),
        }
    }

    fn resolve_transaction(&mut self, client: u16, tx: u32) -> (r: Result<(), BankError>)
        ensures
            (final(self)@, r) == resolve_result(old(self)@, client, tx),
    {
        let rec = check_for_valid_disputed_transaction(&self.ledger, client, tx)?;
        if !rec.has_been_disputed {
            return Err(BankError::NotDisputed);
        }
        if rec.has_been_resolved {
            return Err(BankError::AlreadyResolved);
        }
        let f = self.funds_of(client);
        if f.is_locked {
            return Err(BankError::AccountFrozen);
        }
        let amount = rec.amount.unwrap();
        match (add_in_range(f.available, amount), sub_in_range(f.held, amount)) {
            (Some(a), Some(h)) => {
                self.accounts.insert(client, Funds { available: a, held: h, is_locked: false });
                self.ledger.insert(tx, Transaction { has_been_resolved: true, ..rec });
                Ok(())
            },
            _ => Err(BankError::LimitExceeded),
        }
    }

    fn chargeback_transaction(&mut self, client: u16, tx: u32) -> (r: Result<(), BankError>)
        ensures
            (final(self)@, r) == chargeback_result(old(self)@, client, tx),
    {
        let rec = check_for_valid_disputed_transaction(&self.ledger, client, tx)?;
        if !rec.has_been_disputed {
            return Err(BankError::NotDisputed);
        }
        if rec.has_been_resolved {
            return Err(BankError::AlreadyResolved);
        }
        let f = self.funds_of(client);
        let amount = rec.amount.unwrap();
        match sub_in_range(f.held, amount) {
            Some(h) => {
                self.accounts.insert(client, Funds { available: f.available, held: h, is_locked: true });
                self.ledger.insert(tx, Transaction { has_been_disputed: false, ..rec });
                Ok(())
            },
            None => Err(BankError::LimitExceeded),
        }
    }

    /// Validates `transaction` against the books and applies it when it is accepted.
    /// The ledger is left to the caller, see `add_transaction_to_ledger`.
    pub fn process_transaction(&mut self, transaction: &Transaction) -> (r: Result<(), BankError>)
        requires
            well_formed(*transaction),
        ensures
            (final(self)@, r) == process_result(old(self)@, *transaction),
    {
        match transaction.kind {
            TransactionType::Deposit => self.credit_account(transaction.client, transaction.amount.unwrap()),
            TransactionType::Withdrawal => self.debit_account(transaction.client, transaction.amount.unwrap()),
            TransactionType::Dispute => self.dispute_transaction(transaction.client, transaction.tx),
            TransactionType::Resolve => self.resolve_transaction(transaction.client, transaction.tx),
            TransactionType::Chargeback => self.chargeback_transaction(transaction.client, transaction.tx),
        }
    }

    /// Keeps `transaction` in the ledger under its id, replacing any record there.
    pub fn add_transaction_to_ledger(&mut self, transaction: Transaction)
        ensures
            final(self)@.accounts == old(self)@.accounts,
            final(self)@.ledger == old(self)@.ledger.insert(transaction.tx, transaction),
    {
        self.ledger.insert(transaction.tx, transaction);
    }

    /// Takes one record from the input stream: refuses a deposit or withdrawal
    /// without an amount, processes the rest, and keeps each accepted deposit
    /// and withdrawal in the ledger.
    pub fn ingest(&mut self, transaction: Transaction) -> (r: Result<(), BankError>)
        ensures
            (final(self)@, r) == ingest_result(old(self)@, transaction),
    {
        let moves_money = transaction.kind.moves_money();
        if moves_money && transaction.amount.is_none() {
            return Err(BankError::MissingAmount);
        }
        let r = self.process_transaction(&transaction);
        if r.is_ok() && moves_money {
            self.add_transaction_to_ledger(transaction);
        }
        r
    }

    /// One report row per known client, in no particular order.
    pub fn account_rows(&self) -> (rows: Vec<AccountRow>)
        ensures
            rows@.len() == self@.accounts.dom().len(),
            forall|i: int|
                0 <= i < rows@.len() ==> #[trigger] self@.accounts.contains_key(rows@[i].client)
                    && rows@[i] == row_of(rows@[i].client, self@.accounts[rows@[i].client]),
            forall|c: u16|
                #[trigger] self@.accounts.contains_key(c) ==> exists|i: int|
                    0 <= i < rows@.len() && #[trigger] rows@[i].client == c,
            forall|i: int, j: int|
                0 <= i < j < rows@.len() ==> rows@[i].client != rows@[j].client,
    {
        let mut rows: Vec<AccountRow> = Vec::new();
        let entries = self.accounts.iter();
        let ghost seen = entries.remaining();
        for entry in it: entries
            invariant
                it.seq() == seen,
                rows@.len() == it.index(),
                forall|i: int|
                    0 <= i < it.index() ==> #[trigger] rows@[i] == row_of(*seen[i].0, *seen[i].1),
        {
            let (client, funds) = entry;
            rows.push(AccountRow {
                client: *client,
                available: funds.available,
                held: funds.held,
                total: funds.total(),
                locked: funds.is_locked,
            });
        }
        proof {
            assert forall|c: u16| #[trigger] self@.accounts.contains_key(c) implies exists|i: int|
                0 <= i < rows@.len() && #[trigger] rows@[i].client == c by {
                assert(seen.contains((&c, &self@.accounts[c])));
                let i = choose|i: int| 0 <= i < seen.len() && seen[i] == (&c, &self@.accounts[c]);
                assert(rows@[i].client == c);
            }
            assert forall|i: int, j: int| 0 <= i < j < rows@.len() implies rows@[i].client != rows@[j].client by {
                assert(rows@[i] == row_of(*seen[i].0, *seen[i].1));
                assert(rows@[j] == row_of(*seen[j].0, *seen[j].1));
                assert(self@.accounts.contains_key(*seen[i].0));
                assert(self@.accounts.contains_key(*seen[j].0));
                if rows@[i].client == rows@[j].client {
                    assert(seen[i] == seen[j]);
                }
            }
        }
        rows
    }
}

} // verus!
