//! Laws of the transaction state machine, stated over the books as maps.

use vstd::prelude::*;
use crate::processor::{account_of, ingest_result, process_result, BankView};
use crate::amount::{all_digits, amount_of, digit_run, digits_value, is_digit, magnitude_of, pow10};
use crate::error::BankError;
use crate::report::{abs, amount_text, decimal, digit_byte};
use crate::transaction::Transaction;

verus! {

/// A locked account refuses every deposit and withdrawal with
/// `AccountFrozen`, and the books stay exactly as they were, however often
/// it is tried.
pub proof fn lemma_locked_account_refuses_money(s: BankView, t: Transaction)
    requires
        account_of(s.accounts, t.client).is_locked,
        t.kind is Deposit || t.kind is Withdrawal,
    ensures
        process_result(s, t) == (s, Err::<(), BankError>(BankError::AccountFrozen)),
{
    let f = account_of(s.accounts, t.client);
    assert(s.accounts.insert(t.client, f) =~= s.accounts);
}

/// A chargeback locks the account whatever state it was in before.
pub proof fn lemma_chargeback_locks(s: BankView, t: Transaction)
    requires
        t.kind is Chargeback,
        process_result(s, t).1 is Ok,
    ensures
        account_of(process_result(s, t).0.accounts, t.client).is_locked,
{
}

/// Once a chargeback has been accepted, every later deposit or withdrawal of
/// that client is refused with `AccountFrozen` and leaves the books, and so
/// `available` and `held`, exactly as they were.
pub proof fn lemma_chargeback_freezes_account(s: BankView, chargeback: Transaction, t: Transaction)
    requires
        chargeback.kind is Chargeback,
        process_result(s, chargeback).1 is Ok,
        t.client == chargeback.client,
        t.kind is Deposit || t.kind is Withdrawal,
    ensures
        process_result(process_result(s, chargeback).0, t) == (
        process_result(s, chargeback).0,
        Err::<(), BankError>(BankError::AccountFrozen),
        ),
{
    lemma_chargeback_locks(s, chargeback);
    lemma_locked_account_refuses_money(process_result(s, chargeback).0, t);
}

/// A deposit that is disputed and then resolved leaves `held` where it was
/// before the dispute, and `available` higher by the deposit's amount: the
/// dispute holds the amount without taking it out of `available`, and the
/// resolve releases it into `available`.
pub proof fn lemma_deposit_dispute_resolve(
    s: BankView,
    deposit: Transaction,
    dispute: Transaction,
    resolve: Transaction,
)
    requires
        deposit.kind is Deposit,
        dispute.kind is Dispute,
        resolve.kind is Resolve,
        dispute.client == deposit.client && dispute.tx == deposit.tx,
        resolve.client == deposit.client && resolve.tx == deposit.tx,
        ingest_result(s, deposit).1 is Ok,
        ingest_result(ingest_result(s, deposit).0, dispute).1 is Ok,
        ingest_result(ingest_result(ingest_result(s, deposit).0, dispute).0, resolve).1 is Ok,
    ensures
        ({
            let before = account_of(ingest_result(s, deposit).0.accounts, deposit.client);
            let after = account_of(
                ingest_result(ingest_result(ingest_result(s, deposit).0, dispute).0, resolve).0.accounts,
                deposit.client,
            );
            &&& after.held == before.held
            &&& after.available == before.available + deposit.amount->0
            &&& deposit.amount->0 == 0 ==> after.available == before.available
            &&& after.is_locked == before.is_locked
        }),
{
}

/// A chargeback that follows an accepted dispute takes the disputed amount
/// off `held` and off the total, and locks the account.
pub proof fn lemma_dispute_then_chargeback(s: BankView, dispute: Transaction, chargeback: Transaction)
    requires
        dispute.kind is Dispute,
        chargeback.kind is Chargeback,
        chargeback.client == dispute.client && chargeback.tx == dispute.tx,
        process_result(s, dispute).1 is Ok,
        process_result(process_result(s, dispute).0, chargeback).1 is Ok,
    ensures
        ({
            let amount = s.ledger[dispute.tx].amount->0;
            let before = account_of(process_result(s, dispute).0.accounts, dispute.client);
            let after = account_of(
                process_result(process_result(s, dispute).0, chargeback).0.accounts,
                dispute.client,
            );
            &&& after.held == before.held - amount
            &&& after.spec_total() == before.spec_total() - amount
            &&& after.available == before.available
            &&& after.is_locked
        }),
{
}

/// A withdrawal of exactly the available balance from an open account is
/// refused with `InsufficientFunds`, and the balances stay as they were.
pub proof fn lemma_exact_withdrawal_refused(s: BankView, t: Transaction)
    requires
        t.kind is Withdrawal,
        t.amount == Some(account_of(s.accounts, t.client).available),
        !account_of(s.accounts, t.client).is_locked,
    ensures
        process_result(s, t).1 == Err::<(), BankError>(BankError::InsufficientFunds),
        account_of(process_result(s, t).0.accounts, t.client) == account_of(s.accounts, t.client),
{
}

/// A dispute of a transaction id that the ledger does not hold fails with
/// `TransactionNotFound`; one of a record that belongs to another client
/// fails with `ForeignClient`. Either way the books are left untouched.
pub proof fn lemma_dispute_lookup_errors(s: BankView, t: Transaction)
    requires
        t.kind is Dispute,
    ensures
        !s.ledger.contains_key(t.tx) ==> process_result(s, t) == (s, Err::<(), BankError>(
            BankError::TransactionNotFound,
        )),
        s.ledger.contains_key(t.tx) && s.ledger[t.tx].client != t.client ==> process_result(s, t) == (
        s,
        Err::<(), BankError>(BankError::ForeignClient),
        ),
{
}

/// A record whose dispute was resolved cannot be disputed again
/// (`AlreadyDisputed`), and one that was charged back cannot either, since
/// the chargeback locked its account (`AccountFrozen`).
pub proof fn lemma_no_dispute_after_settlement(s: BankView, settle: Transaction, dispute: Transaction)
    requires
        settle.kind is Resolve || settle.kind is Chargeback,
        process_result(s, settle).1 is Ok,
        dispute.kind is Dispute,
        dispute.client == settle.client && dispute.tx == settle.tx,
    ensures
        process_result(process_result(s, settle).0, dispute) == (process_result(s, settle).0, Err::<(), BankError>(
            if settle.kind is Resolve {
                BankError::AlreadyDisputed
            } else {
                BankError::AccountFrozen
            },
        )),
{
}

proof fn lemma_digit_byte(d: nat)
    ensures
        is_digit(digit_byte(d)),
        (digit_byte(d) - 48) as nat == d % 10,
{
}

proof fn lemma_decimal_digits(n: nat)
    ensures
        all_digits(decimal(n)),
        digits_value(decimal(n)) == n,
        decimal(n).len() > 0,
    decreases n,
{
    lemma_digit_byte(n % 10);
    lemma_digit_byte(n);
    if n >= 10 {
        lemma_decimal_digits(n / 10);
        let d = decimal(n);
        assert(d.drop_last() =~= decimal(n / 10));
        assert(digits_value(d) == digits_value(decimal(n / 10)) * 10 + (d.last() - 48) as nat);
        assert(n / 10 * 10 + n % 10 == n);
        assert forall|i: int| 0 <= i < d.len() implies is_digit(#[trigger] d[i]) by {
            if i < d.len() - 1 {
                assert(d[i] == decimal(n / 10)[i]);
            }
        }
    } else {
        assert(decimal(n).drop_last() =~= Seq::<u8>::empty());
        assert(digits_value(Seq::<u8>::empty()) == 0);
        assert(n % 10 == n);
    }
}

proof fn lemma_digit_run_concat(a: Seq<u8>, b: Seq<u8>)
    requires
        all_digits(a),
    ensures
        digit_run(a + b) == a.len() + digit_run(b),
    decreases a.len(),
{
    if a.len() > 0 {
        assert((a + b).drop_first() =~= a.drop_first() + b);
        assert(is_digit(a[0]));
        lemma_digit_run_concat(a.drop_first(), b);
    } else {
        assert(a + b =~= b);
    }
}

proof fn lemma_four_places(f: nat)
    requires
        f < 10000,
    ensures
        digits_value(seq![digit_byte(f / 1000), digit_byte(f / 100), digit_byte(f / 10), digit_byte(f)]) == f,
        all_digits(seq![digit_byte(f / 1000), digit_byte(f / 100), digit_byte(f / 10), digit_byte(f)]),
{
    let q = seq![digit_byte(f / 1000), digit_byte(f / 100), digit_byte(f / 10), digit_byte(f)];
    lemma_digit_byte(f / 1000);
    lemma_digit_byte(f / 100);
    lemma_digit_byte(f / 10);
    lemma_digit_byte(f);
    let q1 = seq![digit_byte(f / 1000)];
    let q2 = seq![digit_byte(f / 1000), digit_byte(f / 100)];
    let q3 = seq![digit_byte(f / 1000), digit_byte(f / 100), digit_byte(f / 10)];
    assert(q1.drop_last() =~= Seq::<u8>::empty());
    assert(q2.drop_last() =~= q1);
    assert(q3.drop_last() =~= q2);
    assert(q.drop_last() =~= q3);
    assert(digits_value(Seq::<u8>::empty()) == 0);
    assert(digits_value(q1) == (f / 1000) % 10);
    assert(digits_value(q2) == (f / 1000) % 10 * 10 + (f / 100) % 10);
    assert(digits_value(q3) == ((f / 1000) % 10 * 10 + (f / 100) % 10) * 10 + (f / 10) % 10);
    assert(digits_value(q) == digits_value(q3) * 10 + f % 10);
    assert(q.drop_last() =~= seq![digit_byte(f / 1000), digit_byte(f / 100), digit_byte(f / 10)]);
    assert(q.drop_last().drop_last() =~= seq![digit_byte(f / 1000), digit_byte(f / 100)]);
    assert(q.drop_last().drop_last().drop_last() =~= seq![digit_byte(f / 1000)]);
    assert(q.drop_last().drop_last().drop_last().drop_last() =~= Seq::<u8>::empty());
    assert(((f / 1000) % 10 * 10 + (f / 100) % 10) * 10 + (f / 10) % 10 == f / 10) by (nonlinear_arith)
        requires
            f < 10000,
    ;
    assert((f / 10) * 10 + f % 10 == f) by (nonlinear_arith);
}

proof fn lemma_unsigned_text(m: nat)
    ensures
        magnitude_of(decimal(m / 10000) + seq![
            46u8,
            digit_byte((m % 10000) / 1000),
            digit_byte((m % 10000) / 100),
            digit_byte((m % 10000) / 10),
            digit_byte(m % 10000),
        ]) == Some(m),
{
    let f = m % 10000;
    let w = decimal(m / 10000);
    let q = seq![digit_byte(f / 1000), digit_byte(f / 100), digit_byte(f / 10), digit_byte(f)];
    let tail = seq![46u8, digit_byte(f / 1000), digit_byte(f / 100), digit_byte(f / 10), digit_byte(f)];
    let t = w + tail;
    lemma_decimal_digits(m / 10000);
    lemma_four_places(f);
    lemma_digit_run_concat(w, tail);
    assert(digit_run(tail) == 0);
    let p = w.len() as int;
    assert(t.subrange(0, p) =~= w);
    assert(t.subrange(p + 1, t.len() as int) =~= q);
    assert(t[p] == 46u8);
    assert(digit_run(t) == p);
    assert(pow10(0) == 1);
    assert(q.len() == 4);
    assert(digits_value(w) == m / 10000);
    assert(m / 10000 * 10000 + f == m);
    let frac = t.subrange(p + 1, t.len() as int);
    assert(frac == q);
    assert(all_digits(frac));
    assert(digits_value(frac) == f);
    assert((4 - frac.len()) as nat == 0);
    let unit = pow10((4 - frac.len()) as nat);
    assert(unit == 1);
    assert(digits_value(frac) * unit == f) by (nonlinear_arith)
        requires
            unit == 1,
            digits_value(frac) == f,
    ;
    assert(digits_value(t.subrange(0, p)) == m / 10000);
    assert(digits_value(t.subrange(0, p)) * 10000 + digits_value(frac) * pow10((4 - frac.len()) as nat) == m);
}

/// Reading back an amount written with four fractional digits gives the
/// amount itself, for every value that an `i64` holds.
pub proof fn lemma_amount_text_round_trip(x: i64)
    ensures
        amount_of(amount_text(x as int)) == Some(x as int),
{
    let m = abs(x as int);
    lemma_unsigned_text(m);
    let unsigned = decimal(m / 10000) + seq![
        46u8,
        digit_byte((m % 10000) / 1000),
        digit_byte((m % 10000) / 100),
        digit_byte((m % 10000) / 10),
        digit_byte(m % 10000),
    ];
    if x < 0 {
        assert(amount_text(x as int) =~= seq![45u8] + unsigned);
        assert((seq![45u8] + unsigned).drop_first() =~= unsigned);
    } else {
        assert(amount_text(x as int) =~= unsigned);
        lemma_decimal_digits(m / 10000);
        assert(is_digit(unsigned[0]));
    }
}

} // verus!
