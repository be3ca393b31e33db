//! Transaction records and the names of their kinds.

use vstd::prelude::*;

verus! {

/// The five kinds of transaction record.
#[derive(Clone, Copy, Debug, PartialEq, Eq, Structural)]
pub enum TransactionType {
    Deposit,
    Withdrawal,
    Dispute,
    Resolve,
    Chargeback,
}

impl TransactionType {
    /// Deposits and withdrawals move money and are kept in the ledger.
    pub open spec fn spec_moves_money(self) -> bool {
        self is Deposit || self is Withdrawal
    }

    pub fn moves_money(&self) -> (r: bool)
        ensures
            r == self.spec_moves_money(),
    {
        match self {
            TransactionType::Deposit | TransactionType::Withdrawal => true,
            _ => false,
        }
    }
}

/// One incoming transaction record; deposits and withdrawals also live on
/// in the ledger, where the two flags track their dispute.
#[derive(Clone, Copy, Debug, PartialEq, Eq, Structural)]
pub struct Transaction {
    pub kind: TransactionType,
    pub client: u16,
    pub tx: u32,
    /// In ten-thousandths; present for deposits and withdrawals only.
    pub amount: Option<i64>,
    pub has_been_disputed: bool,
    pub has_been_resolved: bool,
}

impl Transaction {
    /// A record with both dispute flags cleared.
    pub fn new(kind: TransactionType, client: u16, tx: u32, amount: Option<i64>) -> (r: Transaction)
        ensures
            r == (Transaction {
                kind,
                client,
                tx,
                amount,
                has_been_disputed: false,
                has_been_resolved: false,
            }),
    {
        Transaction {
            kind,
            client,
            tx,
            amount,
            has_been_disputed: false,
            has_been_resolved: false,
        }
    }
}


pub open spec fn lower_byte(c: u8) -> u8 {
    if 65 <= c <= 90 {
        (c + 32) as u8
    } else {
        c
    }
}

/// `s` with its ASCII capitals made small.
pub open spec fn lower(s: Seq<u8>) -> Seq<u8> {
    Seq::new(s.len(), |i: int| lower_byte(s[i]))
}

/// The lower-case name of each kind of transaction.
pub open spec fn kind_name(k: TransactionType) -> Seq<u8> {
    match k {
        TransactionType::Deposit => seq![100u8, 101, 112, 111, 115, 105, 116],
        TransactionType::Withdrawal => seq![119u8, 105, 116, 104, 100, 114, 97, 119, 97, 108],
        TransactionType::Dispute => seq![100u8, 105, 115, 112, 117, 116, 101],
        TransactionType::Resolve => seq![114u8, 101, 115, 111, 108, 118, 101],
        TransactionType::Chargeback => seq![99u8, 104, 97, 114, 103, 101, 98, 97, 99, 107],
    }
}

/// Whether `s`, read without regard to ASCII case, is `word`.
fn equals_ignoring_case(s: &[u8], word: &Vec<u8>) -> (r: bool)
    ensures
        r == (lower(s@) == word@),
{
    if s.len() != word.len() {
        proof {
            assert(lower(s@).len() != word@.len());
        }
        return false;
    }
    let mut i: usize = 0;
    while i < s.len()
        invariant
            s@.len() == word@.len(),
            i <= s@.len(),
            forall|j: int| 0 <= j < i ==> lower_byte(s@[j]) == word@[j],
        decreases s.len() - i,
    {
        let c = s[i];
        let l: u8 = if 65 <= c && c <= 90 { c + 32 } else { c };
        if l != word[i] {
            proof {
                assert(lower(s@)[i as int] != word@[i as int]);
            }
            return false;
        }
        i = i + 1;
    }
    assert(lower(s@) =~= word@);
    true
}

/// The kind that `text` names, in any mix of ASCII case.
pub fn parse_kind(text: &[u8]) -> (r: Option<TransactionType>)
    ensures
        r matches Some(k) ==> lower(text@) == kind_name(k),
        r is None ==> forall|k: TransactionType| lower(text@) != #[trigger] kind_name(k),
{
    let kinds = [
        TransactionType::Deposit,
        TransactionType::Withdrawal,
        TransactionType::Dispute,
        TransactionType::Resolve,
        TransactionType::Chargeback,
    ];
    let names: [Vec<u8>; 5] = [
        vec![100u8, 101, 112, 111, 115, 105, 116],
        vec![119u8, 105, 116, 104, 100, 114, 97, 119, 97, 108],
        vec![100u8, 105, 115, 112, 117, 116, 101],
        vec![114u8, 101, 115, 111, 108, 118, 101],
        vec![99u8, 104, 97, 114, 103, 101, 98, 97, 99, 107],
    ];
    let mut i: usize = 0;
    while i < 5
        invariant
            i <= 5,
            forall|j: int| 0 <= j < 5 ==> #[trigger] names@[j]@ == kind_name(kinds@[j]),
            forall|j: int| 0 <= j < i ==> lower(text@) != kind_name(#[trigger] kinds@[j]),
            kinds@ == seq![
                TransactionType::Deposit,
                TransactionType::Withdrawal,
                TransactionType::Dispute,
                TransactionType::Resolve,
                TransactionType::Chargeback,
            ],
        decreases 5 - i,
    {
        if equals_ignoring_case(text, &names[i]) {
            return Some(kinds[i]);
        }
        i = i + 1;
    }
    proof {
        assert forall|k: TransactionType| lower(text@) != #[trigger] kind_name(k) by {
            match k {
                TransactionType::Deposit => assert(kinds@[0] == k),
                TransactionType::Withdrawal => assert(kinds@[1] == k),
                TransactionType::Dispute => assert(kinds@[2] == k),
                TransactionType::Resolve => assert(kinds@[3] == k),
                TransactionType::Chargeback => assert(kinds@[4] == k),
            }
        }
    }
    None
}

} // verus!
