use bank::amount::parse_amount;
use bank::report::{format_amount, format_row};
use bank::transaction::parse_kind;
use bank::{AccountRow, TransactionType};

#[test]
fn parse_amount_reads_fixed_point() {
    assert_eq!(parse_amount(b"42.1234"), Some(421_234));
    assert_eq!(parse_amount(b"50.0"), Some(500_000));
    assert_eq!(parse_amount(b"7"), Some(70_000));
    assert_eq!(parse_amount(b"-3.5"), Some(-35_000));
    assert_eq!(parse_amount(b".5"), Some(5_000));
    assert_eq!(parse_amount(b"2."), Some(20_000));
    assert_eq!(parse_amount(b"0.0001"), Some(1));
    assert_eq!(parse_amount(b"922337203685477.5807"), Some(i64::MAX));
    assert_eq!(parse_amount(b"-922337203685477.5808"), Some(i64::MIN));
}

#[test]
fn parse_amount_refuses_bad_text() {
    assert_eq!(parse_amount(b""), None);
    assert_eq!(parse_amount(b"-"), None);
    assert_eq!(parse_amount(b"."), None);
    assert_eq!(parse_amount(b"1.23456"), None);
    assert_eq!(parse_amount(b"1.2.3"), None);
    assert_eq!(parse_amount(b"12a"), None);
    assert_eq!(parse_amount(b"+1"), None);
    assert_eq!(parse_amount(b"922337203685477.5808"), None);
    assert_eq!(parse_amount(b"99999999999999999999999"), None);
}

#[test]
fn parse_kind_ignores_case() {
    assert_eq!(parse_kind(b"deposit"), Some(TransactionType::Deposit));
    assert_eq!(parse_kind(b"Withdrawal"), Some(TransactionType::Withdrawal));
    assert_eq!(parse_kind(b"DISPUTE"), Some(TransactionType::Dispute));
    assert_eq!(parse_kind(b"resolve"), Some(TransactionType::Resolve));
    assert_eq!(parse_kind(b"ChargeBack"), Some(TransactionType::Chargeback));
    assert_eq!(parse_kind(b"refund"), None);
    assert_eq!(parse_kind(b"deposits"), None);
    assert_eq!(parse_kind(b""), None);
}

#[test]
fn format_amount_has_four_places() {
    assert_eq!(format_amount(421_234), b"42.1234".to_vec());
    assert_eq!(format_amount(500_000), b"50.0000".to_vec());
    assert_eq!(format_amount(0), b"0.0000".to_vec());
    assert_eq!(format_amount(5), b"0.0005".to_vec());
    assert_eq!(format_amount(-35_000), b"-3.5000".to_vec());
    assert_eq!(format_amount(i128::MIN), format!("-{}.{:04}", (i128::MIN / 10_000).unsigned_abs(), (i128::MIN % 10_000).unsigned_abs()).into_bytes());
}

#[test]
fn format_row_matches_report_layout() {
    let row = AccountRow { client: 12, available: 400_000, held: -5, total: 399_995, locked: true };
    assert_eq!(format_row(&row), b"12,40.0000,-0.0005,39.9995,true".to_vec());
    let row = AccountRow { client: 0, available: 0, held: 0, total: 0, locked: false };
    assert_eq!(format_row(&row), b"0,0.0000,0.0000,0.0000,false".to_vec());
}

#[test]
fn written_amounts_read_back() {
    for x in [0i64, 1, -1, 9_999, 10_000, -35_000, 421_234, i64::MAX, i64::MIN] {
        assert_eq!(parse_amount(&format_amount(x as i128)), Some(x));
    }
}
