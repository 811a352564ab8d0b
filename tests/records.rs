use payments_engine::{
    parse_amount, parse_kind, Engine, parse_record, parse_unsigned, render_amount, RecordError, Transaction,
    TransactionKind,
};

#[test]
fn kinds_are_read_by_token() {
    assert_eq!(parse_kind(b"deposit"), Some(TransactionKind::Deposit));
    assert_eq!(parse_kind(b"withdrawal"), Some(TransactionKind::Withdrawal));
    assert_eq!(parse_kind(b"dispute"), Some(TransactionKind::Dispute));
    assert_eq!(parse_kind(b"resolve"), Some(TransactionKind::Resolve));
    assert_eq!(parse_kind(b"chargeback"), Some(TransactionKind::Chargeback));
    assert_eq!(parse_kind(b"Deposit"), None);
    assert_eq!(parse_kind(b""), None);
}

#[test]
fn unsigned_fields() {
    assert_eq!(parse_unsigned(b"0", 65535), Some(0));
    assert_eq!(parse_unsigned(b"65535", 65535), Some(65535));
    assert_eq!(parse_unsigned(b"65536", 65535), None);
    assert_eq!(parse_unsigned(b"00042", 65535), Some(42));
    assert_eq!(parse_unsigned(b"", 65535), None);
    assert_eq!(parse_unsigned(b"1x", 65535), None);
    assert_eq!(parse_unsigned(b"99999999999999999999999", 4294967295), None);
}

#[test]
fn amounts_in_ten_thousandths() {
    assert_eq!(parse_amount(b"1.0"), Some(10000));
    assert_eq!(parse_amount(b"1"), Some(10000));
    assert_eq!(parse_amount(b"2.5"), Some(25000));
    assert_eq!(parse_amount(b"0.1234"), Some(1234));
    assert_eq!(parse_amount(b".5"), Some(5000));
    assert_eq!(parse_amount(b"3."), Some(30000));
    assert_eq!(parse_amount(b"-1.25"), Some(-12500));
    assert_eq!(parse_amount(b"922337203685477.5807"), Some(i64::MAX));
}

#[test]
fn malformed_amounts() {
    assert_eq!(parse_amount(b""), None);
    assert_eq!(parse_amount(b"."), None);
    assert_eq!(parse_amount(b"-"), None);
    assert_eq!(parse_amount(b"1.23456"), None);
    assert_eq!(parse_amount(b"1,5"), None);
    assert_eq!(parse_amount(b"1.2.3"), None);
    assert_eq!(parse_amount(b"922337203685477.5808"), None);
}

#[test]
fn amounts_render_as_decimals() {
    assert_eq!(render_amount(10000), b"1.0".to_vec());
    assert_eq!(render_amount(0), b"0.0".to_vec());
    assert_eq!(render_amount(25000), b"2.5".to_vec());
    assert_eq!(render_amount(1234), b"0.1234".to_vec());
    assert_eq!(render_amount(-30500), b"-3.05".to_vec());
    assert_eq!(render_amount(i64::MIN), b"-922337203685477.5808".to_vec());
}

#[test]
fn rendered_amounts_read_back() {
    for v in [0i64, 1, 9999, 10000, 123456789, -42, i64::MAX] {
        assert_eq!(parse_amount(&render_amount(v)), Some(v));
    }
}

#[test]
fn records_from_fields() {
    assert_eq!(
        parse_record(b"deposit", b"1", b"1", b"1.0"),
        Ok(Transaction { kind: TransactionKind::Deposit, client: 1, tx: 1, amount: Some(10000) })
    );
    assert_eq!(
        parse_record(b"dispute", b"2", b"7", b""),
        Ok(Transaction { kind: TransactionKind::Dispute, client: 2, tx: 7, amount: None })
    );
}

#[test]
fn record_errors() {
    assert_eq!(parse_record(b"refund", b"1", b"1", b"1.0"), Err(RecordError::UnknownKind));
    assert_eq!(parse_record(b"deposit", b"70000", b"1", b"1.0"), Err(RecordError::BadClient));
    assert_eq!(parse_record(b"deposit", b"1", b"-1", b"1.0"), Err(RecordError::BadTx));
    assert_eq!(parse_record(b"deposit", b"1", b"1", b"abc"), Err(RecordError::BadAmount));
    assert_eq!(parse_record(b"withdrawal", b"1", b"1", b""), Err(RecordError::MissingAmount));
}

#[test]
fn parsed_records_drive_the_engine() {
    let rows: [[&[u8]; 4]; 3] = [
        [b"deposit", b"1", b"1", b"5.0"],
        [b"dispute", b"1", b"1", b""],
        [b"chargeback", b"1", b"1", b""],
    ];
    let mut e = Engine::new();
    for row in rows.iter() {
        let t = parse_record(row[0], row[1], row[2], row[3]).unwrap();
        assert_eq!(e.apply(&t), Ok(()));
    }
    let accounts = e.snapshot();
    assert_eq!(accounts.len(), 1);
    let a = accounts[0];
    assert_eq!(render_amount(a.available), b"0.0".to_vec());
    assert_eq!(render_amount(a.held), b"0.0".to_vec());
    assert_eq!(render_amount(a.total), b"0.0".to_vec());
    assert!(a.locked);
}
