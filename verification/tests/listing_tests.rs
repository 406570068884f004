use banqline::listing::{prepare_transaction_output, selected_transaction, visible_transactions, TxnFilter};
use banqline::models::TransactionRecord;

fn txn(
    account_uid: &str,
    transaction_id: &str,
    booking_date: &str,
    value_date: &str,
    transaction_date: &str,
    direction: &str,
    category: &str,
) -> TransactionRecord {
    TransactionRecord {
        account_uid: account_uid.into(),
        transaction_id: transaction_id.into(),
        booking_date: booking_date.into(),
        value_date: value_date.into(),
        transaction_date: transaction_date.into(),
        credit_debit_indicator: direction.into(),
        category: category.into(),
        ..Default::default()
    }
}

#[test]
fn prepare_transaction_output_sorts_globally_before_limiting() {
    let mut txns = vec![
        txn("acc-a", "old", "2026-05-01", "", "", "DBIT", "food"),
        txn("acc-b", "new", "2026-05-08", "", "", "DBIT", "food"),
    ];

    prepare_transaction_output(&mut txns, None, None, Some(1));

    assert_eq!(txns.len(), 1);
    assert_eq!(txns[0].transaction_id, "new");
}

#[test]
fn prepare_transaction_output_filters_before_limiting() {
    let mut txns = vec![
        txn("acc-a", "new-credit", "2026-05-08", "", "", "CRDT", "salary"),
        txn("acc-a", "old-debit", "2026-05-01", "", "", "DBIT", "food"),
    ];

    prepare_transaction_output(&mut txns, Some("debit"), Some("food"), Some(1));

    assert_eq!(txns.len(), 1);
    assert_eq!(txns[0].transaction_id, "old-debit");
}

#[test]
fn prepare_transaction_output_removes_pending() {
    let mut txns = vec![
        txn("acc-a", "booked", "2026-05-01", "", "", "DBIT", "food"),
        TransactionRecord {
            status: "PDNG".into(),
            account_uid: "acc-a".into(),
            transaction_id: "pending-tx".into(),
            booking_date: "2026-05-02".into(),
            credit_debit_indicator: "DBIT".into(),
            category: "food".into(),
            ..Default::default()
        },
    ];

    prepare_transaction_output(&mut txns, None, None, None);

    assert_eq!(txns.len(), 1);
    assert_eq!(txns[0].transaction_id, "booked");
}

#[test]
fn prepare_transaction_output_none_limit_leaves_all() {
    let mut txns = vec![
        txn("acc-a", "t1", "2026-05-01", "", "", "DBIT", "food"),
        txn("acc-a", "t2", "2026-05-02", "", "", "DBIT", "food"),
    ];

    prepare_transaction_output(&mut txns, None, None, None);

    assert_eq!(txns.len(), 2);
}

#[test]
fn prepare_transaction_output_zero_limit_leaves_all() {
    let mut txns = vec![
        txn("acc-a", "t1", "2026-05-01", "", "", "DBIT", "food"),
        txn("acc-a", "t2", "2026-05-02", "", "", "DBIT", "food"),
    ];

    prepare_transaction_output(&mut txns, None, None, Some(0));

    assert_eq!(txns.len(), 2);
}

#[test]
fn prepare_transaction_output_removes_pending_case_insensitive() {
    let mut txns = vec![
        txn("acc-a", "booked", "2026-05-01", "", "", "DBIT", "food"),
        TransactionRecord {
            status: "pdng".into(),
            account_uid: "acc-a".into(),
            transaction_id: "pending-lower".into(),
            booking_date: "2026-05-02".into(),
            credit_debit_indicator: "DBIT".into(),
            category: "food".into(),
            ..Default::default()
        },
    ];

    prepare_transaction_output(&mut txns, None, None, None);

    assert_eq!(txns.len(), 1);
    assert_eq!(txns[0].transaction_id, "booked");
}

#[test]
fn prepare_transaction_output_uses_value_and_transaction_date_fallbacks() {
    let mut txns = vec![
        txn("acc-a", "transaction-date", "", "", "2026-05-07", "DBIT", "food"),
        txn("acc-a", "value-date", "", "2026-05-08", "", "DBIT", "food"),
    ];

    prepare_transaction_output(&mut txns, None, None, Some(2));

    assert_eq!(txns[0].transaction_id, "value-date");
    assert_eq!(txns[1].transaction_id, "transaction-date");
}

#[test]
fn prepare_transaction_output_negative_limit_leaves_all() {
    let mut txns = vec![
        txn("acc-a", "t1", "2026-05-01", "", "", "DBIT", "food"),
        txn("acc-a", "t2", "2026-05-02", "", "", "DBIT", "food"),
        txn("acc-a", "t3", "2026-05-03", "", "", "DBIT", "food"),
    ];

    prepare_transaction_output(&mut txns, None, None, Some(-1));

    assert_eq!(txns.len(), 3);
    assert_eq!(txns[0].transaction_id, "t3");
    assert_eq!(txns[2].transaction_id, "t1");
}

#[test]
fn prepare_transaction_output_category_is_case_insensitive() {
    let mut txns = vec![
        txn("acc-a", "t1", "2026-05-01", "", "", "DBIT", "Food"),
        txn("acc-a", "t2", "2026-05-02", "", "", "DBIT", "rent"),
    ];

    prepare_transaction_output(&mut txns, Some("DBIT"), Some("FOOD"), None);

    assert_eq!(txns.len(), 1);
    assert_eq!(txns[0].transaction_id, "t1");
}

#[test]
fn prepare_transaction_output_ties_break_on_transaction_id() {
    let mut txns = vec![
        txn("acc-a", "a", "2026-05-01", "", "", "DBIT", "food"),
        txn("acc-a", "b", "2026-05-01", "", "", "DBIT", "food"),
    ];

    prepare_transaction_output(&mut txns, None, None, None);

    assert_eq!(txns[0].transaction_id, "b");
    assert_eq!(txns[1].transaction_id, "a");
}

fn view_txn(transaction_id: &str, booking_date: &str, value_date: &str, status: &str) -> TransactionRecord {
    TransactionRecord {
        transaction_id: transaction_id.into(),
        booking_date: booking_date.into(),
        value_date: value_date.into(),
        status: status.into(),
        credit_debit_indicator: "DBIT".into(),
        category: "food".into(),
        ..Default::default()
    }
}

#[test]
fn visible_transactions_excludes_pending_and_sorts_like_cli() {
    let all = vec![
        view_txn("booked-old", "2026-05-01", "", "BOOK"),
        view_txn("pending-new", "2026-05-09", "", "PDNG"),
        view_txn("value-date", "", "2026-05-08", "BOOK"),
    ];

    let visible = visible_transactions(&all, &TxnFilter::default());

    assert_eq!(visible.len(), 2);
    assert_eq!(visible[0].transaction_id, "value-date");
    assert_eq!(visible[1].transaction_id, "booked-old");
}

#[test]
fn selected_transaction_uses_visible_transaction_order() {
    let all = vec![
        view_txn("raw-first-but-visible-second", "2026-05-01", "", "BOOK"),
        view_txn("raw-second-but-pending", "2026-05-09", "", "PDNG"),
        view_txn("raw-third-but-visible-first", "", "2026-05-08", "BOOK"),
    ];

    let selected = selected_transaction(&all, &TxnFilter::default(), 0).unwrap();

    assert_eq!(selected.transaction_id, "raw-third-but-visible-first");
}

#[test]
fn selected_transaction_past_the_end_is_none() {
    let all = vec![view_txn("only", "2026-05-01", "", "BOOK")];
    assert!(selected_transaction(&all, &TxnFilter::default(), 1).is_none());
}
