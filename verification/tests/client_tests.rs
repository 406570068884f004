use banqline::client::{next_page, transaction_query_params, PageStep, TransactionOpts};

#[test]
fn query_params_in_request_order() {
    let opts = TransactionOpts {
        date_from: Some("2026-01-01".into()),
        date_to: None,
        status: Some("BOOK".into()),
        continuation_key: Some("k".into()),
    };
    assert_eq!(
        transaction_query_params(&opts),
        vec![
            ("date_from".to_string(), "2026-01-01".to_string()),
            ("transaction_status".to_string(), "BOOK".to_string()),
            ("continuation_key".to_string(), "k".to_string()),
        ]
    );
    assert!(transaction_query_params(&TransactionOpts::default()).is_empty());
}

#[test]
fn paging_stops_on_empty_key_and_rejects_repeats() {
    let mut seen = Vec::new();
    assert_eq!(next_page(&mut seen, Some("next+page".into())), PageStep::Next("next+page".into()));
    assert_eq!(next_page(&mut seen, Some("".into())), PageStep::Done);
    assert_eq!(next_page(&mut seen, None), PageStep::Done);
    assert_eq!(next_page(&mut seen, Some("next+page".into())), PageStep::RepeatedKey);
    assert_eq!(seen, vec!["next+page".to_string()]);
}
