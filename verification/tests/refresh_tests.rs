use banqline::models::{AccountRecord, TransactionRecord};
use banqline::refresh::{
    accounts_step_label, alerts_step_label, auto_tag_updates, finish_step, mark_loading, new_transactions_detail,
    start_refresh, stop_refresh_with_error, tagging_step_label, transactions_step_label, RefreshState,
    RefreshStatus, clear_categories, mark_step_error, pending_inputs, to_alert_transactions, count_triggered,
};
use banqline::tagger::CategoryRule;

#[test]
fn refresh_steps_progress() {
    let mut r = RefreshState { open: false, done: true, steps: Vec::new() };
    start_refresh(&mut r);
    assert!(r.open && !r.done);
    let labels: Vec<&str> = r.steps.iter().map(|s| s.label.as_str()).collect();
    assert_eq!(labels, vec!["Accounts", "API Sync", "Balances", "Transactions", "Tagging", "Alerts"]);
    mark_loading(&mut r, 0);
    assert!(matches!(r.steps[0].status, RefreshStatus::Loading));
    finish_step(&mut r, 0, accounts_step_label(3));
    assert_eq!(r.steps[0].label, "Accounts: 3 loaded");
    assert!(matches!(r.steps[0].status, RefreshStatus::Done));
    stop_refresh_with_error(&mut r, 1, "API client: no key");
    assert!(r.done);
    assert!(matches!(&r.steps[1].status, RefreshStatus::Error(m) if m == "API client: no key"));
    assert!(matches!(r.steps[2].status, RefreshStatus::Pending));
}

#[test]
fn step_labels() {
    assert_eq!(tagging_step_label(4), "Tagging: 4 transactions auto-tagged");
    assert_eq!(alerts_step_label(1, 3), "Alerts: 1 triggered across 3 rules");
    assert_eq!(transactions_step_label(12, &Vec::new()), "Transactions: 12 total (no new)");
    assert_eq!(
        transactions_step_label(12, &vec!["  Main: +2 new".to_string(), "  b: +1 new".to_string()]),
        "Transactions: 12 total\n  Main: +2 new\n  b: +1 new"
    );
}

#[test]
fn new_transaction_lines_use_alias_first() {
    let mut a = AccountRecord { name: "Checking".into(), ..Default::default() };
    assert_eq!(new_transactions_detail(&a, 3, 5).as_deref(), Some("  Checking: +2 new"));
    a.alias = "main".into();
    assert_eq!(new_transactions_detail(&a, 3, 5).as_deref(), Some("  main: +2 new"));
    assert_eq!(new_transactions_detail(&a, 5, 5), None);
    assert_eq!(new_transactions_detail(&a, 7, 5), None);
}

fn t(id: &str, remittance: &str, category: &str, source: &str) -> TransactionRecord {
    TransactionRecord {
        transaction_id: id.into(),
        remittance_info: vec![remittance.into()],
        category: category.into(),
        category_source: source.into(),
        ..Default::default()
    }
}

#[test]
fn auto_tagging_spares_manual_and_unchanged() {
    let rules = vec![CategoryRule { category: "coffee".into(), patterns: vec!["starbucks".into()] }];
    let txns = vec![
        t("1", "STARBUCKS PARIS", "uncategorized", ""),
        t("2", "STARBUCKS LYON", "rent", "manual"),
        t("3", "STARBUCKS NICE", "coffee", "auto"),
        t("4", "BAKERY", "coffee", "auto"),
    ];
    let ups = auto_tag_updates("acc", &txns, &rules);
    let got: Vec<(&str, &str)> = ups.iter().map(|u| (u.transaction_id.as_str(), u.category.as_str())).collect();
    assert_eq!(got, vec![("1", "coffee"), ("4", "uncategorized")]);
    assert!(ups.iter().all(|u| u.source == "auto" && u.account_uid == "acc"));
}

#[test]
fn pending_inputs_describe_like_the_account_view() {
    let mut p = t("9", "", "", "");
    p.remittance_info = vec![];
    p.creditor_name = "Shop".into();
    p.amount = "-4.20".into();
    let inputs = pending_inputs(&[p]);
    assert_eq!(inputs[0].description, "Shop");
    assert_eq!(inputs[0].amount, "-4.20");
}

#[test]
fn alert_copies_and_counts() {
    let txns = vec![t("1", "A", "x", "")];
    let a = to_alert_transactions(&txns);
    assert_eq!(a[0].transaction_id, "1");
    assert_eq!(a[0].remittance_info, vec!["A".to_string()]);
    assert_eq!(count_triggered(&[]), 0);
}

#[test]
fn step_error_without_ending_and_cleared_categories() {
    let mut r = RefreshState { open: false, done: true, steps: Vec::new() };
    start_refresh(&mut r);
    mark_step_error(&mut r, 4, "db locked");
    assert!(!r.done);
    assert_eq!(r.steps[4].label, "Tagging");
    assert!(matches!(&r.steps[4].status, RefreshStatus::Error(m) if m == "db locked"));
    assert!(matches!(r.steps[3].status, RefreshStatus::Pending));
    mark_step_error(&mut r, 9, "none");
    assert_eq!(r.steps.len(), 6);

    let mut recs = vec![
        TransactionRecord { transaction_id: "a".into(), category: "food".into(), ..Default::default() },
        TransactionRecord { transaction_id: "b".into(), category: "uncategorized".into(), note: "n".into(), ..Default::default() },
    ];
    clear_categories(&mut recs);
    assert_eq!(recs[0].category, "");
    assert_eq!(recs[0].transaction_id, "a");
    assert_eq!(recs[1].category, "");
    assert_eq!(recs[1].note, "n");
}
