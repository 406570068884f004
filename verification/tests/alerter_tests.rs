use banqline::alerter::{
    check, check_checked, evaluate_category, evaluate_transaction, AlertRule,
    CategoryAlertCriteria, TransactionAlertCriteria, TransactionRecord,
};

fn txn(amount: &str, dir: &str, category: &str, creditor: &str) -> TransactionRecord {
    TransactionRecord {
        account_uid: "acc".into(),
        transaction_id: "t".into(),
        amount: amount.into(),
        currency: "EUR".into(),
        booking_date: "2026-05-01".into(),
        value_date: String::new(),
        transaction_date: "2026-04-30".into(),
        remittance_info: vec!["CB AMAZON MKTP".into()],
        creditor_name: creditor.into(),
        debtor_name: String::new(),
        status: "BOOK".into(),
        credit_debit_indicator: dir.into(),
        note: String::new(),
        category: category.into(),
        category_source: String::new(),
    }
}

fn tx_rule(amount_gte: &str, merchant: &str, direction: &str) -> AlertRule {
    AlertRule {
        name: String::new(),
        rule_type: "transaction".into(),
        transaction: Some(TransactionAlertCriteria {
            amount_gte: amount_gte.into(),
            merchant_contains: merchant.into(),
            direction: direction.into(),
        }),
        category: None,
    }
}

fn cat_rule(category: &str, threshold: &str) -> AlertRule {
    AlertRule {
        name: String::new(),
        rule_type: "category".into(),
        transaction: None,
        category: Some(CategoryAlertCriteria {
            category: category.into(),
            threshold: threshold.into(),
            period: "month".into(),
            bank: String::new(),
        }),
    }
}

#[test]
fn auto_names() {
    assert_eq!(tx_rule("100", "amazon", "").auto_name(), "transaction-100-AMAZON");
    assert_eq!(cat_rule("food", "300").auto_name(), "category-food-300-month");
    let unknown = AlertRule { name: String::new(), rule_type: "x".into(), transaction: None, category: None };
    assert_eq!(unknown.auto_name(), "unknown-x");
    let named = AlertRule { name: "mine".into(), ..tx_rule("", "", "") };
    assert_eq!(named.auto_name(), "mine");
}

#[test]
fn transaction_rule_matches_all_criteria() {
    let txns = vec![
        txn("150.00", "DBIT", "shopping", "Amazon EU"),
        txn("50.00", "DBIT", "shopping", "Amazon EU"),
        txn("500.00", "CRDT", "salary", "Employer"),
    ];
    let r = evaluate_transaction(&tx_rule("100", "amazon", "DBIT"), &txns);
    assert_eq!(r.status, "TRIGGERED");
    assert_eq!(r.details, "1 transaction(s) matched: 150.00 EUR Amazon EU");
    assert_eq!(r.matched_transactions.len(), 1);
    assert_eq!(r.matched_transactions[0].date, "2026-05-01");

    let r = evaluate_transaction(&tx_rule("1000", "", ""), &txns);
    assert_eq!(r.status, "OK");
    assert_eq!(r.details, "no matching transactions");

    let r = evaluate_transaction(&tx_rule("abc", "", ""), &txns);
    assert_eq!(r.details, "invalid threshold: abc");
}

#[test]
fn category_rule_nets_debits_and_credits() {
    let txns = vec![
        txn("120.00", "DBIT", "food", ""),
        txn("50.00", "DBIT", "food", ""),
        txn("20.00", "CRDT", "food", ""),
        txn("999.00", "DBIT", "rent", ""),
    ];
    let r = evaluate_category(&cat_rule("food", "100"), &txns);
    assert_eq!(r.status, "TRIGGERED");
    assert_eq!(r.details, "food: 150.00/100 EUR");
    let r = evaluate_category(&cat_rule("food", "200"), &txns);
    assert_eq!(r.status, "OK");
    let r = evaluate_category(&cat_rule("food", "x"), &txns);
    assert_eq!(r.details, "invalid threshold: x");
}

#[test]
fn check_exit_codes() {
    let txns = vec![txn("120.00", "DBIT", "food", "")];
    let rules = vec![cat_rule("food", "100"), cat_rule("food", "500")];
    let out = check(&rules, &txns, true);
    assert_eq!(out.exit_code, 1);
    assert_eq!(out.results.len(), 2);
    assert_eq!(out.results[1].status, "OK");

    let out = check(&[cat_rule("food", "500")], &txns, true);
    assert_eq!(out.exit_code, 0);

    let out = check(&rules, &txns, false);
    assert_eq!(out.exit_code, 2);
    assert!(out.results.is_empty());

    let odd = AlertRule { name: "z".into(), rule_type: "weird".into(), transaction: None, category: None };
    let out = check(&[odd], &txns, true);
    assert_eq!(out.results[0].details, "unknown rule type: weird");
    assert_eq!(out.exit_code, 0);
}

#[test]
fn check_checked_refuses_oversized_category_amounts() {
    let max = "79228162514264337593543950335";
    let txns = vec![txn(max, "DBIT", "food", ""), txn("1", "DBIT", "food", "")];
    assert!(check_checked(&[cat_rule("food", "1")], &txns, true).is_none());
    assert_eq!(check_checked(&[cat_rule("food", "1")], &txns, false).unwrap().exit_code, 2);
    // a debit and a credit that cancel stay in range
    let even = vec![txn(max, "DBIT", "food", ""), txn(max, "CRDT", "food", "")];
    assert!(check_checked(&[cat_rule("food", "1")], &even, true).is_some());
    // seven decimals are accepted
    let fine = vec![txn("0.1234567", "DBIT", "food", "")];
    let out = check_checked(&[cat_rule("food", "0.1")], &fine, true).unwrap();
    assert_eq!(out.exit_code, 1);
}
