use banqline::alert_commands::{
    account_labels, check_footer, check_rows, matched_rows, new_alert_rule, remove_alert_rule, section_title,
    shows_matches, NewAlert,
};
use banqline::alerter::{AlertResult, AlertRule, MatchedTransaction};
use banqline::models::AccountRecord;
use banqline::tagger::CategoryRule;

fn ask(rule_type: &str) -> NewAlert {
    NewAlert {
        rule_type: rule_type.into(),
        name: None,
        amount_gte: None,
        merchant_contains: None,
        direction: None,
        category: None,
        threshold: None,
        period: None,
        bank: None,
    }
}

fn tags() -> Vec<CategoryRule> {
    vec![CategoryRule { category: "food".into(), patterns: vec!["cafe".into()] }]
}

#[test]
fn adding_a_transaction_rule_names_it() {
    let mut a = ask("transaction");
    a.amount_gte = Some("100".into());
    a.merchant_contains = Some("amazon".into());
    let r = new_alert_rule(&a, &tags()).unwrap();
    assert_eq!(r.name, "transaction-100-AMAZON");
    assert_eq!(r.rule_type, "transaction");
    let t = r.transaction.unwrap();
    assert_eq!(t.amount_gte, "100");
    assert_eq!(t.direction, "");
    assert!(r.category.is_none());
    a.name = Some("big".into());
    assert_eq!(new_alert_rule(&a, &tags()).unwrap().name, "big");
}

#[test]
fn adding_rules_refuses_bad_input() {
    let mut c = ask("category");
    c.category = Some("travel".into());
    assert_eq!(
        new_alert_rule(&c, &tags()).unwrap_err(),
        "category 'travel' not found in tag_rules; add it first or check spelling"
    );
    c.category = Some("food".into());
    c.threshold = Some("200".into());
    c.period = Some("month".into());
    let r = new_alert_rule(&c, &tags()).unwrap();
    assert_eq!(r.category.as_ref().unwrap().threshold, "200");
    assert!(!r.name.is_empty());
    assert_eq!(
        new_alert_rule(&ask("weekly"), &tags()).unwrap_err(),
        "unknown rule type: weekly; expected 'transaction' or 'category'"
    );
}

fn rule(name: &str) -> AlertRule {
    AlertRule { name: name.into(), rule_type: "transaction".into(), transaction: None, category: None }
}

#[test]
fn removing_rules_by_name() {
    let mut rules = vec![rule("a"), rule("b"), rule("a")];
    assert!(remove_alert_rule(&mut rules, "a").is_ok());
    assert_eq!(rules.len(), 1);
    assert_eq!(rules[0].name, "b");
    assert_eq!(remove_alert_rule(&mut rules, "zz").unwrap_err(), "alert rule 'zz' not found");
    assert_eq!(rules.len(), 1);
}

fn result(status: &str, matched: Vec<MatchedTransaction>) -> AlertResult {
    AlertResult { rule: rule("big"), status: status.into(), details: "d".into(), matched_transactions: matched }
}

#[test]
fn check_output_rows() {
    let rows = check_rows(&[result("OK", vec![])]);
    assert_eq!(rows, vec![vec!["big".to_string(), "transaction".into(), "OK".into(), "d".into()]]);
    assert_eq!(check_footer(2, 0, 0), "Session expired \u{2014} run bank connect to refresh.");
    assert_eq!(check_footer(1, 1, 3), "1/3 rules triggered");
    let m = MatchedTransaction {
        account_uid: "uid-123456789".into(),
        date: "2026-05-01".into(),
        amount: "12.5".into(),
        currency: "EUR".into(),
        description: "shop".into(),
    };
    let r = result("TRIGGERED", vec![m.clone()]);
    assert!(shows_matches(&r));
    assert!(!shows_matches(&result("TRIGGERED", vec![])));
    assert_eq!(section_title(&r), "-- big --");
    let accounts = vec![AccountRecord {
        uid: "u1".into(),
        alias: "main".into(),
        iban: "FR7612345678901234565133".into(),
        ..Default::default()
    }];
    let labels = account_labels(&accounts);
    assert_eq!(labels[0].display, "main (FR76...65133)");
    let rows = matched_rows(&[m.clone()], &labels);
    assert_eq!(rows[0], vec!["...456789".to_string(), "2026-05-01".into(), "12.50".into(), "EUR".into(), "shop".into()]);
    let mut known = m;
    known.account_uid = "u1".into();
    assert_eq!(matched_rows(&[known], &labels)[0][0], "main (FR76...65133)");
}
