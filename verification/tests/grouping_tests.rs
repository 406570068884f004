use banqline::grouping::{group_by_description, NormalizedTransaction};
use banqline::prompt::{NoopPrompter, Prompter, CHOICE_NEW_CATEGORY, CHOICE_SKIP};

fn nt(desc: &str, amount: &str) -> NormalizedTransaction {
    NormalizedTransaction {
        description: desc.into(),
        amount: amount.into(),
        currency: "EUR".into(),
        booking_date: "2026-05-01".into(),
        credit_debit_indicator: "DBIT".into(),
        creditor_name: "".into(),
        debtor_name: "".into(),
    }
}

#[test]
fn groups_by_trimmed_upper_key_largest_first() {
    let txns = vec![
        nt("cb carrefour", "1"),
        nt("  ", "2"),
        nt("CB CARREFOUR ", "3"),
        nt("prlv edf", "4"),
        nt("cb Carrefour", "5"),
        nt("prlv edf", "6"),
        nt("cb carrefour", "7"),
    ];
    let groups = group_by_description(&txns);
    assert_eq!(groups.len(), 3);
    assert_eq!(groups[0].key, "CB CARREFOUR");
    assert_eq!(groups[0].count, 4);
    assert_eq!(groups[0].members, vec![0, 2, 4, 6]);
    assert_eq!(groups[0].samples.len(), 3);
    assert_eq!(groups[0].samples[1].amount, "3");
    assert_eq!(groups[0].suggested_pattern, "carrefour");
    assert_eq!(groups[1].key, "PRLV EDF");
    assert_eq!(groups[1].count, 2);
    assert_eq!(groups[1].suggested_pattern, "edf");
    assert_eq!(groups[2].key, "UNKNOWN");
    assert_eq!(groups[2].count, 1);
    assert_eq!(groups[2].members, vec![1]);
}

#[test]
fn equal_groups_keep_first_appearance_order() {
    let txns = vec![nt("b", "1"), nt("a", "1"), nt("b", "1"), nt("a", "1")];
    let groups = group_by_description(&txns);
    let keys: Vec<&str> = groups.iter().map(|g| g.key.as_str()).collect();
    assert_eq!(keys, vec!["B", "A"]);
    assert!(group_by_description(&[]).is_empty());
}

#[test]
fn noop_prompter_refuses() {
    let mut p = NoopPrompter;
    let msg = "interactive prompts are not available in non-TUI mode".to_string();
    assert_eq!(p.select_category(&["food".to_string()]), Err(msg.clone()));
    assert_eq!(p.input_category(), Err(msg.clone()));
    assert_eq!(p.input_pattern("carrefour"), Err(msg));
    assert_eq!(CHOICE_NEW_CATEGORY, "__new__");
    assert_eq!(CHOICE_SKIP, "__skip__");
}
