use banqline::models::TransactionRecord;
use banqline::tag_commands::{
    override_target, plan_tagging, preview_accepts, preview_changes, sort_breakdown, CategoryCount,
};
use banqline::tagger::CategoryRule;

fn t(id: &str, uid: &str, text: &str, category: &str, source: &str) -> TransactionRecord {
    TransactionRecord {
        account_uid: uid.into(),
        transaction_id: id.into(),
        booking_date: "2026-05-01".into(),
        remittance_info: vec![text.into()],
        category: category.into(),
        category_source: source.into(),
        ..Default::default()
    }
}

fn rules() -> Vec<CategoryRule> {
    vec![
        CategoryRule { category: "coffee".into(), patterns: vec!["starbucks".into()] },
        CategoryRule { category: "food".into(), patterns: vec!["bakery".into()] },
    ]
}

#[test]
fn tagging_plan_counts() {
    let txns = vec![
        t("1", "a", "Starbucks", "uncategorized", ""),
        t("2", "a", "Bakery", "food", "auto"),
        t("3", "b", "Starbucks 2", "rent", "manual"),
        t("4", "b", "Starbucks 3", "", ""),
        t("5", "b", "Garage", "", ""),
    ];
    let plan = plan_tagging(&txns, &rules());
    assert_eq!(plan.tagged, 4);
    assert_eq!(plan.skipped_manual, 1);
    let ids: Vec<(&str, &str, &str)> = plan
        .updates
        .iter()
        .map(|u| (u.account_uid.as_str(), u.transaction_id.as_str(), u.category.as_str()))
        .collect();
    assert_eq!(ids, vec![("a", "1", "coffee"), ("a", "2", "food"), ("b", "4", "coffee"), ("b", "5", "uncategorized")]);
    let by: Vec<(String, usize)> = plan.by_category.iter().map(|c| (c.category.clone(), c.count)).collect();
    assert_eq!(by, vec![("coffee".into(), 2), ("food".into(), 1), ("uncategorized".into(), 1)]);
    let sorted = sort_breakdown(vec![
        CategoryCount { category: "a".into(), count: 1 },
        CategoryCount { category: "b".into(), count: 3 },
        CategoryCount { category: "c".into(), count: 1 },
        CategoryCount { category: "d".into(), count: 2 },
    ]);
    let names: Vec<&str> = sorted.iter().map(|c| c.category.as_str()).collect();
    assert_eq!(names, vec!["b", "d", "a", "c"]);
}

#[test]
fn preview_lists_changes_with_short_descriptions() {
    let long = "Starbucks coffee shop at the central station platform nine";
    let txns = vec![
        t("1", "a", long, "uncategorized", ""),
        t("2", "a", "Bakery", "food", ""),
        t("3", "a", "Starbucks", "rent", "manual"),
    ];
    assert!(preview_accepts(&txns, &rules()));
    let ch = preview_changes(&txns, &rules());
    assert_eq!(ch.len(), 1);
    assert_eq!(ch[0].transaction_id, "1");
    assert_eq!(ch[0].current_category, "uncategorized");
    assert_eq!(ch[0].new_category, "coffee");
    assert_eq!(ch[0].description, "STARBUCKS COFFEE SHOP AT THE CENTRAL ...");
}

#[test]
fn override_finds_the_account() {
    let txns = vec![t("1", "a", "x", "", ""), t("2", "b", "y", "", "")];
    assert_eq!(override_target(&txns, "2"), Ok("b".to_string()));
    assert_eq!(override_target(&txns, "9"), Err("transaction \"9\" not found".to_string()));
}
