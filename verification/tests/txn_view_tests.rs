use banqline::listing::TxnFilter;
use banqline::models::TransactionRecord;
use banqline::txn_view::{adjust_scroll, filter_line, list_title, transaction_rows, AmountTone, CategoryTone};

#[test]
fn filter_line_variants() {
    let mut f = TxnFilter::default();
    assert_eq!(filter_line(true, "cof", &f), "/cof\u{2588}");
    assert_eq!(filter_line(false, "", &f), "/:search  f:filter  c:category  d:direction  n:note");
    f.active = true;
    f.category = Some("food".into());
    f.direction = Some("DBIT".into());
    assert_eq!(filter_line(false, "", &f), "Filters: cat:food dir:DBIT");
    f.category = None;
    assert_eq!(filter_line(false, "", &f), "Filters: dir:DBIT");
    f.search = "tea".into();
    assert_eq!(filter_line(false, "", &f), "Search: \"tea\"  |  f:filter c:cat d:dir  /:search  n:note");
}

#[test]
fn scroll_follows_cursor() {
    // height 14 shows 10 rows
    assert_eq!(adjust_scroll(3, 0, 20, 14), (3, 0));
    assert_eq!(adjust_scroll(12, 0, 20, 14), (12, 3));
    assert_eq!(adjust_scroll(2, 5, 20, 14), (2, 2));
    assert_eq!(adjust_scroll(30, 0, 20, 14), (19, 10));
    assert_eq!(adjust_scroll(5, 0, 0, 14), (0, 0));
}

fn tx(id: &str, amount: &str, dir: &str, category: &str) -> TransactionRecord {
    TransactionRecord {
        transaction_id: id.into(),
        amount: amount.into(),
        credit_debit_indicator: dir.into(),
        booking_date: "2026-05-01".into(),
        category: category.into(),
        remittance_info: vec!["Coffee".into()],
        ..Default::default()
    }
}

#[test]
fn rows_from_scroll_with_selection() {
    let txns = vec![tx("a", "3.5", "DBIT", "food"), tx("b", "10", "CRDT", "uncategorized"), tx("c", "1", "DBIT", "x")];
    let rows = transaction_rows(&txns, 1, 1, 1, false, 60);
    assert_eq!(rows.len(), 1);
    let r = &rows[0];
    assert!(r.selected);
    assert_eq!(r.date_cell, "\u{25B8}2026-05-01  ");
    assert_eq!(r.amount_cell, "+10       ");
    assert_eq!(r.category_cell, format!("{:<18}", "uncategorized"));
    assert_eq!(r.amount_tone, AmountTone::Credit);
    assert_eq!(r.category_tone, CategoryTone::Uncategorized);
    let fixed = format!("{}{}{}", r.date_cell, r.amount_cell, r.category_cell);
    assert_eq!(r.description_cell, format!("{:<w$}", "Coffee", w = 60 - fixed.len()));
    let all = transaction_rows(&txns, 0, 2, 1, true, 10);
    assert_eq!(all.len(), 3);
    assert_eq!(all[0].amount_cell, "-3.5      ");
    assert!(!all[0].selected && all[2].selected);
    assert_eq!(all[0].description_cell, "Coffee");
    assert!(transaction_rows(&txns, 5, 0, 4, false, 10).is_empty());
}

#[test]
fn notes_are_marked() {
    let mut t = tx("a", "1", "DBIT", "food");
    t.note = "gift".into();
    t.category_source = "manual".into();
    let rows = transaction_rows(&[t], 0, 9, 5, false, 0);
    assert_eq!(rows[0].description_cell, "\u{1F4DD} gift");
    assert_eq!(rows[0].category_tone, CategoryTone::Manual);
    assert_eq!(list_title(7), " Transactions (7) ");
}
