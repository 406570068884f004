use banqline::dec::Dec;
use banqline::models::TransactionRecord;
use banqline::summary::{summarize_checked, Date, DeltaInfo, Period, SummaryOpts};
use banqline::summary_view::{
    compute_date_range, format_delta, inputs_in_range, inputs_of, periods_accepted, summary_footer, summary_headers,
    summary_rows,
};

fn dec(s: &str) -> Dec {
    let negative = s.starts_with('-');
    let t = s.trim_start_matches('-');
    let (int, frac) = t.split_once('.').unwrap_or((t, ""));
    Dec { negative, mantissa: format!("{int}{frac}").parse().unwrap(), scale: frac.len() as u32 }
}


fn tx(date: &str, amount: &str, currency: &str, category: &str, status: &str) -> TransactionRecord {
    TransactionRecord {
        booking_date: date.into(),
        amount: amount.into(),
        currency: currency.into(),
        credit_debit_indicator: "DBIT".into(),
        category: category.into(),
        status: status.into(),
        ..Default::default()
    }
}

#[test]
fn range_filter_keeps_booked_in_range() {
    let txns = vec![
        tx("2026-04-30", "1", "EUR", "", "BOOK"),
        tx("2026-05-01", "2", "EUR", "", "BOOK"),
        tx("2026-05-31", "3", "EUR", "", "PDNG"),
        tx("2026-05-31", "4", "EUR", "", "BOOK"),
        tx("2026-06-01", "5", "EUR", "", "BOOK"),
    ];
    let inputs = inputs_in_range(&txns, "2026-05-01", "2026-05-31");
    let amounts: Vec<&str> = inputs.iter().map(|i| i.amount.as_str()).collect();
    assert_eq!(amounts, vec!["2", "4"]);
    assert_eq!(inputs_of(&txns).len(), 5);
}

#[test]
fn deltas_for_the_table() {
    assert_eq!(format_delta(&None, "EUR"), "");
    let up = DeltaInfo { absolute_diff: dec("12.345"), percentage: "+20%".into() };
    assert_eq!(format_delta(&Some(up), "EUR"), "+EUR12.34 (+20%)");
    let down = DeltaInfo { absolute_diff: dec("-5"), percentage: "-50%".into() };
    assert_eq!(format_delta(&Some(down), "USD"), "USD-5 (-50%)");
}

#[test]
fn table_rows_group_by_currency() {
    let txns = vec![
        tx("2026-05-02", "10.00", "EUR", "food", "BOOK"),
        tx("2026-05-03", "5.00", "USD", "", "BOOK"),
    ];
    let inputs = inputs_of(&txns);
    let result = summarize_checked(&inputs, &SummaryOpts { period: Period::Month, compare: false }).unwrap();
    assert_eq!(summary_headers(false), vec!["Period", "Category", "Amount"]);
    assert_eq!(summary_headers(true).len(), 4);
    assert!(periods_accepted(&result.periods));
    let mut odd = result.periods.clone();
    odd[0].coverage.categorized = 30_000_000;
    assert!(!periods_accepted(&odd));
    let rows = summary_rows(&result.periods, false);
    let expected: Vec<Vec<&str>> = vec![
        vec!["== EUR ==", "", ""],
        vec!["2026-05", "food", "10.00"],
        vec!["2026-05", "TOTAL", "10.00"],
        vec!["", "", ""],
        vec!["== USD ==", "", ""],
        vec!["2026-05", "uncategorized", "5.00"],
        vec!["2026-05", "TOTAL", "5.00"],
    ];
    assert_eq!(rows, expected);
    assert_eq!(
        summary_footer(&result),
        "EUR 2026-05: 100% of transactions categorized (1/1) | USD 2026-05: 0% of transactions categorized (0/1)"
    );
}

#[test]
fn default_ranges() {
    // 2026-05-14 is a Thursday
    let today = Date { year: 2026, month: 5, day: 14 };
    assert_eq!(compute_date_range(Period::Month, None, None, false, today), ("2026-05-01".into(), "2026-05-14".into()));
    assert_eq!(compute_date_range(Period::Month, None, None, true, today).0, "2026-04-01");
    assert_eq!(compute_date_range(Period::Week, None, None, false, today).0, "2026-05-11");
    assert_eq!(compute_date_range(Period::Week, None, None, true, today).0, "2026-05-04");
    assert_eq!(compute_date_range(Period::Day, None, None, true, today).0, "2026-05-13");
    let jan = Date { year: 2026, month: 1, day: 9 };
    assert_eq!(compute_date_range(Period::Month, None, Some("x"), true, jan), ("2025-12-01".into(), "x".into()));
    assert_eq!(compute_date_range(Period::Day, Some("2020-01-01"), None, false, jan).0, "2020-01-01");
}
