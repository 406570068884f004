use banqline::dec::Dec;
use banqline::summary::{
    bucket_key, compute_delta, parse_period, prior_period_key, summarize, summarize_checked,
    CoverageInfo, Period, SummaryInput, SummaryOpts,
};

fn input(date: &str, amount: &str, dir: &str, category: &str) -> SummaryInput {
    SummaryInput {
        booking_date: date.into(),
        amount: amount.into(),
        currency: "EUR".into(),
        credit_debit_indicator: dir.into(),
        category: category.into(),
    }
}

fn dec(negative: bool, mantissa: u128, scale: u32) -> Dec {
    Dec { negative, mantissa, scale }
}

#[test]
fn parse_period_accepts_three_names() {
    assert_eq!(parse_period("day"), Ok(Period::Day));
    assert_eq!(parse_period("week"), Ok(Period::Week));
    assert_eq!(parse_period("month"), Ok(Period::Month));
    assert_eq!(
        parse_period("year"),
        Err("unknown period \"year\": must be day, week, or month".to_string())
    );
    assert_eq!(Period::Week.to_text(), "week");
}

#[test]
fn coverage_percentage_and_display() {
    let c = CoverageInfo { categorized: 1, total: 3 };
    assert_eq!(c.percentage(), 33);
    assert_eq!(c.display(), "33% of transactions categorized (1/3)");
    let z = CoverageInfo { categorized: 0, total: 0 };
    assert_eq!(z.percentage(), 0);
    assert_eq!(z.display(), "0% of transactions categorized (0/0)");
}

#[test]
fn bucket_keys_per_period() {
    assert_eq!(bucket_key("2026-05-01", Period::Day), Ok("2026-05-01".to_string()));
    assert_eq!(bucket_key("2026-05-01", Period::Month), Ok("2026-05".to_string()));
    assert_eq!(bucket_key("2026-05-01", Period::Week), Ok("2026-W18".to_string()));
    assert_eq!(bucket_key("2027-01-01", Period::Week), Ok("2026-W53".to_string()));
    assert_eq!(bucket_key("", Period::Day), Err("empty date".to_string()));
    assert!(bucket_key("bad", Period::Day).unwrap_err().starts_with("parse date \"bad\": "));
}

#[test]
fn prior_period_keys() {
    assert_eq!(prior_period_key("2026-03-01", Period::Day), Ok("2026-02-28".to_string()));
    assert_eq!(prior_period_key("2026-01", Period::Month), Ok("2025-12".to_string()));
    assert_eq!(prior_period_key("2026-W01", Period::Week), Ok("2025-W52".to_string()));
    assert_eq!(prior_period_key("2026-W18", Period::Week), Ok("2026-W17".to_string()));
    assert_eq!(
        prior_period_key("2026", Period::Week),
        Err("invalid week key format: \"2026\"".to_string())
    );
    assert_eq!(
        prior_period_key("20x6-W01", Period::Week),
        Err("invalid year in week key: \"20x6-W01\"".to_string())
    );
    assert_eq!(
        prior_period_key("2026-Wx", Period::Week),
        Err("invalid week in week key: \"2026-Wx\"".to_string())
    );
}

#[test]
fn compute_delta_texts() {
    let d = compute_delta(dec(false, 300, 2), dec(false, 1500, 2));
    assert_eq!(d.absolute_diff, dec(true, 1200, 2));
    assert_eq!(d.percentage, "-80%");
    let d = compute_delta(dec(false, 150, 1), dec(false, 10, 0));
    assert_eq!(d.percentage, "+50%");
    let d = compute_delta(dec(false, 0, 0), dec(false, 0, 0));
    assert_eq!(d.percentage, "");
    let d = compute_delta(dec(false, 5, 0), dec(false, 0, 2));
    assert_eq!(d.percentage, "new");
    let d = compute_delta(dec(false, 10, 0), dec(false, 10, 0));
    assert_eq!(d.percentage, "0%");
}

#[test]
fn summarize_groups_by_month_and_ranks_categories() {
    let inputs = vec![
        input("2026-05-01", "10.00", "DBIT", "food"),
        input("2026-05-02", "5.00", "DBIT", ""),
        input("2026-05-03", "12.00", "DBIT", "rent"),
        input("2026-05-04", "99.00", "CRDT", "salary"),
        input("bad", "1.00", "DBIT", "food"),
        input("2026-05-05", "x", "DBIT", "food"),
        input("2026-06-01", "3.00", "DBIT", "food"),
    ];
    let r = summarize(&inputs, &SummaryOpts { period: Period::Month, compare: false });

    assert_eq!(r.warnings.len(), 2);
    assert!(r.warnings[0].starts_with("skipping transaction with date \"bad\": parse date \"bad\": "));
    assert_eq!(r.warnings[1], "skipping transaction with invalid amount \"x\"");

    assert_eq!(r.periods.len(), 2);
    let may = &r.periods[0];
    assert_eq!(may.key, "2026-05");
    assert_eq!(may.currency, "EUR");
    assert_eq!(may.total, dec(false, 2700, 2));
    assert_eq!(may.coverage.total, 3);
    assert_eq!(may.coverage.categorized, 2);
    let names: Vec<&str> = may.categories.iter().map(|c| c.name.as_str()).collect();
    assert_eq!(names, vec!["rent", "food", "uncategorized"]);
    assert!(may.delta.is_none());
    assert_eq!(r.periods[1].key, "2026-06");
}

#[test]
fn summarize_compares_with_prior_period() {
    let inputs = vec![
        input("2026-05-01", "10.00", "DBIT", "food"),
        input("2026-05-02", "5.00", "DBIT", "travel"),
        input("2026-06-01", "3.00", "DBIT", "food"),
        input("2026-06-02", "4.00", "DBIT", "books"),
    ];
    let r = summarize(&inputs, &SummaryOpts { period: Period::Month, compare: true });
    assert_eq!(r.periods.len(), 2);
    assert!(r.periods[0].delta.is_none());
    assert!(r.periods[0].categories.iter().all(|c| c.delta.is_none()));
    let june = &r.periods[1];
    let d = june.delta.as_ref().unwrap();
    assert_eq!(d.absolute_diff, dec(true, 800, 2));
    assert_eq!(d.percentage, "-53%");
    let books = june.categories.iter().find(|c| c.name == "books").unwrap();
    assert_eq!(books.delta.as_ref().unwrap().percentage, "new");
    let food = june.categories.iter().find(|c| c.name == "food").unwrap();
    assert_eq!(food.delta.as_ref().unwrap().percentage, "-70%");
}

#[test]
fn summarize_orders_buckets_by_currency_then_key() {
    let mut usd = input("2026-05-01", "1.00", "DBIT", "food");
    usd.currency = "USD".into();
    let inputs = vec![usd, input("2026-05-02", "2.00", "DBIT", "food"), input("2026-05-01", "2.00", "DBIT", "food")];
    let r = summarize(&inputs, &SummaryOpts { period: Period::Day, compare: false });
    let keys: Vec<(String, String)> = r.periods.iter().map(|p| (p.currency.clone(), p.key.clone())).collect();
    assert_eq!(
        keys,
        vec![
            ("EUR".to_string(), "2026-05-01".to_string()),
            ("EUR".to_string(), "2026-05-02".to_string()),
            ("USD".to_string(), "2026-05-01".to_string()),
        ]
    );
}

#[test]
fn summarize_empty_input_is_empty() {
    let r = summarize(&[], &SummaryOpts { period: Period::Week, compare: true });
    assert!(r.periods.is_empty());
    assert!(r.warnings.is_empty());
}

#[test]
fn summarize_checked_refuses_oversized_amounts() {
    let max = "79228162514264337593543950335";
    let inputs = vec![input("2026-05-01", max, "DBIT", "food"), input("2026-05-01", max, "DBIT", "food")];
    assert!(summarize_checked(&inputs, &SummaryOpts { period: Period::Day, compare: false }).is_none());
    let ok = vec![input("2026-05-01", "1.5", "DBIT", "food")];
    let r = summarize_checked(&ok, &SummaryOpts { period: Period::Day, compare: false }).unwrap();
    assert_eq!(r.periods[0].total, dec(false, 15, 1));
    // large amounts and credits of any size are fine
    let big = vec![input("2026-05-01", "12345678901234.5", "DBIT", "food"), input("2026-05-01", max, "CRDT", "pay")];
    let r = summarize_checked(&big, &SummaryOpts { period: Period::Day, compare: false }).unwrap();
    assert_eq!(r.periods[0].total, dec(false, 123456789012345, 1));
}

#[test]
fn summarize_sums_amounts_with_seven_decimals() {
    let inputs = vec![
        input("2026-05-01", "0.1234567", "DBIT", "food"),
        input("2026-05-01", "0.0000001", "DBIT", "food"),
        input("2026-05-02", "0.1", "DBIT", "food"),
    ];
    let r = summarize_checked(&inputs, &SummaryOpts { period: Period::Day, compare: true }).unwrap();
    assert_eq!(r.periods.len(), 2);
    assert_eq!(r.periods[0].total, dec(false, 1234568, 7));
    assert_eq!(r.periods[0].categories[0].amount, dec(false, 1234568, 7));
    let d = r.periods[1].delta.as_ref().unwrap();
    assert_eq!(d.absolute_diff, dec(true, 234568, 7));
    assert_eq!(d.percentage, "-19%");
}

#[test]
fn compute_delta_with_seven_decimals() {
    let d = compute_delta(dec(false, 1234567, 7), dec(false, 1, 7));
    assert_eq!(d.absolute_diff, dec(false, 1234566, 7));
    assert_eq!(d.percentage, "+123456600%");
}

#[test]
fn summarize_checked_asks_room_for_changes_only_when_comparing() {
    let big = "1000000000000000000000000000";
    let inputs = vec![input("2026-05-01", big, "DBIT", "food"), input("2026-05-02", "1", "DBIT", "food")];
    let plain = summarize_checked(&inputs, &SummaryOpts { period: Period::Day, compare: false }).unwrap();
    assert_eq!(plain.periods.len(), 2);
    assert_eq!(plain.periods[0].total, dec(false, 1000000000000000000000000000, 0));
    assert!(summarize_checked(&inputs, &SummaryOpts { period: Period::Day, compare: true }).is_none());
    // a single period has no change to compute
    let one = vec![input("2026-05-01", big, "DBIT", "food")];
    assert!(summarize_checked(&one, &SummaryOpts { period: Period::Day, compare: true }).is_some());
}

#[test]
fn compute_delta_percentage_out_of_i32_range_reads_zero() {
    let d = compute_delta(dec(false, 100000000, 0), dec(false, 1, 0));
    assert_eq!(d.absolute_diff, dec(false, 99999999, 0));
    assert_eq!(d.percentage, "0%");
    let h = compute_delta(dec(false, 3, 0), dec(false, 8, 0));
    assert_eq!(h.percentage, "-62%");
}

#[test]
fn non_debits_leave_the_summary_unchanged() {
    let all = vec![
        input("2026-05-01", "10", "DBIT", "food"),
        input("bad date", "x", "CRDT", "pay"),
        input("2026-05-02", "5", "OTHR", ""),
        input("2026-05-01", "2.5", "DBIT", ""),
    ];
    let debits = vec![input("2026-05-01", "10", "DBIT", "food"), input("2026-05-01", "2.5", "DBIT", "")];
    let opts = SummaryOpts { period: Period::Day, compare: false };
    let a = summarize(&all, &opts);
    let b = summarize(&debits, &opts);
    assert_eq!(a.warnings, b.warnings);
    assert_eq!(a.periods.len(), b.periods.len());
    assert_eq!(a.periods[0].total, b.periods[0].total);
    assert_eq!(a.periods[0].coverage.total, 2);
    assert_eq!(a.periods[0].coverage.categorized, b.periods[0].coverage.categorized);
}
