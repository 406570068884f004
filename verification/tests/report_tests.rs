use banqline::models::TransactionRecord;
use banqline::report::{
    bar_len, income_accepts, income_by_period, report_accepts, report_controls, report_inputs, report_lines,
    share_accepted, share_percent, Tone,
};
use banqline::dec::{dec_zero, Dec};
use banqline::summary::{summarize_checked, Period, SummaryOpts};
use banqline::ui::ReportPeriod;

fn dec(s: &str) -> Dec {
    let negative = s.starts_with('-');
    let t = s.trim_start_matches('-');
    let (int, frac) = t.split_once('.').unwrap_or((t, ""));
    Dec { negative, mantissa: format!("{int}{frac}").parse().unwrap(), scale: frac.len() as u32 }
}


fn tx(date: &str, amount: &str, dir: &str, category: &str, status: &str) -> TransactionRecord {
    TransactionRecord {
        account_uid: "acc".into(),
        booking_date: date.into(),
        amount: amount.into(),
        currency: "EUR".into(),
        credit_debit_indicator: dir.into(),
        category: category.into(),
        status: status.into(),
        ..Default::default()
    }
}

fn sample() -> Vec<TransactionRecord> {
    vec![
        tx("2026-05-02", "10.00", "DBIT", "food", "BOOK"),
        tx("2026-05-03", "30.00", "DBIT", "rent", "BOOK"),
        tx("2026-05-04", "100.00", "CRDT", "salary", "BOOK"),
        tx("2026-05-05", "99.00", "DBIT", "food", "PDNG"),
    ]
}

#[test]
fn report_inputs_leave_out_pending() {
    let inputs = report_inputs(&sample());
    assert_eq!(inputs.len(), 3);
    assert_eq!(inputs[2].credit_debit_indicator, "CRDT");
}

#[test]
fn income_is_summed_per_month() {
    let mut txns = sample();
    txns.push(tx("2026-05-20", "50.50", "CRDT", "", "BOOK"));
    txns.push(tx("2026-06-01", "7", "CRDT", "", "BOOK"));
    txns.push(tx("bad", "7", "CRDT", "", "BOOK"));
    let inputs = report_inputs(&txns);
    assert!(income_accepts(&inputs, Period::Month));
    let inc = income_by_period(&inputs, Period::Month);
    assert_eq!(inc.len(), 2);
    assert_eq!(inc[0].key, "2026-05");
    assert_eq!(inc[0].amount, dec("150.50"));
    assert_eq!(inc[1].key, "2026-06");
}

#[test]
fn shares_and_bars() {
    let a = dec("25");
    let b = dec("100");
    assert_eq!(share_percent(a, b), 25);
    assert_eq!(share_percent(dec("1"), dec("3")), 33);
    assert_eq!(share_percent(a, dec_zero()), 0);
    assert_eq!(bar_len(50), 15);
    assert_eq!(bar_len(250), 30);
    assert_eq!(bar_len(-5), 0);
}

#[test]
fn report_lines_for_a_month() {
    let inputs = report_inputs(&sample());
    let opts = SummaryOpts { period: Period::Month, compare: false };
    let summary = summarize_checked(&inputs, &opts).unwrap();
    let inc = income_by_period(&inputs, Period::Month);
    assert!(report_accepts(&summary.periods, &inc));
    let lines = report_lines(&summary.periods, &inc, ReportPeriod::Month);
    let texts: Vec<String> =
        lines.iter().map(|l| l.spans.iter().map(|s| s.text.as_str()).collect::<String>()).collect();
    let rule = "\u{2500}".repeat(55);
    assert_eq!(texts[0], "Category          Amount        %");
    assert_eq!(texts[1], rule);
    assert_eq!(texts[2], "");
    assert_eq!(texts[3], "\u{2500}\u{2500} May 2026 EUR \u{2500}\u{2500}");
    assert_eq!(texts[4], "  Income            +  100.00");
    assert_eq!(texts[5], format!("rent             -  30.00  75%  {}", "\u{2588}".repeat(22)));
    assert_eq!(texts[6], format!("food             -  10.00  25%  {}", "\u{2588}".repeat(7)));
    assert_eq!(texts[7], rule);
    assert_eq!(texts[8], "Spending         -  40.00");
    assert_eq!(texts[9], "Net              +60.00");
    assert_eq!(texts[10], "");
    assert_eq!(texts[11], "Coverage: 100% (2/2)");
    assert_eq!(texts.len(), 12);
    assert_eq!(lines[9].spans[0].tone, Tone::NetPositive);
    assert_eq!(lines[5].spans[1].tone, Tone::Spending);
}

#[test]
fn report_for_weeks_and_net_loss() {
    let txns = vec![tx("2026-05-04", "12.5", "DBIT", "", "BOOK")];
    let inputs = report_inputs(&txns);
    let summary = summarize_checked(&inputs, &SummaryOpts { period: Period::Week, compare: false }).unwrap();
    let inc = income_by_period(&inputs, Period::Week);
    let lines = report_lines(&summary.periods, &inc, ReportPeriod::Week);
    let texts: Vec<String> =
        lines.iter().map(|l| l.spans.iter().map(|s| s.text.as_str()).collect::<String>()).collect();
    assert_eq!(texts[3], "\u{2500}\u{2500} Week 2026-W19 EUR \u{2500}\u{2500}");
    assert_eq!(texts[6], "Spending         -   12.5");
    assert_eq!(texts[7], "Net              -12.5");
    assert_eq!(lines[7].spans[0].tone, Tone::NetNegative);
    assert_eq!(texts.last().unwrap(), "Coverage: 0% (0/1)");
}

#[test]
fn empty_report_says_so() {
    let lines = report_lines(&Vec::new(), &Vec::new(), ReportPeriod::Day);
    assert_eq!(lines.len(), 1);
    assert_eq!(lines[0].spans[0].text, "No spending data found.");
    assert_eq!(report_controls(ReportPeriod::Week, true), "m:month  w:week  D:day  Period: week  Compare: on (vs prior)");
    assert_eq!(report_controls(ReportPeriod::Day, false), "m:month  w:week  D:day  Period: day  Compare: off");
}

#[test]
fn income_accepts_refuses_only_overflow() {
    let max = "79228162514264337593543950335";
    let over = report_inputs(&[tx("2026-05-01", max, "CRDT", "", "BOOK"), tx("2026-05-02", "1", "CRDT", "", "BOOK")]);
    assert!(!income_accepts(&over, Period::Month));
    // the same credits in different months do not add up
    let apart = report_inputs(&[tx("2026-05-01", max, "CRDT", "", "BOOK"), tx("2026-06-02", "1", "CRDT", "", "BOOK")]);
    assert!(income_accepts(&apart, Period::Month));
    let fine = report_inputs(&[tx("2026-05-01", "0.1234567", "CRDT", "", "BOOK"), tx("2026-05-03", "0.0000001", "CRDT", "", "BOOK")]);
    assert!(income_accepts(&fine, Period::Month));
    let inc = income_by_period(&fine, Period::Month);
    assert_eq!(inc[0].amount, Dec { negative: false, mantissa: 1234568, scale: 7 });
}

#[test]
fn shares_refuse_only_overflowing_ratios() {
    assert!(share_accepted(dec("0.1234567"), dec("1")));
    assert_eq!(share_percent(dec("0.1234567"), dec("1")), 12);
    // a whole of 10^-28 makes the ratio overflow
    assert!(!share_accepted(dec("1"), dec("0.0000000000000000000000000001")));
    assert!(share_accepted(dec("0.0000000000000000000000000001"), dec("1")));
    assert!(share_accepted(dec("5"), dec("0")));
    assert!(share_accepted(dec("-3"), dec("7.25")));
}

#[test]
fn shares_round_half_to_even() {
    assert_eq!(share_percent(dec("1"), dec("8")), 12);
    assert_eq!(share_percent(dec("3"), dec("8")), 38);
    assert_eq!(share_percent(dec("-1"), dec("8")), -12);
}
