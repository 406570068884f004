use banqline::account_view::{
    balance_lines, forecast_line, pending_accepts, pending_delta, pending_view, usage_line,
};
use banqline::dec::Dec;
use banqline::forecast::AccountForecast;
use banqline::models::{AccountRecord, BalanceRecord, TransactionRecord};

fn dec(s: &str) -> Dec {
    let negative = s.starts_with('-');
    let t = s.trim_start_matches('-');
    let (int, frac) = t.split_once('.').unwrap_or((t, ""));
    Dec { negative, mantissa: format!("{int}{frac}").parse().unwrap(), scale: frac.len() as u32 }
}



#[test]
fn balance_lines_name_the_types() {
    let bals = vec![
        BalanceRecord { balance_type: "CLBD".into(), amount: "120.50".into(), currency: "EUR".into(), reference_date: "".into() },
        BalanceRecord { balance_type: "ZZZZ".into(), amount: "3".into(), currency: "USD".into(), reference_date: "".into() },
    ];
    assert_eq!(balance_lines(&bals), vec!["Closing Booked: 120.50 EUR", "ZZZZ: 3 USD"]);
}

#[test]
fn pending_delta_text_cases() {
    assert_eq!(pending_delta(dec("12.345"), false), "(no data)");
    assert_eq!(pending_delta(dec("0"), true), "0.00");
    assert_eq!(pending_delta(dec("12.346"), true), "+12.35");
    assert_eq!(pending_delta(dec("-7.5"), true), "-7.5");
}

#[test]
fn forecast_and_usage_lines() {
    let fc = AccountForecast {
        account_uid: "u".into(),
        iban: "FR76".into(),
        bank_name: "B".into(),
        currency: "EUR".into(),
        booked_balance: dec("100"),
        booked_balance_type: "CLBD".into(),
        pending_delta: dec("-20.255"),
        projected_balance: dec("79.745"),
        has_pending_data: true,
        pending_txns: vec![],
        warnings: vec![],
    };
    assert_eq!(forecast_line(&fc), "Booked: 100  |  Pending: -20.26  |  Projected: 79.74  EUR");
    let acct = AccountRecord { currency: "EUR".into(), ..Default::default() };
    assert_eq!(usage_line(&acct), "Usage: N/A  ·  Currency: EUR");
    let acct = AccountRecord { currency: "EUR".into(), usage_type: "PRIV".into(), ..Default::default() };
    assert_eq!(usage_line(&acct), "Usage: PRIV  ·  Currency: EUR");
}

fn pending(amount: &str, dir: &str, desc: &str, note: &str) -> TransactionRecord {
    TransactionRecord {
        amount: amount.into(),
        credit_debit_indicator: dir.into(),
        creditor_name: desc.into(),
        note: note.into(),
        status: "PDNG".into(),
        value_date: "2026-05-02".into(),
        currency: "EUR".into(),
        ..Default::default()
    }
}

#[test]
fn pending_view_rows_and_total() {
    let mut booked = pending("999", "DBIT", "Booked", "");
    booked.status = "BOOK".into();
    let txns = vec![
        pending("10.5", "DBIT", "Shop", ""),
        booked,
        pending("4", "CRDT", "Refund", "kept"),
        pending("x", "DBIT", "Bad", ""),
    ];
    assert!(pending_accepts(&txns, 0));
    let v = pending_view(&txns, 0);
    assert_eq!(v.rows.len(), 3);
    assert_eq!(v.rows[0].date_cell, "2026-05-02  ");
    assert_eq!(v.rows[0].amount_cell, "      -10.5");
    assert_eq!(v.rows[0].description_cell, "  Shop");
    assert!(!v.rows[0].credit);
    assert_eq!(v.rows[1].amount_cell, "      +4");
    assert_eq!(v.rows[1].description_cell, "  \u{1F4DD} kept");
    assert_eq!(v.rows[2].amount_cell, "      -0");
    assert_eq!(v.total_line, "Total pending: -6.5 EUR");
    assert!(v.total_negative);
    let scrolled = pending_view(&txns, 1);
    assert_eq!(scrolled.rows.len(), 2);
    assert_eq!(scrolled.total_line, "Total pending: 4 EUR");
    assert!(!scrolled.total_negative);
    let past_end = pending_view(&txns, 5);
    assert!(past_end.rows.is_empty());
    assert_eq!(past_end.total_line, "Total pending: 0 ");
}

#[test]
fn pending_accepts_rejects_huge_amounts() {
    let max = "79228162514264337593543950335";
    let txns = vec![pending(max, "DBIT", "Big", ""), pending("1", "DBIT", "Small", "")];
    assert!(!pending_accepts(&txns, 0));
    // scrolled past the first row, the total no longer overflows
    assert!(pending_accepts(&txns, 1));
    let one = vec![pending("10000000000000", "DBIT", "Big", "")];
    assert!(pending_accepts(&one, 0));
    assert_eq!(pending_view(&one, 0).total_line, "Total pending: -10000000000000 EUR");
}
