use banqline::dec::Dec;
use banqline::forecast::{AccountForecast, PendingTxn};
use banqline::forecast_view::{
    cli_pending_inputs, forecast_detail, forecast_footer, forecast_rows, forecasts_accepted, last_synced_footer,
    oldest_synced, SyncTime,
};
use banqline::models::TransactionRecord;

fn dec(s: &str) -> Dec {
    let negative = s.starts_with('-');
    let t = s.trim_start_matches('-');
    let (int, frac) = t.split_once('.').unwrap_or((t, ""));
    Dec { negative, mantissa: format!("{int}{frac}").parse().unwrap(), scale: frac.len() as u32 }
}


fn fc(pending: bool) -> AccountForecast {
    AccountForecast {
        account_uid: "u1".into(),
        iban: "FR7612345678901234565133".into(),
        bank_name: "Bank".into(),
        currency: "EUR".into(),
        booked_balance: dec("100.00"),
        booked_balance_type: "CLBD".into(),
        pending_delta: dec("-10.5"),
        projected_balance: dec("89.50"),
        has_pending_data: pending,
        pending_txns: vec![PendingTxn {
            amount: dec("10.5"),
            description: "Shop".into(),
            value_date: "".into(),
            is_credit: false,
        }],
        warnings: vec!["stale balance".into()],
    }
}

#[test]
fn synced_times() {
    let t = SyncTime { secs: 1_700_000_000, nanos: 0 };
    assert_eq!(last_synced_footer(Some(t)), "Last synced: 2023-11-14 22:13:20 UTC");
    assert_eq!(last_synced_footer(None), "Last synced: never");
    assert_eq!(last_synced_footer(Some(SyncTime { secs: 0, nanos: 0 })), "Last synced: never");
    let earlier = SyncTime { secs: 5, nanos: 0 };
    assert_eq!(oldest_synced(Some(t), earlier), Some(earlier));
    assert_eq!(oldest_synced(Some(earlier), t), Some(earlier));
    assert_eq!(oldest_synced(None, SyncTime { secs: 0, nanos: 0 }), None);
}

#[test]
fn cli_descriptions() {
    let mut t = TransactionRecord { remittance_info: vec!["first".into(), "second".into()], ..Default::default() };
    assert_eq!(cli_pending_inputs(&[t.clone()])[0].description, "first");
    t.debtor_name = "Debtor".into();
    assert_eq!(cli_pending_inputs(&[t.clone()])[0].description, "Debtor");
    t.creditor_name = "Creditor".into();
    assert_eq!(cli_pending_inputs(&[t])[0].description, "Creditor");
}

#[test]
fn table_rows_and_footer() {
    let fs = vec![fc(true)];
    assert!(forecasts_accepted(&fs));
    let rows = forecast_rows(&fs);
    assert_eq!(rows[0], vec!["...34565133", "Bank", "EUR", "100.00", "-10.50", "89.50"]);
    let footer = forecast_footer(&fs, "Last synced: never");
    assert_eq!(
        footer,
        "EUR Total: booked 100.00 | pending -10.50 | projected 89.50\n\nWarnings:\n  - stale balance\n\nLast synced: never\nProjected balance = booked + pending. May not reflect real-time authorizations."
    );
}

#[test]
fn detail_lines() {
    let lines = forecast_detail(&fc(true));
    assert_eq!(lines[0], "\u{2550}\u{2550}\u{2550} ...34565133 (Bank) \u{2550}\u{2550}\u{2550}");
    assert_eq!(lines[1], "  Booked balance:         100.00 EUR");
    assert_eq!(lines[2], "  Pending delta:          -10.50 EUR");
    assert_eq!(lines[3], "  Projected:               89.50 EUR");
    assert_eq!(lines[4], "  \u{26A0} stale balance");
    assert_eq!(lines[5], "  Pending transactions:");
    assert_eq!(lines[6], "    -10.50 EUR \u{2014} Shop");
    assert_eq!(lines[7], "");
    let none = forecast_detail(&fc(false));
    assert_eq!(none[2], "  Pending delta:    N/A (no pending data)");
    assert_eq!(none.len(), 5);
}

#[test]
fn forecasts_accepted_refuses_only_overflowing_totals() {
    let mut big = fc(false);
    big.booked_balance = dec("79228162514264337593543950335");
    big.projected_balance = dec("79228162514264337593543950335");
    big.pending_delta = dec("0");
    assert!(forecasts_accepted(&[big.clone()]));
    assert!(!forecasts_accepted(&[big.clone(), fc(false)]));
    let mut usd = fc(false);
    usd.currency = "USD".into();
    assert!(forecasts_accepted(&[big, usd]));
}
