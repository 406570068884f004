use banqline::dec::Dec;
use banqline::forecast::{
    aggregate_by_currency, forecast, forecast_checked, select_balance, BalanceInput, TxnInput,
};

fn bal(ty: &str, amount: &str) -> BalanceInput {
    BalanceInput { balance_type: ty.into(), amount: amount.into(), currency: "EUR".into() }
}

fn pending(id: &str, amount: &str, dir: &str) -> TxnInput {
    TxnInput {
        transaction_id: id.into(),
        amount: amount.into(),
        currency: "EUR".into(),
        credit_debit_indicator: dir.into(),
        description: format!("desc {id}"),
        value_date: "2026-05-10".into(),
    }
}

fn dec(negative: bool, mantissa: u128, scale: u32) -> Dec {
    Dec { negative, mantissa, scale }
}

#[test]
fn select_balance_prefers_itbd_then_clbd_then_first() {
    let (amt, ty, warnings) = select_balance(&[bal("CLBD", "100.00"), bal("ITBD", "120.50")]);
    assert_eq!(amt, dec(false, 12050, 2));
    assert_eq!(ty, "ITBD");
    assert!(warnings.is_empty());

    let (amt, ty, warnings) = select_balance(&[bal("XPCD", "7"), bal("CLBD", "100.00")]);
    assert_eq!(amt, dec(false, 10000, 2));
    assert_eq!(ty, "CLBD");
    assert!(warnings.is_empty());

    let (amt, ty, warnings) = select_balance(&[bal("XPCD", "7")]);
    assert_eq!(amt, dec(false, 7, 0));
    assert_eq!(ty, "XPCD");
    assert_eq!(warnings, vec!["using XPCD balance (ITBD/CLBD unavailable)".to_string()]);
}

#[test]
fn select_balance_reports_missing_and_invalid() {
    let (amt, ty, warnings) = select_balance(&[]);
    assert_eq!(amt, dec(false, 0, 0));
    assert_eq!(ty, "");
    assert_eq!(warnings, vec!["no balance data available".to_string()]);

    let (amt, ty, warnings) = select_balance(&[bal("ITBD", "oops")]);
    assert_eq!(amt, dec(false, 0, 0));
    assert_eq!(ty, "ITBD");
    assert_eq!(warnings, vec!["invalid ITBD balance amount \"oops\"".to_string()]);
}

#[test]
fn forecast_projects_credits_minus_debits() {
    let f = forecast(
        &[bal("ITBD", "120.50")],
        &[pending("a", "10.00", "CRDT"), pending("b", "5.50", "DBIT"), pending("c", "x", "DBIT")],
    );
    assert_eq!(f.currency, "EUR");
    assert_eq!(f.booked_balance, dec(false, 12050, 2));
    assert_eq!(f.booked_balance_type, "ITBD");
    assert!(f.has_pending_data);
    assert_eq!(f.pending_delta, dec(false, 450, 2));
    assert_eq!(f.projected_balance, dec(false, 12500, 2));
    assert_eq!(f.pending_txns.len(), 2);
    assert!(f.pending_txns[0].is_credit);
    assert_eq!(f.pending_txns[1].amount, dec(false, 550, 2));
    assert!(!f.pending_txns[1].is_credit);
    assert_eq!(f.pending_txns[1].description, "desc b");
    assert_eq!(f.warnings, vec!["skipping transaction c: invalid amount \"x\"".to_string()]);
    assert!(f.account_uid.is_empty() && f.iban.is_empty() && f.bank_name.is_empty());
}

#[test]
fn forecast_without_pending_keeps_booked() {
    let f = forecast(&[bal("CLBD", "-3.25")], &[]);
    assert!(!f.has_pending_data);
    assert_eq!(f.pending_delta, dec(false, 0, 0));
    assert_eq!(f.projected_balance, dec(true, 325, 2));
}

#[test]
fn forecast_checked_refuses_oversized_amounts() {
    let max = "79228162514264337593543950335";
    assert!(forecast_checked(&[bal("ITBD", max)], &[pending("a", "1", "CRDT")]).is_none());
    assert!(forecast_checked(&[bal("ITBD", "1.00")], &[pending("a", max, "CRDT"), pending("b", "1", "CRDT")]).is_none());
    assert!(forecast_checked(&[bal("ITBD", max)], &[]).is_some());
    assert!(forecast_checked(&[bal("ITBD", "1.00")], &[pending("a", "2", "CRDT")]).is_some());
    let f = forecast_checked(&[bal("ITBD", "0.1234567")], &[pending("a", "0.0000001", "CRDT")]).unwrap();
    assert_eq!(f.projected_balance, dec(false, 1234568, 7));
}

#[test]
fn aggregate_by_currency_sums_and_sorts() {
    let mut eur1 = forecast(&[bal("ITBD", "10.00")], &[pending("a", "1.00", "DBIT")]);
    eur1.currency = "EUR".into();
    let mut usd = forecast(&[bal("ITBD", "5.00")], &[]);
    usd.currency = "USD".into();
    let mut eur2 = forecast(&[bal("ITBD", "2.50")], &[]);
    eur2.currency = "EUR".into();

    let totals = aggregate_by_currency(&[usd, eur1, eur2]);

    assert_eq!(totals.len(), 2);
    assert_eq!(totals[0].currency, "EUR");
    assert_eq!(totals[0].total_booked, dec(false, 1250, 2));
    assert_eq!(totals[0].total_pending, dec(true, 100, 2));
    assert_eq!(totals[0].total_projected, dec(false, 1150, 2));
    assert_eq!(totals[1].currency, "USD");
    assert_eq!(totals[1].total_booked, dec(false, 500, 2));
}

#[test]
fn aggregate_by_currency_of_nothing_is_empty() {
    assert!(aggregate_by_currency(&[]).is_empty());
}
