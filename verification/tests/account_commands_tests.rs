use banqline::account_commands::{
    account_rows, alias_rows, balance_rows, lines_accept, listing_accepts, total_booked, total_booked_footer,
    totals_footer,
    transaction_rows, session_account, AccountLine,
};
use banqline::models::{AccountRecord, BalanceRecord, TransactionRecord};
use banqline::commands::StoredAccount;

fn tx(amount: &str, dir: &str, creditor: &str) -> TransactionRecord {
    TransactionRecord {
        amount: amount.into(),
        credit_debit_indicator: dir.into(),
        creditor_name: creditor.into(),
        booking_date: "2026-05-01".into(),
        ..Default::default()
    }
}

#[test]
fn transaction_list_and_totals() {
    let txns = vec![tx("100.5", "CRDT", "Employer"), tx("20", "DBIT", ""), tx("x", "DBIT", "Shop"), tx("3", "OTHR", "")];
    let rows = transaction_rows(&txns);
    assert_eq!(rows[0], vec!["2026-05-01", "100.50", "CR", "Employer"]);
    assert_eq!(rows[1], vec!["2026-05-01", "20.00", "DB", ""]);
    assert_eq!(rows[2], vec!["2026-05-01", "x", "DB", "Shop"]);
    assert_eq!(rows[3][2], "OTHR");
    assert!(listing_accepts(&txns));
    assert_eq!(totals_footer(&txns), "Credits: 100.50 | Debits: 20.00 | Net: 80.50");
}

fn acct(uid: &str, iban: &str, alias: &str) -> AccountRecord {
    AccountRecord { uid: uid.into(), iban: iban.into(), currency: "EUR".into(), alias: alias.into(), ..Default::default() }
}

#[test]
fn account_list() {
    let ls = vec![
        AccountLine { account: acct("u1", "FR7612345678901234565133", ""), alias: Some("main".into()), booked: Some("10.5".into()) },
        AccountLine { account: acct("u2", "DE12", ""), alias: None, booked: None },
    ];
    assert!(lines_accept(&ls));
    let rows = account_rows(&ls);
    assert_eq!(rows[0], vec!["main (...565133)", "FR7612345678901234565133", "EUR", "10.50"]);
    assert_eq!(rows[1], vec!["DE12", "DE12", "EUR", "-"]);
    assert_eq!(total_booked_footer(&ls), "Total booked: 10.50");
    let t = total_booked(&ls);
    assert_eq!((t.negative, t.mantissa, t.scale), (false, 105, 1));
}

#[test]
fn alias_and_balance_rows() {
    let accts = vec![acct("u1", "I1", "main"), acct("u2", "I2", ""), acct("u3", "I3", "savings")];
    assert_eq!(alias_rows(&accts), vec![vec!["main", "u1", "I1"], vec!["savings", "u3", "I3"]]);
    let bals = vec![BalanceRecord {
        balance_type: "CLBD".into(),
        amount: "1234.5".into(),
        currency: "EUR".into(),
        reference_date: "2026-05-01".into(),
    }];
    assert_eq!(balance_rows(&bals), vec![vec!["CLBD", "1234.50", "EUR", "2026-05-01"]]);
}

fn stored(uid: &str, iban: &str) -> StoredAccount {
    StoredAccount { uid: uid.into(), iban: iban.into(), name: "Main".into(), currency: "EUR".into() }
}

#[test]
fn session_account_selection() {
    let one = vec![stored("u1", "DE89370400440532013000")];
    assert_eq!(session_account(&one, None, ""), Ok(0));
    let two = vec![stored("u1", "DE89370400440532013000"), stored("u2", "NL91ABNA0417164300")];
    assert_eq!(
        session_account(&two, None, ""),
        Err("multiple accounts; specify --account (available: ...013000, ...164300)".to_string())
    );
    assert_eq!(session_account(&two, Some("u2"), "u2"), Ok(1));
    assert_eq!(session_account(&two, Some("NL91ABNA0417164300"), "NL91ABNA0417164300"), Ok(1));
    assert_eq!(session_account(&two, Some("013000"), "013000"), Ok(0));
    assert_eq!(session_account(&two, Some("salary"), "u2"), Ok(1));
    assert_eq!(session_account(&two, Some("300"), "300"), Err("account '300' not found in session for this bank".to_string()));
}

#[test]
fn resolve_account_rejects_alias_outside_selected_bank_session() {
    let accounts = vec![StoredAccount {
        uid: "local-account".into(),
        iban: "LOCALIBAN123456".into(),
        name: "Local account".into(),
        currency: "EUR".into(),
    }];
    let err = session_account(&accounts, Some("shared-alias"), "foreign-account").unwrap_err();
    assert!(err.contains("not found in session"), "unexpected error: {err}");
}

#[test]
fn listing_and_account_totals_refuse_only_overflow() {
    let max = "79228162514264337593543950335";
    let over = vec![tx(max, "CRDT", ""), tx("1", "CRDT", "")];
    assert!(!listing_accepts(&over));
    // credits and debits each in range, their difference out of range
    let net_over = vec![tx(max, "CRDT", ""), tx(max, "DBIT", "")];
    assert!(listing_accepts(&net_over));
    let wide = vec![tx(max, "CRDT", ""), tx("-1", "DBIT", "")];
    assert!(!listing_accepts(&wide));
    let fine = vec![tx("0.1234567", "CRDT", "")];
    assert!(listing_accepts(&fine));
    assert_eq!(totals_footer(&fine), "Credits: 0.12 | Debits: 0.00 | Net: 0.12");
    let ls = vec![
        AccountLine { account: acct("u1", "DE12", ""), alias: None, booked: Some(max.into()) },
        AccountLine { account: acct("u2", "DE13", ""), alias: None, booked: Some("1".into()) },
    ];
    assert!(!lines_accept(&ls));
    let small = vec![AccountLine { account: acct("u1", "DE12", ""), alias: None, booked: Some("0.1234567".into()) }];
    assert!(lines_accept(&small));
    assert_eq!(total_booked_footer(&small), "Total booked: 0.12");
}
