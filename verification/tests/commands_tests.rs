use banqline::alerter::{AlertRule, CategoryAlertCriteria, TransactionAlertCriteria};
use banqline::commands::{
    account_label, alert_rule_row, check_status, count_new_transactions, format_amount,
    format_pending_decimal, printer, resolve_bank, select_main_balance, session_account_by_uid,
    sync_account_uids, sync_bank_names, sync_report_table, to_account_record, to_balance_records,
    to_transaction_records, transaction_record_id, OutputFormat, StoredAccount, StoredSession,
    SyncReport,
};
use banqline::client::{Account, AccountId, Amount, Balance, Party, Transaction};
use banqline::dec::Dec;
use banqline::models::{AccountRecord, BalanceRecord, TransactionRecord};

#[test]
fn sync_report_table_is_account_centred() {
    let reports = vec![SyncReport {
        account: "main".into(),
        bank: "BNP Paribas".into(),
        tx_before: 321,
        tx_added: 0,
        balances: 2,
        status: "OK".into(),
        synced_at: chrono::Utc::now().to_rfc3339(),
    }];

    let (headers, rows) = sync_report_table(&reports);

    assert_eq!(headers, vec!["ACCOUNT", "BANK", "TX BEFORE", "TX ADDED", "BALANCES", "STATUS"]);
    assert_eq!(rows, vec![vec!["main", "BNP Paribas", "321", "0", "2", "OK"]]);
}

fn account(uid: &str, iban: &str, name: &str) -> StoredAccount {
    StoredAccount { uid: uid.into(), iban: iban.into(), name: name.into(), currency: "EUR".into() }
}

fn session(valid_until: i128, accounts: Vec<StoredAccount>) -> StoredSession {
    StoredSession { session_id: "s".into(), accounts, created_at: 0, valid_until }
}

#[test]
fn resolve_bank_by_name_and_expiry() {
    let store = vec![
        ("BNP".to_string(), session(100, vec![])),
        ("LCL".to_string(), session(10, vec![])),
    ];
    assert_eq!(resolve_bank(&store, Some("BNP"), 50), Ok(0));
    assert_eq!(
        resolve_bank(&store, Some("LCL"), 50),
        Err("session for 'LCL' has expired; run bank connect again".to_string())
    );
    assert_eq!(
        resolve_bank(&store, Some("ING"), 50),
        Err("no session for bank 'ING'; run bank connect first".to_string())
    );
    assert_eq!(
        resolve_bank(&store, None, 50),
        Err("multiple banks configured (BNP, LCL); specify --bank".to_string())
    );
}

#[test]
fn resolve_bank_single_bank_without_flag() {
    let store = vec![("BNP".to_string(), session(100, vec![]))];
    assert_eq!(resolve_bank(&store, None, 50), Ok(0));
    assert_eq!(
        resolve_bank(&store, None, 100),
        Err("session for 'BNP' has expired; run bank connect again".to_string())
    );
}

#[test]
fn sync_bank_names_takes_valid_sessions() {
    let store = vec![
        ("A".to_string(), session(100, vec![])),
        ("B".to_string(), session(10, vec![])),
        ("C".to_string(), session(200, vec![])),
    ];
    assert_eq!(sync_bank_names(&store, None, 50), Ok(vec![0, 2]));
    assert_eq!(sync_bank_names(&store, Some("C"), 50), Ok(vec![2]));
    assert_eq!(
        sync_bank_names(&store, None, 500),
        Err("no valid sessions; run bank connect first".to_string())
    );
}

#[test]
fn session_account_lookup() {
    let sess = session(100, vec![account("u1", "FR1", ""), account("u2", "FR2", "")]);
    assert_eq!(session_account_by_uid(&sess, "u2"), Ok(1));
    assert_eq!(
        session_account_by_uid(&sess, "u9"),
        Err("account 'u9' not found in selected bank session".to_string())
    );
    assert_eq!(sync_account_uids(&sess, None, ""), Ok(vec!["u1".to_string(), "u2".to_string()]));
    assert_eq!(sync_account_uids(&sess, Some("main"), "u1"), Ok(vec!["u1".to_string()]));
    assert_eq!(
        sync_account_uids(&sess, Some("main"), "main"),
        Err("account 'main' not found in selected bank session".to_string())
    );
}

fn record(uid: &str, alias: &str, name: &str, iban: &str) -> AccountRecord {
    AccountRecord {
        uid: uid.into(),
        bank_name: "BNP".into(),
        iban: iban.into(),
        name: name.into(),
        currency: "EUR".into(),
        details: String::new(),
        usage_type: String::new(),
        account_type: String::new(),
        alias: alias.into(),
    }
}

#[test]
fn account_label_prefers_stored_alias_then_name_then_iban() {
    let acct = account("u1", "FR7600001111", "Session name");
    let recs = vec![record("u1", "main", "Stored", "FR76")];
    assert_eq!(account_label(Some(&recs), &acct), "main");
    let recs = vec![record("u1", "", "Stored", "FR76")];
    assert_eq!(account_label(Some(&recs), &acct), "Stored");
    let recs = vec![record("u1", "", "", "FR7600002222")];
    assert_eq!(account_label(Some(&recs), &acct), "...02222");
    assert_eq!(account_label(None, &acct), "Session name");
    let bare = account("u9", "", "");
    assert_eq!(account_label(Some(&recs), &bare), "u9");
}

fn stored_txn(id: &str, entry: &str) -> TransactionRecord {
    TransactionRecord { transaction_id: id.into(), entry_reference: entry.into(), ..Default::default() }
}

#[test]
fn transaction_identity_and_new_count() {
    assert_eq!(transaction_record_id(&stored_txn("t1", "e1")), "t1");
    assert_eq!(transaction_record_id(&stored_txn("", "e1")), "e1");
    let before = vec![stored_txn("t1", ""), stored_txn("", "e2")];
    let fetched = vec![stored_txn("t1", ""), stored_txn("t3", ""), stored_txn("", "e2"), stored_txn("t4", "")];
    assert_eq!(count_new_transactions(&before, &fetched), 2);
}

fn api_txn(id: &str) -> Transaction {
    Transaction {
        entry_reference: format!("entry-{id}"),
        transaction_id: id.into(),
        amount: Amount { amount: "1.00".into(), currency: "EUR".into() },
        booking_date: "2026-05-08".into(),
        value_date: "2026-05-08".into(),
        transaction_date: "2026-05-08".into(),
        remittance_info: vec![format!("txn {id}")],
        creditor: Party { name: "Creditor".into() },
        debtor: Party::default(),
        status: "BOOK".into(),
        credit_debit_indicator: "DBIT".into(),
        note: String::new(),
    }
}

#[test]
fn conversions_copy_fields() {
    let recs = to_transaction_records("acc-1", vec![api_txn("t1")]);
    assert_eq!(recs.len(), 1);
    assert_eq!(recs[0].account_uid, "acc-1");
    assert_eq!(recs[0].entry_reference, "entry-t1");
    assert_eq!(recs[0].amount, "1.00");
    assert_eq!(recs[0].remittance_info, vec!["txn t1".to_string()]);
    assert_eq!(recs[0].creditor_name, "Creditor");
    assert_eq!(recs[0].category, "uncategorized");

    let a = Account {
        uid: "u".into(),
        account_id: AccountId { iban: "FR76".into() },
        name: "Main".into(),
        details: "d".into(),
        usage: "PRIV".into(),
        currency: "EUR".into(),
        cash_account_type: "CACC".into(),
        psu_status: String::new(),
    };
    let r = to_account_record("BNP", &a);
    assert_eq!(r.bank_name, "BNP");
    assert_eq!(r.iban, "FR76");
    assert_eq!(r.usage_type, "PRIV");
    assert_eq!(r.account_type, "CACC");
    assert!(r.alias.is_empty());

    let b = to_balance_records(vec![Balance {
        balance_type: "CLBD".into(),
        balance_amount: Amount { amount: "12.00".into(), currency: "EUR".into() },
        reference_date: "2026-05-01".into(),
    }]);
    assert_eq!(b[0].balance_type, "CLBD");
    assert_eq!(b[0].amount, "12.00");
    assert_eq!(b[0].reference_date, "2026-05-01");
}

fn bal(ty: &str, amount: &str) -> BalanceRecord {
    BalanceRecord { balance_type: ty.into(), amount: amount.into(), currency: "EUR".into(), reference_date: String::new() }
}

#[test]
fn select_main_balance_prefers_itbd_then_clbd() {
    let bs = vec![bal("XPCD", "1"), bal("CLBD", "2"), bal("ITBD", "3")];
    assert_eq!(select_main_balance(&bs).unwrap().amount, "3");
    let bs = vec![bal("XPCD", "1"), bal("CLBD", "2")];
    assert_eq!(select_main_balance(&bs).unwrap().amount, "2");
    let bs = vec![bal("XPCD", "1")];
    assert_eq!(select_main_balance(&bs).unwrap().amount, "1");
    assert!(select_main_balance(&[]).is_none());
}

#[test]
fn format_amount_rounds_to_two_decimals() {
    assert_eq!(format_amount("12.346"), "12.35");
    assert_eq!(format_amount("12.345"), "12.34");
    assert_eq!(format_amount("7"), "7.00");
    assert_eq!(format_amount("abc"), "abc");
}

#[test]
fn format_pending_decimal_signs() {
    let zero = Dec { negative: false, mantissa: 0, scale: 2 };
    let pos = Dec { negative: false, mantissa: 1234, scale: 2 };
    let neg = Dec { negative: true, mantissa: 550, scale: 2 };
    assert_eq!(format_pending_decimal(zero), "    0.00");
    assert_eq!(format_pending_decimal(pos), "+12.34");
    assert_eq!(format_pending_decimal(neg), "-5.50");
}

#[test]
fn small_output_helpers() {
    assert_eq!(check_status(true), "OK");
    assert_eq!(check_status(false), "WARN");
    let p = printer(OutputFormat::Json);
    assert!(p.json && !p.csv);
    let p = printer(OutputFormat::Csv);
    assert!(!p.json && p.csv);
    let p = printer(OutputFormat::Table);
    assert!(!p.json && !p.csv);
}

#[test]
fn alert_rule_rows() {
    let t = AlertRule {
        name: "big".into(),
        rule_type: "transaction".into(),
        transaction: Some(TransactionAlertCriteria {
            amount_gte: "100".into(),
            merchant_contains: "amazon".into(),
            direction: "DBIT".into(),
        }),
        category: None,
    };
    assert_eq!(alert_rule_row(&t), vec!["big", "transaction", "amount >= 100, merchant contains amazon", "DBIT"]);
    let c = AlertRule {
        name: "food".into(),
        rule_type: "category".into(),
        transaction: None,
        category: Some(CategoryAlertCriteria {
            category: "food".into(),
            threshold: "300".into(),
            period: "month".into(),
            bank: String::new(),
        }),
    };
    assert_eq!(alert_rule_row(&c), vec!["food", "category", "food >= 300", "month"]);
    let u = AlertRule { name: "x".into(), rule_type: "other".into(), transaction: None, category: None };
    assert_eq!(alert_rule_row(&u), vec!["x", "other", "", ""]);
}
