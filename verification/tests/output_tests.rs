use banqline::output::{account_display_name, escape_csv_field, iban_suffix, write_csv_record, Printer};

#[test]
fn test_account_display_name_with_alias() {
    let got = account_display_name("principal", "FR7612345678901234565133");
    assert_eq!(got, "principal (FR76...65133)");
}

#[test]
fn test_account_display_name_without_alias() {
    let got = account_display_name("", "FR7612345678901234565133");
    assert_eq!(got, "FR7612345678901234565133");
}

#[test]
fn test_account_display_name_short_iban() {
    let got = account_display_name("test", "FR76");
    assert_eq!(got, "test (FR76)");
}

#[test]
fn account_display_name_nine_byte_iban_is_kept_whole() {
    assert_eq!(account_display_name("a", "123456789"), "a (123456789)");
    assert_eq!(account_display_name("a", "1234567890"), "a (1234...67890)");
}

#[test]
fn iban_suffix_keeps_last_bytes() {
    assert_eq!(iban_suffix("FR7612345678901234565133", 5), "...65133");
    assert_eq!(iban_suffix("FR76", 5), "FR76");
    assert_eq!(iban_suffix("FR761", 5), "FR761");
}

#[test]
fn escape_csv_field_quotes_only_when_needed() {
    assert_eq!(escape_csv_field("plain"), "plain");
    assert_eq!(escape_csv_field("a,b"), "\"a,b\"");
    assert_eq!(escape_csv_field("say \"hi\""), "\"say \"\"hi\"\"\"");
    assert_eq!(escape_csv_field("line\nbreak"), "\"line\nbreak\"");
    assert_eq!(escape_csv_field("cr\rhere"), "\"cr\rhere\"");
    assert_eq!(escape_csv_field(""), "");
}

#[test]
fn write_csv_record_joins_with_commas() {
    let mut out = String::from("x");
    write_csv_record(&mut out, &["a".to_string(), "b,c".to_string(), "".to_string()]);
    assert_eq!(out, "xa,\"b,c\",\n");
}

#[test]
fn print_csv_to_writes_header_then_rows() {
    let p = Printer { json: false, csv: true };
    let mut out = String::new();
    p.print_csv_to(
        &mut out,
        vec!["NAME".into(), "IBAN".into()],
        vec![vec!["Main".into(), "DE89".into()], vec!["Sav\"ings".into(), "FR76".into()]],
    );
    assert_eq!(out, "NAME,IBAN\nMain,DE89\n\"Sav\"\"ings\",FR76\n");
}

#[test]
fn print_csv_to_without_rows_writes_header() {
    let p = Printer { json: false, csv: true };
    let mut out = String::new();
    p.print_csv_to(&mut out, vec!["COL".into()], vec![]);
    assert_eq!(out, "COL\n");
}

#[test]
fn test_print_table() {
    let mut buf = String::new();
    let p = Printer {
        json: false,
        csv: false,
    };

    let headers = vec!["NAME".into(), "IBAN".into(), "CURRENCY".into()];
    let rows = vec![
        vec!["Main".into(), "DE89370400440532013000".into(), "EUR".into()],
        vec![
            "Savings".into(),
            "FR7630006000011234567890189".into(),
            "EUR".into(),
        ],
    ];

    p.print_table_to(&mut buf, headers, rows);
    let out = buf;
    assert!(out.contains("NAME"));
    assert!(out.contains("IBAN"));
    assert!(out.contains("CURRENCY"));
    assert!(out.contains("Main"));
    assert!(out.contains("DE89370400440532013000"));
    assert!(out.contains("Savings"));
}

#[test]
fn test_print_table_empty() {
    let mut buf = String::new();
    let p = Printer {
        json: false,
        csv: false,
    };

    p.print_table_to(&mut buf, vec!["COL".into()], vec![]);
    let out = buf;
    assert!(out.contains("COL"));
}

#[test]
fn print_table_in_csv_mode_writes_csv() {
    let mut buf = String::new();
    let p = Printer { json: false, csv: true };
    p.print_table(&mut buf, vec!["A".into(), "B".into()], vec![vec!["1".into(), "x,y".into()]]);
    assert_eq!(buf, "A,B\n1,\"x,y\"\n");
}

#[test]
fn print_table_with_footer_appends_footer_line() {
    let mut buf = String::new();
    let p = Printer { json: false, csv: true };
    p.print_table_with_footer(&mut buf, vec!["A".into()], vec![], "last synced");
    assert_eq!(buf, "A\n\nlast synced\n");
    let mut plain = String::new();
    p.print_table_with_footer(&mut plain, vec!["A".into()], vec![], "");
    assert_eq!(plain, "A\n");
}

#[test]
fn print_table_in_table_mode_keeps_appending() {
    let mut buf = String::from("head:");
    let p = Printer { json: false, csv: false };
    p.print_table(&mut buf, vec!["COL".into()], vec![vec!["v".into()]]);
    assert!(buf.starts_with("head:"));
    assert!(buf.contains("COL"));
    assert!(buf.contains("v"));
}
