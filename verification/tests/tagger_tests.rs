use banqline::tagger::{collapse_spaces, match_category, normalize, suggest_pattern, CategoryRule};

#[test]
fn normalize_joins_upper_cases_and_collapses() {
    let got = normalize(&["  carte  x ".to_string(), "paiement".to_string()], "Lidl", "", "note");
    assert_eq!(got, "CARTE X PAIEMENT LIDL NOTE");
    assert_eq!(normalize(&[], "", "", ""), "");
}

#[test]
fn collapse_spaces_single_spaces() {
    assert_eq!(collapse_spaces("  a \t b\n\nc  "), "a b c");
}

#[test]
fn match_category_takes_first_matching_rule() {
    let rules = vec![
        CategoryRule { category: "groceries".into(), patterns: vec!["".into(), "carrefour".into()] },
        CategoryRule { category: "city".into(), patterns: vec!["city".into()] },
    ];
    assert_eq!(match_category("CARREFOUR CITY", &rules), "groceries");
    assert_eq!(match_category("METRO CITY", &rules), "city");
    assert_eq!(match_category("SNCF", &rules), "uncategorized");
    assert_eq!(match_category("", &rules), "uncategorized");
}

#[test]
fn suggest_pattern_skips_banking_words() {
    assert_eq!(suggest_pattern("PAIEMENT CB CARREFOUR CITY"), "carrefour");
    assert_eq!(suggest_pattern("CB DE LA"), "cb de la");
    assert_eq!(suggest_pattern("VIR AB SNCF"), "sncf");
}
