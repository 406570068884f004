use banqline::listing::TxnFilter;
use banqline::models::TransactionRecord;
use banqline::ui::{
    balance_type_name, handle_accounts_key, handle_global_key, key_accepts, similar_updates, tag_category, tag_popup_for,
    DetailTab, Key, KeyAction, Navigation, NoteEditor, Overlays, ReportPeriod, SearchBox, TagState, UiState,
};
use banqline::summary::Period;

fn state(tab: DetailTab, accounts: usize) -> UiState {
    UiState {
        overlays: Overlays { help_open: false, refresh_open: false, refresh_done: false },
        note: NoteEditor {
            open: false,
            input: String::new(),
            cursor: 0,
            txn_id: String::new(),
            account_uid: String::new(),
        },
        search: SearchBox { open: false, input: String::new() },
        tag: TagState::default(),
        nav: Navigation {
            selected_account: 0,
            accounts_len: accounts,
            detail_tab: tab,
            txn_cursor: 0,
            txn_scroll: 0,
            pending_scroll: 0,
            filter: TxnFilter::default(),
            report_period: ReportPeriod::Month,
        },
    }
}

fn rules() -> Vec<String> {
    vec!["food".to_string(), "rent".to_string()]
}

#[test]
fn balance_type_names_are_readable() {
    assert_eq!(balance_type_name("ITBD"), "Interim Booked");
    assert_eq!(balance_type_name("CLBD"), "Closing Booked");
    assert_eq!(balance_type_name("OPNT"), "Opening Booked");
    assert_eq!(balance_type_name("XPCD"), "Expected");
    assert_eq!(balance_type_name("VALU"), "Value Dated");
    assert_eq!(balance_type_name("PRCD"), "PRCD");
}

#[test]
fn detail_tabs_in_order_with_counts() {
    let all = DetailTab::all();
    assert_eq!(
        all,
        vec![
            DetailTab::General,
            DetailTab::Pending,
            DetailTab::Transactions,
            DetailTab::AlertsByAccount,
            DetailTab::Report
        ]
    );
    assert_eq!(DetailTab::Pending.label(3, 0), "Pending(3)");
    assert_eq!(DetailTab::AlertsByAccount.label(0, 12), "Alerts(12)");
    assert_eq!(DetailTab::Report.label(1, 1), "Report");
    assert_eq!(ReportPeriod::Week.to_aggregator(), Period::Week);
}

#[test]
fn help_overlay_swallows_keys_until_closed() {
    let mut s = state(DetailTab::Transactions, 2);
    assert_eq!(handle_global_key(&mut s, Key::Char('?')), Some(KeyAction::Nothing));
    assert!(s.overlays.help_open);
    assert_eq!(handle_global_key(&mut s, Key::Char('q')), Some(KeyAction::Nothing));
    assert!(s.overlays.help_open);
    assert_eq!(handle_global_key(&mut s, Key::Esc), Some(KeyAction::Nothing));
    assert!(!s.overlays.help_open);
    assert_eq!(handle_global_key(&mut s, Key::Char('q')), Some(KeyAction::Quit));
    assert_eq!(handle_global_key(&mut s, Key::Char('r')), Some(KeyAction::StartRefresh));
    assert_eq!(handle_global_key(&mut s, Key::Char('j')), None);
}

#[test]
fn global_shortcuts_skipped_while_typing() {
    let mut s = state(DetailTab::Transactions, 2);
    s.search.open = true;
    assert_eq!(handle_global_key(&mut s, Key::Char('q')), None);
    let act = handle_accounts_key(&mut s, Key::Char('q'), &rules());
    assert_eq!(act, KeyAction::Nothing);
    assert_eq!(s.search.input, "q");
}

#[test]
fn finished_refresh_closes_on_enter() {
    let mut s = state(DetailTab::General, 1);
    s.overlays.refresh_open = true;
    s.overlays.refresh_done = true;
    assert_eq!(handle_global_key(&mut s, Key::Char('x')), Some(KeyAction::Nothing));
    assert!(s.overlays.refresh_open);
    assert_eq!(handle_global_key(&mut s, Key::Enter), Some(KeyAction::Nothing));
    assert!(!s.overlays.refresh_open && !s.overlays.refresh_done);
}

#[test]
fn note_editor_edits_at_cursor() {
    let mut s = state(DetailTab::Transactions, 1);
    s.note.open = true;
    s.note.input = "ab".to_string();
    s.note.cursor = 1;
    handle_accounts_key(&mut s, Key::Char('X'), &rules());
    assert_eq!(s.note.input, "aXb");
    assert_eq!(s.note.cursor, 2);
    handle_accounts_key(&mut s, Key::Backspace, &rules());
    assert_eq!(s.note.input, "ab");
    assert_eq!(s.note.cursor, 1);
    handle_accounts_key(&mut s, Key::Home, &rules());
    handle_accounts_key(&mut s, Key::Delete, &rules());
    assert_eq!(s.note.input, "b");
    handle_accounts_key(&mut s, Key::End, &rules());
    assert_eq!(s.note.cursor, 1);
    handle_accounts_key(&mut s, Key::Right, &rules());
    assert_eq!(s.note.cursor, 1);
    assert_eq!(handle_accounts_key(&mut s, Key::Enter, &rules()), KeyAction::SaveNote);
    handle_accounts_key(&mut s, Key::Esc, &rules());
    assert!(!s.note.open);
}

#[test]
fn search_enter_applies_filter_and_resets_position() {
    let mut s = state(DetailTab::Transactions, 1);
    s.nav.txn_cursor = 4;
    s.nav.txn_scroll = 2;
    handle_accounts_key(&mut s, Key::Char('/'), &rules());
    assert!(s.search.open);
    for c in "coffee".chars() {
        handle_accounts_key(&mut s, Key::Char(c), &rules());
    }
    handle_accounts_key(&mut s, Key::Backspace, &rules());
    handle_accounts_key(&mut s, Key::Enter, &rules());
    assert!(!s.search.open);
    assert_eq!(s.nav.filter.search, "coffe");
    assert!(s.nav.filter.active);
    assert_eq!((s.nav.txn_cursor, s.nav.txn_scroll), (0, 0));
}

#[test]
fn account_navigation_and_tabs() {
    let mut s = state(DetailTab::General, 2);
    s.nav.pending_scroll = 3;
    assert_eq!(handle_accounts_key(&mut s, Key::Char('j'), &rules()), KeyAction::SelectAccount(1));
    assert_eq!(s.nav.pending_scroll, 0);
    assert_eq!(handle_accounts_key(&mut s, Key::Char('j'), &rules()), KeyAction::Nothing);
    assert_eq!(s.nav.selected_account, 1);
    assert_eq!(handle_accounts_key(&mut s, Key::Char('k'), &rules()), KeyAction::SelectAccount(0));
    handle_accounts_key(&mut s, Key::Left, &rules());
    assert_eq!(s.nav.detail_tab, DetailTab::Report);
    handle_accounts_key(&mut s, Key::Char('w'), &rules());
    assert_eq!(s.nav.report_period, ReportPeriod::Week);
    handle_accounts_key(&mut s, Key::Right, &rules());
    handle_accounts_key(&mut s, Key::Right, &rules());
    assert_eq!(s.nav.detail_tab, DetailTab::Pending);
    handle_accounts_key(&mut s, Key::Down, &rules());
    assert_eq!(s.nav.pending_scroll, 1);
}

#[test]
fn transaction_cursor_scrolls_at_top_edge() {
    let mut s = state(DetailTab::Transactions, 1);
    s.nav.txn_cursor = 5;
    s.nav.txn_scroll = 5;
    handle_accounts_key(&mut s, Key::Up, &rules());
    assert_eq!((s.nav.txn_cursor, s.nav.txn_scroll), (4, 4));
    handle_accounts_key(&mut s, Key::Down, &rules());
    assert_eq!((s.nav.txn_cursor, s.nav.txn_scroll), (5, 4));
}

#[test]
fn category_and_direction_filters_cycle() {
    let mut s = state(DetailTab::Transactions, 1);
    handle_accounts_key(&mut s, Key::Char('c'), &rules());
    assert_eq!(s.nav.filter.category.as_deref(), Some("food"));
    handle_accounts_key(&mut s, Key::Char('c'), &rules());
    assert_eq!(s.nav.filter.category.as_deref(), Some("rent"));
    handle_accounts_key(&mut s, Key::Char('c'), &rules());
    assert_eq!(s.nav.filter.category.as_deref(), Some("uncategorized"));
    handle_accounts_key(&mut s, Key::Char('c'), &rules());
    assert_eq!(s.nav.filter.category, None);
    assert!(!s.nav.filter.active);
    handle_accounts_key(&mut s, Key::Char('d'), &rules());
    assert_eq!(s.nav.filter.direction.as_deref(), Some("DBIT"));
    handle_accounts_key(&mut s, Key::Char('d'), &rules());
    assert_eq!(s.nav.filter.direction.as_deref(), Some("CRDT"));
    handle_accounts_key(&mut s, Key::Char('d'), &rules());
    assert_eq!(s.nav.filter.direction, None);
    assert!(s.nav.filter.active);
    handle_accounts_key(&mut s, Key::Char('f'), &rules());
    assert!(!s.nav.filter.active);
}

#[test]
fn transaction_keys_only_on_transactions_tab() {
    let mut s = state(DetailTab::General, 1);
    assert_eq!(handle_accounts_key(&mut s, Key::Char('t'), &rules()), KeyAction::Nothing);
    s.nav.detail_tab = DetailTab::Transactions;
    assert_eq!(handle_accounts_key(&mut s, Key::Char('t'), &rules()), KeyAction::OpenTagPopup);
    assert_eq!(handle_accounts_key(&mut s, Key::Char('n'), &rules()), KeyAction::OpenNotePopup);
}

fn coffee() -> TransactionRecord {
    TransactionRecord {
        account_uid: "acc".into(),
        transaction_id: "t1".into(),
        amount: "4.50".into(),
        currency: "EUR".into(),
        remittance_info: vec!["Starbucks Paris".into(), "card 1234".into()],
        ..Default::default()
    }
}

#[test]
fn tag_popup_suggests_first_word() {
    let tag = tag_popup_for(&coffee(), &rules());
    assert!(tag.open);
    assert_eq!(tag.transaction_id, "t1");
    assert_eq!(tag.description, "Starbucks Paris card 1234");
    assert_eq!(tag.pattern, "starbucks");
    assert_eq!(tag.categories, rules());
    assert_eq!(tag.selected_category, 0);
}

#[test]
fn tag_popup_keys_select_and_apply() {
    let mut s = state(DetailTab::Transactions, 1);
    s.tag = tag_popup_for(&coffee(), &rules());
    handle_accounts_key(&mut s, Key::Down, &rules());
    handle_accounts_key(&mut s, Key::Down, &rules());
    assert_eq!(s.tag.selected_category, 1);
    assert_eq!(tag_category(&s.tag), "rent");
    handle_accounts_key(&mut s, Key::Char('x'), &rules());
    assert_eq!(tag_category(&s.tag), "x");
    handle_accounts_key(&mut s, Key::Backspace, &rules());
    assert_eq!(tag_category(&s.tag), "rent");
    assert_eq!(handle_accounts_key(&mut s, Key::Char('A'), &rules()), KeyAction::ApplyTag);
    assert!(s.tag.apply_similar);
    assert!(!s.tag.open);
}

#[test]
fn tag_popup_s_skips() {
    let mut s = state(DetailTab::Transactions, 1);
    s.tag = tag_popup_for(&coffee(), &rules());
    assert_eq!(handle_accounts_key(&mut s, Key::Char('s'), &rules()), KeyAction::Nothing);
    assert!(!s.tag.open);
    assert_eq!(s.tag.new_category_input, "");
}

#[test]
fn similar_updates_skip_manual_tags() {
    let mut manual = coffee();
    manual.transaction_id = "t2".into();
    manual.category_source = "manual".into();
    let mut other = coffee();
    other.transaction_id = "t3".into();
    other.remittance_info = vec!["Bakery".into()];
    let mut again = coffee();
    again.transaction_id = "t4".into();
    let txns = vec![coffee(), manual, other, again];
    let ups = similar_updates(&txns, "acc", "coffee", "starbucks");
    let ids: Vec<&str> = ups.iter().map(|u| u.transaction_id.as_str()).collect();
    assert_eq!(ids, vec!["t1", "t4"]);
    assert!(ups.iter().all(|u| u.category == "coffee" && u.source == "auto" && u.account_uid == "acc"));
}

#[test]
fn key_accepts_checks_note_boundaries() {
    let mut s = state(DetailTab::Transactions, 1);
    assert!(key_accepts(&s, Key::Char('x')));
    s.note.open = true;
    s.note.input = "é".to_string();
    s.note.cursor = 1;
    assert!(!key_accepts(&s, Key::Char('x')));
    assert!(!key_accepts(&s, Key::Delete));
    assert!(key_accepts(&s, Key::Left));
    s.note.cursor = 2;
    assert!(key_accepts(&s, Key::Char('x')));
    assert!(!key_accepts(&s, Key::Backspace));
    s.note.cursor = 3;
    assert!(!key_accepts(&s, Key::Left));
}
