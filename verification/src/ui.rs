use vstd::prelude::*;
use vstd::utf8::{encode_utf8, is_char_boundary};

use crate::listing::{description_spec, description_without_note, TxnFilter};
use crate::models::{CategoryUpdate, TransactionRecord};
use crate::summary::Period;
use crate::tagger::{normalize, normalize_spec};
use crate::text::{
    chars_of, concat, contains_str, copy_str, has_sub, is_ws, is_ws_spec, push_char, str_eq,
    string_of, to_lower, to_upper, unicode_lower, unicode_upper, views,
};

verus! {

// ---------------------------------------------------------------------------
// Labels
// ---------------------------------------------------------------------------

pub open spec fn balance_type_name_spec(btype: Seq<char>) -> Seq<char> {
    if btype == "ITBD"@ {
        "Interim Booked"@
    } else if btype == "CLBD"@ {
        "Closing Booked"@
    } else if btype == "OPNT"@ {
        "Opening Booked"@
    } else if btype == "XPCD"@ {
        "Expected"@
    } else if btype == "VALU"@ {
        "Value Dated"@
    } else {
        btype
    }
}

/// The readable name of a balance type code; unknown codes as they are.
pub fn balance_type_name(btype: &str) -> (r: String)
    ensures
        r@ == balance_type_name_spec(btype@),
{
    if str_eq(btype, "ITBD") {
        copy_str("Interim Booked")
    } else if str_eq(btype, "CLBD") {
        copy_str("Closing Booked")
    } else if str_eq(btype, "OPNT") {
        copy_str("Opening Booked")
    } else if str_eq(btype, "XPCD") {
        copy_str("Expected")
    } else if str_eq(btype, "VALU") {
        copy_str("Value Dated")
    } else {
        copy_str(btype)
    }
}

/// The tabs of the account detail pane.
#[derive(Debug, Clone, Copy, PartialEq, Eq, Structural)]
pub enum DetailTab {
    General,
    Pending,
    Transactions,
    AlertsByAccount,
    Report,
}

pub open spec fn tab_index(t: DetailTab) -> int {
    match t {
        DetailTab::General => 0,
        DetailTab::Pending => 1,
        DetailTab::Transactions => 2,
        DetailTab::AlertsByAccount => 3,
        DetailTab::Report => 4,
    }
}

pub open spec fn tab_at(i: int) -> DetailTab {
    if i == 0 {
        DetailTab::General
    } else if i == 1 {
        DetailTab::Pending
    } else if i == 2 {
        DetailTab::Transactions
    } else if i == 3 {
        DetailTab::AlertsByAccount
    } else {
        DetailTab::Report
    }
}

impl DetailTab {
    /// The tabs, in display order.
    pub fn all() -> (r: Vec<DetailTab>)
        ensures
            r@.len() == 5,
            forall|i: int| 0 <= i < 5 ==> #[trigger] r@[i] == tab_at(i),
    {
        let mut v: Vec<DetailTab> = Vec::new();
        v.push(DetailTab::General);
        v.push(DetailTab::Pending);
        v.push(DetailTab::Transactions);
        v.push(DetailTab::AlertsByAccount);
        v.push(DetailTab::Report);
        v
    }

    /// The tab's title; the pending and alert tabs show their counts.
    pub fn label(&self, pending_count: usize, alert_count: usize) -> (r: String)
        ensures
            r@ == match *self {
                DetailTab::General => "General"@,
                DetailTab::Pending => "Pending("@ + crate::text::nat_digits(pending_count as nat) + ")"@,
                DetailTab::Transactions => "Transactions"@,
                DetailTab::AlertsByAccount => "Alerts("@ + crate::text::nat_digits(alert_count as nat) + ")"@,
                DetailTab::Report => "Report"@,
            },
    {
        match self {
            DetailTab::General => copy_str("General"),
            DetailTab::Pending => {
                let mut s = concat("Pending(", crate::text::u64_to_string(pending_count as u64).as_str());
                crate::text::push_str(&mut s, ")");
                s
            },
            DetailTab::Transactions => copy_str("Transactions"),
            DetailTab::AlertsByAccount => {
                let mut s = concat("Alerts(", crate::text::u64_to_string(alert_count as u64).as_str());
                crate::text::push_str(&mut s, ")");
                s
            },
            DetailTab::Report => copy_str("Report"),
        }
    }
}

/// The period of the report tab.
#[derive(Debug, Clone, Copy, PartialEq, Eq, Structural)]
pub enum ReportPeriod {
    Day,
    Week,
    Month,
}

impl ReportPeriod {
    pub fn to_aggregator(self) -> (r: Period)
        ensures
            r == match self {
                ReportPeriod::Day => Period::Day,
                ReportPeriod::Week => Period::Week,
                ReportPeriod::Month => Period::Month,
            },
    {
        match self {
            ReportPeriod::Day => Period::Day,
            ReportPeriod::Week => Period::Week,
            ReportPeriod::Month => Period::Month,
        }
    }
}

// ---------------------------------------------------------------------------
// Tagging popup
// ---------------------------------------------------------------------------

/// The tagging popup.
#[derive(Debug, Clone)]
pub struct TagState {
    pub open: bool,
    pub transaction_id: String,
    pub description: String,
    pub amount: String,
    pub currency: String,
    pub selected_category: usize,
    pub categories: Vec<String>,
    pub new_category_input: String,
    pub pattern: String,
    pub apply_similar: bool,
}

impl Default for TagState {
    fn default() -> (r: Self)
        ensures
            !r.open,
            r.transaction_id@.len() == 0,
            r.selected_category == 0,
            views(r.categories@) == seq!["uncategorized"@],
            r.new_category_input@.len() == 0,
            r.pattern@.len() == 0,
            !r.apply_similar,
    {
        let mut categories: Vec<String> = Vec::new();
        categories.push(copy_str("uncategorized"));
        assert(views(categories@) =~= seq!["uncategorized"@]);
        TagState {
            open: false,
            transaction_id: String::new(),
            description: String::new(),
            amount: String::new(),
            currency: String::new(),
            selected_category: 0,
            categories,
            new_category_input: String::new(),
            pattern: String::new(),
            apply_similar: false,
        }
    }
}

/// The first white-space separated word of `s`, empty when there is none.
pub open spec fn first_word(s: Seq<char>) -> Seq<char>
    decreases s.len(),
{
    if s.len() == 0 {
        Seq::<char>::empty()
    } else if is_ws_spec(s[0]) {
        first_word(s.drop_first())
    } else {
        word_prefix(s)
    }
}

/// The leading run of non-white-space characters of `s`.
pub open spec fn word_prefix(s: Seq<char>) -> Seq<char>
    decreases s.len(),
{
    if s.len() == 0 || is_ws_spec(s[0]) {
        Seq::<char>::empty()
    } else {
        seq![s[0]] + word_prefix(s.drop_first())
    }
}

fn first_word_of(s: &str) -> (r: String)
    ensures
        r@ == first_word(s@),
{
    let cs = chars_of(s);
    let mut i: usize = 0;
    assert(s@.skip(0) =~= s@);
    while i < cs.len() && is_ws(cs[i])
        invariant
            i <= cs@.len(),
            cs@ == s@,
            first_word(s@) == first_word(s@.skip(i as int)),
        decreases cs.len() - i,
    {
        assert(s@.skip(i as int).drop_first() =~= s@.skip(i + 1));
        i = i + 1;
    }
    let start = i;
    let mut out: Vec<char> = Vec::new();
    proof {
        if i < cs@.len() {
            assert(s@.skip(i as int)[0] == cs@[i as int]);
        }
    }
    assert(word_prefix(s@.skip(start as int)) == out@ + word_prefix(s@.skip(i as int)));
    while i < cs.len() && !is_ws(cs[i])
        invariant
            start <= i <= cs@.len(),
            cs@ == s@,
            word_prefix(s@.skip(start as int)) == out@ + word_prefix(s@.skip(i as int)),
        decreases cs.len() - i,
    {
        let ghost before = out@;
        out.push(cs[i]);
        proof {
            assert(s@.skip(i as int)[0] == cs@[i as int]);
            assert(s@.skip(i as int).drop_first() =~= s@.skip(i + 1));
            assert(word_prefix(s@.skip(i as int)) == seq![cs@[i as int]] + word_prefix(s@.skip(i + 1)));
            assert(before + (seq![cs@[i as int]] + word_prefix(s@.skip(i + 1))) =~= out@ + word_prefix(s@.skip(i + 1)));
        }
        i = i + 1;
    }
    proof {
        if i < cs@.len() {
            assert(s@.skip(i as int)[0] == cs@[i as int]);
        }
        assert(word_prefix(s@.skip(i as int)) =~= Seq::<char>::empty());
        assert(out@ =~= word_prefix(s@.skip(start as int)));
        if start < cs@.len() {
            assert(s@.skip(start as int)[0] == cs@[start as int]);
        } else {
            assert(s@.skip(start as int).len() == 0);
        }
    }
    string_of(&out)
}

/// The popup for tagging a transaction: its description, a suggested pattern
/// (the description's first word, lower-cased) and the rule categories.
pub open spec fn tag_popup_spec(t: TagState, tx: TransactionRecord, rule_categories: Seq<Seq<char>>) -> bool {
    &&& t.open
    &&& t.transaction_id@ == tx.transaction_id@
    &&& t.description@ == description_spec(tx)
    &&& t.amount@ == tx.amount@
    &&& t.currency@ == tx.currency@
    &&& t.selected_category == 0
    &&& views(t.categories@) == rule_categories
    &&& t.new_category_input@.len() == 0
    &&& t.pattern@ == unicode_lower(first_word(description_spec(tx)))
    &&& !t.apply_similar
}

fn copy_names(v: &Vec<String>) -> (r: Vec<String>)
    ensures
        views(r@) == views(v@),
{
    let mut out: Vec<String> = Vec::new();
    let mut i: usize = 0;
    while i < v.len()
        invariant
            i <= v@.len(),
            views(out@) == views(v@).take(i as int),
        decreases v.len() - i,
    {
        let ghost before = out@;
        let c = copy_str(v[i].as_str());
        out.push(c);
        assert(views(out@) =~= views(before).push(c@));
        assert(views(v@).take(i + 1) =~= views(v@).take(i as int).push(v@[i as int]@));
        i = i + 1;
    }
    assert(views(v@).take(v@.len() as int) =~= views(v@));
    out
}

/// The tagging popup for a transaction, offering the rule categories.
pub fn tag_popup_for(tx: &TransactionRecord, rule_categories: &Vec<String>) -> (r: TagState)
    ensures
        tag_popup_spec(r, *tx, views(rule_categories@)),
{
    let desc = description_without_note(tx);
    let word = first_word_of(desc.as_str());
    let pattern = to_lower(word.as_str());
    TagState {
        open: true,
        transaction_id: copy_str(tx.transaction_id.as_str()),
        description: desc,
        amount: copy_str(tx.amount.as_str()),
        currency: copy_str(tx.currency.as_str()),
        selected_category: 0,
        categories: copy_names(rule_categories),
        new_category_input: String::new(),
        pattern,
        apply_similar: false,
    }
}

/// The category a tagging applies: the typed one, else the selected one,
/// else `uncategorized`.
pub open spec fn chosen_category(t: TagState) -> Seq<char> {
    if t.new_category_input@.len() > 0 {
        t.new_category_input@
    } else if t.selected_category < t.categories@.len() {
        t.categories@[t.selected_category as int]@
    } else {
        "uncategorized"@
    }
}

pub fn tag_category(t: &TagState) -> (r: String)
    ensures
        r@ == chosen_category(*t),
{
    if !t.new_category_input.as_str().is_empty() {
        copy_str(t.new_category_input.as_str())
    } else if t.selected_category < t.categories.len() {
        copy_str(t.categories[t.selected_category].as_str())
    } else {
        copy_str("uncategorized")
    }
}

/// A transaction that tagging "similar" re-categorizes: not tagged by hand,
/// and its normalized text holds the upper-cased pattern.
pub open spec fn similar_to(tx: TransactionRecord, pattern: Seq<char>) -> bool {
    &&& tx.category_source@ != "manual"@
    &&& has_sub(
        normalize_spec(tx.remittance_info@, tx.creditor_name@, tx.debtor_name@, tx.note@),
        unicode_upper(pattern),
    )
}

pub open spec fn update_for(u: CategoryUpdate, uid: Seq<char>, tx: TransactionRecord, category: Seq<char>) -> bool {
    &&& u.account_uid@ == uid
    &&& u.transaction_id@ == tx.transaction_id@
    &&& u.category@ == category
    &&& u.source@ == "auto"@
}

/// The transactions among `txns` that tagging "similar" re-categorizes, in
/// order.
pub open spec fn similar_positions(txns: Seq<TransactionRecord>, pattern: Seq<char>, n: int) -> Seq<int>
    decreases n,
{
    if n <= 0 {
        Seq::<int>::empty()
    } else {
        let p = similar_positions(txns, pattern, n - 1);
        if similar_to(txns[n - 1], pattern) {
            p.push(n - 1)
        } else {
            p
        }
    }
}

/// The category updates of tagging "similar": one automatic update to
/// `category` per similar transaction, in order.
pub fn similar_updates(txns: &[TransactionRecord], uid: &str, category: &str, pattern: &str) -> (r: Vec<CategoryUpdate>)
    ensures
        r@.len() == similar_positions(txns@, pattern@, txns@.len() as int).len(),
        forall|k: int| 0 <= k < r@.len() ==> update_for(
            #[trigger] r@[k],
            uid@,
            txns@[similar_positions(txns@, pattern@, txns@.len() as int)[k]],
            category@,
        ),
{
    let upper = to_upper(pattern);
    let mut out: Vec<CategoryUpdate> = Vec::new();
    let mut i: usize = 0;
    while i < txns.len()
        invariant
            i <= txns@.len(),
            upper@ == unicode_upper(pattern@),
            out@.len() == similar_positions(txns@, pattern@, i as int).len(),
            forall|k: int| 0 <= k < out@.len() ==> update_for(
                #[trigger] out@[k],
                uid@,
                txns@[similar_positions(txns@, pattern@, i as int)[k]],
                category@,
            ),
        decreases txns.len() - i,
    {
        let tx = &txns[i];
        if !str_eq(tx.category_source.as_str(), "manual") {
            let norm = normalize(&tx.remittance_info, tx.creditor_name.as_str(), tx.debtor_name.as_str(), tx.note.as_str());
            if contains_str(norm.as_str(), upper.as_str()) {
                let ghost before = out@;
                out.push(CategoryUpdate {
                    account_uid: copy_str(uid),
                    transaction_id: copy_str(tx.transaction_id.as_str()),
                    category: copy_str(category),
                    source: copy_str("auto"),
                });
                proof {
                    assert forall|k: int| 0 <= k < out@.len() implies update_for(
                        #[trigger] out@[k],
                        uid@,
                        txns@[similar_positions(txns@, pattern@, i + 1)[k]],
                        category@,
                    ) by {
                        if k < before.len() {
                            assert(out@[k] == before[k]);
                        }
                    }
                }
            }
        }
        i = i + 1;
    }
    out
}

// ---------------------------------------------------------------------------
// Keys
// ---------------------------------------------------------------------------

/// A key press, as the terminal reports it.
#[derive(Debug, Clone, Copy, PartialEq, Eq, Structural)]
pub enum Key {
    Char(char),
    Enter,
    Esc,
    Left,
    Right,
    Up,
    Down,
    Backspace,
    Delete,
    Home,
    End,
    Other,
}

/// The help and refresh overlays.
#[derive(Debug, Clone, Copy, PartialEq, Eq, Structural)]
pub struct Overlays {
    pub help_open: bool,
    pub refresh_open: bool,
    pub refresh_done: bool,
}

/// The note editor; its cursor is a byte position in the note.
#[derive(Debug, Clone)]
pub struct NoteEditor {
    pub open: bool,
    pub input: String,
    pub cursor: usize,
    pub txn_id: String,
    pub account_uid: String,
}

/// The search box.
#[derive(Debug, Clone)]
pub struct SearchBox {
    pub open: bool,
    pub input: String,
}

/// Where the user is in the account list and its detail pane.
#[derive(Debug, Clone)]
pub struct Navigation {
    pub selected_account: usize,
    pub accounts_len: usize,
    pub detail_tab: DetailTab,
    pub txn_cursor: usize,
    pub txn_scroll: usize,
    pub pending_scroll: usize,
    pub filter: TxnFilter,
    pub report_period: ReportPeriod,
}

/// The interactive state that keys change.
#[derive(Debug, Clone)]
pub struct UiState {
    pub overlays: Overlays,
    pub note: NoteEditor,
    pub search: SearchBox,
    pub tag: TagState,
    pub nav: Navigation,
}

/// What the application does after a key, beyond the state change.
#[derive(Debug, Clone, Copy, PartialEq, Eq, Structural)]
pub enum KeyAction {
    Nothing,
    Quit,
    StartRefresh,
    SaveNote,
    ApplyTag,
    OpenNotePopup,
    OpenTagPopup,
    SelectAccount(usize),
}

pub open spec fn note_bytes(s: UiState) -> Seq<u8> {
    encode_utf8(s.note.input@)
}

/// The note editor's byte edits happen on character boundaries (the cursor
/// moves by bytes, and `String::insert`/`remove` panic off a boundary), and
/// the counters it bumps stay below their maximum.
pub open spec fn key_defined(s: UiState, key: Key) -> bool {
    let b = note_bytes(s);
    &&& b.len() < usize::MAX
    &&& s.nav.txn_cursor < usize::MAX
    &&& s.nav.pending_scroll < usize::MAX
    &&& s.note.cursor <= b.len()
    &&& (s.note.open && !s.overlays.help_open && !(s.overlays.refresh_open && s.overlays.refresh_done)) ==> match key {
        Key::Char(_) => is_char_boundary(b, s.note.cursor as int),
        Key::Backspace => s.note.cursor > 0 ==> is_char_boundary(b, s.note.cursor - 1),
        Key::Delete => s.note.cursor < b.len() ==> is_char_boundary(b, s.note.cursor as int),
        _ => true,
    }
}

/// Whether `key` can be handled in state `s` (`key_defined`).
pub fn key_accepts(s: &UiState, key: Key) -> (r: bool)
    ensures
        r == key_defined(*s, key),
{
    let input = s.note.input.as_str();
    let len = crate::output::byte_count(input);
    if !(len < usize::MAX && s.nav.txn_cursor < usize::MAX && s.nav.pending_scroll < usize::MAX && s.note.cursor
        <= len) {
        return false;
    }
    if !(s.note.open && !s.overlays.help_open && !(s.overlays.refresh_open && s.overlays.refresh_done)) {
        return true;
    }
    match key {
        Key::Char(_) => input.is_char_boundary(s.note.cursor),
        Key::Backspace => s.note.cursor == 0 || input.is_char_boundary(s.note.cursor - 1),
        Key::Delete => s.note.cursor >= len || input.is_char_boundary(s.note.cursor),
        _ => true,
    }
}

/// Calls `String::insert`. Claimed, as its documentation says: the
/// character's encoding is inserted at the byte position, which lies on a
/// character boundary.
#[verifier::external_body]
fn string_insert(s: &mut String, idx: usize, c: char)
    requires
        is_char_boundary(encode_utf8(old(s)@), idx as int),
    ensures
        encode_utf8(final(s)@) == encode_utf8(old(s)@).take(idx as int) + encode_utf8(seq![c]) + encode_utf8(
            old(s)@,
        ).skip(idx as int),
{
    s.insert(idx, c)
}

/// Calls `String::remove`. Claimed, as its documentation says: the character
/// that starts at the byte position (a character boundary before the end) is
/// removed and returned.
#[verifier::external_body]
fn string_remove(s: &mut String, idx: usize) -> (r: char)
    requires
        is_char_boundary(encode_utf8(old(s)@), idx as int),
        idx < encode_utf8(old(s)@).len(),
    ensures
        encode_utf8(old(s)@).skip(idx as int).take(encode_utf8(seq![r]).len() as int) == encode_utf8(seq![r]),
        encode_utf8(final(s)@) == encode_utf8(old(s)@).take(idx as int) + encode_utf8(old(s)@).skip(
            idx + encode_utf8(seq![r]).len(),
        ),
{
    s.remove(idx)
}

/// Calls `String::pop`. Claimed, as its documentation says: the last
/// character is removed and returned, `None` for an empty string.
#[verifier::external_body]
fn string_pop(s: &mut String) -> (r: Option<char>)
    ensures
        old(s)@.len() == 0 ==> r is None && final(s)@ == old(s)@,
        old(s)@.len() > 0 ==> r == Some(old(s)@.last()) && final(s)@ == old(s)@.drop_last(),
{
    s.pop()
}

/// The note editor's change for a key: Enter saves, Esc closes, the arrows,
/// Home and End move the byte cursor, Backspace and Delete remove the
/// character before or at the cursor, a character is inserted at it.
pub open spec fn note_key_ok(o: UiState, n: UiState, key: Key, act: KeyAction) -> bool {
    let b = note_bytes(o);
    let nb = note_bytes(n);
    &&& n.overlays == o.overlays && n.search == o.search && n.tag == o.tag && n.nav == o.nav
    &&& n.note.txn_id == o.note.txn_id && n.note.account_uid == o.note.account_uid
    &&& act == (if key == Key::Enter { KeyAction::SaveNote } else { KeyAction::Nothing })
    &&& n.note.open == (key != Key::Esc)
    &&& match key {
        Key::Left => nb == b && n.note.cursor == (if o.note.cursor > 0 { o.note.cursor - 1 } else { 0 }),
        Key::Right => nb == b && n.note.cursor == (if o.note.cursor < b.len() { o.note.cursor + 1 } else { o.note.cursor as int }),
        Key::Home => nb == b && n.note.cursor == 0,
        Key::End => nb == b && n.note.cursor == b.len(),
        Key::Backspace => if o.note.cursor > 0 {
            n.note.cursor == o.note.cursor - 1 && exists|c: char|
                b.skip(o.note.cursor - 1).take(encode_utf8(seq![c]).len() as int) == encode_utf8(seq![c]) && nb
                    == b.take(o.note.cursor - 1) + b.skip(o.note.cursor - 1 + encode_utf8(seq![c]).len())
        } else {
            nb == b && n.note.cursor == o.note.cursor
        },
        Key::Delete => n.note.cursor == o.note.cursor && if o.note.cursor < b.len() {
            exists|c: char|
                b.skip(o.note.cursor as int).take(encode_utf8(seq![c]).len() as int) == encode_utf8(seq![c]) && nb
                    == b.take(o.note.cursor as int) + b.skip(o.note.cursor + encode_utf8(seq![c]).len())
        } else {
            nb == b
        },
        Key::Char(c) => n.note.cursor == o.note.cursor + 1 && nb == b.take(o.note.cursor as int) + encode_utf8(seq![c])
            + b.skip(o.note.cursor as int),
        _ => nb == b && n.note.cursor == o.note.cursor,
    }
}

/// The search box's change for a key: Enter applies the search (and resets
/// the list position), Esc closes, Backspace removes the last character, a
/// character is appended.
pub open spec fn search_key_ok(o: UiState, n: UiState, key: Key, act: KeyAction) -> bool {
    &&& n.overlays == o.overlays && n.note == o.note && n.tag == o.tag
    &&& act == KeyAction::Nothing
    &&& match key {
        Key::Enter => {
            &&& !n.search.open && n.search.input == o.search.input
            &&& n.nav.filter.search@ == o.search.input@
            &&& n.nav.filter.active == (o.search.input@.len() > 0)
            &&& n.nav.filter.category == o.nav.filter.category && n.nav.filter.direction == o.nav.filter.direction
            &&& n.nav.txn_cursor == 0 && n.nav.txn_scroll == 0
            &&& n.nav.selected_account == o.nav.selected_account && n.nav.accounts_len == o.nav.accounts_len
            &&& n.nav.detail_tab == o.nav.detail_tab && n.nav.pending_scroll == o.nav.pending_scroll
            &&& n.nav.report_period == o.nav.report_period
        },
        Key::Esc => !n.search.open && n.search.input == o.search.input && n.nav == o.nav,
        Key::Backspace => n.search.open == o.search.open && n.search.input@ == (if o.search.input@.len() > 0 {
            o.search.input@.drop_last()
        } else {
            o.search.input@
        }) && n.nav == o.nav,
        Key::Char(c) => n.search.open == o.search.open && n.search.input@ == o.search.input@.push(c) && n.nav == o.nav,
        _ => n.search == o.search && n.nav == o.nav,
    }
}

/// The tagging popup's change for a key: Enter applies the tag and closes,
/// `s` closes, `A` applies to similar transactions and closes, the arrows
/// move the selection within the categories, Backspace and characters edit
/// the new category.
pub open spec fn tag_key_ok(o: UiState, n: UiState, key: Key, act: KeyAction) -> bool {
    let t = o.tag;
    let u = n.tag;
    &&& n.overlays == o.overlays && n.note == o.note && n.search == o.search && n.nav == o.nav
    &&& u.transaction_id == t.transaction_id && u.description == t.description && u.amount == t.amount
    &&& u.currency == t.currency && u.categories == t.categories && u.pattern == t.pattern
    &&& act == (if key == Key::Enter || key == Key::Char('A') { KeyAction::ApplyTag } else { KeyAction::Nothing })
    &&& u.open == !(key == Key::Enter || key == Key::Char('s') || key == Key::Char('A'))
    &&& u.apply_similar == (t.apply_similar || key == Key::Char('A'))
    &&& u.selected_category == match key {
        Key::Up => if t.selected_category > 0 { t.selected_category - 1 } else { 0 },
        Key::Down => if t.selected_category + 1 < t.categories@.len() {
            t.selected_category + 1
        } else {
            t.selected_category as int
        },
        _ => t.selected_category as int,
    }
    &&& u.new_category_input@ == match key {
        Key::Backspace => if t.new_category_input@.len() > 0 {
            t.new_category_input@.drop_last()
        } else {
            t.new_category_input@
        },
        Key::Char(c) => if c == 's' || c == 'A' {
            t.new_category_input@
        } else {
            t.new_category_input@.push(c)
        },
        _ => t.new_category_input@,
    }
}

/// The categories the `c` key cycles through: the rule categories, then
/// `uncategorized`.
pub open spec fn cycle_categories(rule_categories: Seq<Seq<char>>) -> Seq<Seq<char>> {
    rule_categories.push("uncategorized"@)
}

/// The category filter after `c`: the next category after the current one,
/// none after the last, the first when the current one is not listed.
pub open spec fn next_category(cats: Seq<Seq<char>>, current: Option<Seq<char>>) -> Option<Seq<char>> {
    match crate::text::first_index(cats, is_current(current)) {
        Some(pos) => if pos + 1 < cats.len() {
            Some(cats[pos + 1])
        } else {
            None
        },
        None => Some(cats[0]),
    }
}

/// The category filter's test for the current category.
pub open spec fn is_current(current: Option<Seq<char>>) -> spec_fn(Seq<char>) -> bool {
    |x: Seq<char>| current == Some(x)
}

pub open spec fn opt_view(o: Option<String>) -> Option<Seq<char>> {
    match o {
        Some(s) => Some(s@),
        None => None,
    }
}

/// The direction filter after `d`: none, then debits, then credits, then none.
pub open spec fn next_direction(d: Option<Seq<char>>) -> Option<Seq<char>> {
    match d {
        None => Some("DBIT"@),
        Some(x) => if x == "DBIT"@ {
            Some("CRDT"@)
        } else {
            None
        },
    }
}

/// Switching tabs: `Left` undoes `Right`, and `Right` undoes `Left`.
pub proof fn law_tab_left_undoes_right(t: DetailTab)
    ensures
        tab_at((tab_index(tab_at((tab_index(t) + 1) % 5)) + 4) % 5) == t,
        tab_at((tab_index(tab_at((tab_index(t) + 4) % 5)) + 1) % 5) == t,
{
}

/// The direction filter cycles: three presses of `d` give back the filter
/// it started from (none, debits or credits).
pub proof fn law_direction_cycle(d: Option<Seq<char>>)
    requires
        d is None || d == Some("DBIT"@) || d == Some("CRDT"@),
    ensures
        next_direction(next_direction(next_direction(d))) == d,
{
    reveal_strlit("DBIT");
    reveal_strlit("CRDT");
    assert("DBIT"@ != "CRDT"@) by {
        assert("DBIT"@[0] != "CRDT"@[0]);
    }
    if d is None {
        assert(next_direction(d) == Some("DBIT"@));
        assert(next_direction(Some("DBIT"@)) == Some("CRDT"@));
    } else if d == Some("DBIT"@) {
        assert(next_direction(d) == Some("CRDT"@));
    } else {
        assert(next_direction(d) is None);
        assert(next_direction(None::<Seq<char>>) == Some("DBIT"@));
    }
}

/// The list position is reset to the top.
pub open spec fn list_reset(o: Navigation, n: Navigation) -> bool {
    n.txn_cursor == 0 && n.txn_scroll == 0
}

/// Navigation keys in the main view.
pub open spec fn nav_key_ok(o: UiState, n: UiState, key: Key, rule_categories: Seq<Seq<char>>, act: KeyAction) -> bool {
    let a = o.nav;
    let b = n.nav;
    let on_txns = a.detail_tab == DetailTab::Transactions;
    let on_report = a.detail_tab == DetailTab::Report;
    &&& n.overlays == o.overlays && n.tag == o.tag
    &&& b.accounts_len == a.accounts_len
    &&& (key == Key::Char('j') && a.selected_account + 1 < a.accounts_len) ==> (b.selected_account == a.selected_account + 1
        && b.txn_cursor == 0 && b.txn_scroll == 0 && b.pending_scroll == 0 && act == KeyAction::SelectAccount(
        b.selected_account,
    ) && b.detail_tab == a.detail_tab && b.filter == a.filter && b.report_period == a.report_period)
    &&& (key == Key::Char('k') && a.selected_account > 0) ==> (b.selected_account == a.selected_account - 1
        && b.txn_cursor == 0 && b.txn_scroll == 0 && b.pending_scroll == 0 && act == KeyAction::SelectAccount(
        b.selected_account,
    ) && b.detail_tab == a.detail_tab && b.filter == a.filter && b.report_period == a.report_period)
    &&& key == Key::Up ==> (b.selected_account == a.selected_account && b.detail_tab == a.detail_tab && b.filter
        == a.filter && b.report_period == a.report_period && act == KeyAction::Nothing && if on_txns {
        b.pending_scroll == a.pending_scroll && if a.txn_cursor > 0 {
            b.txn_cursor == a.txn_cursor - 1 && b.txn_scroll == (if a.txn_cursor - 1 < a.txn_scroll {
                a.txn_cursor - 1
            } else {
                a.txn_scroll as int
            })
        } else {
            b.txn_cursor == a.txn_cursor && b.txn_scroll == a.txn_scroll
        }
    } else {
        b.txn_cursor == a.txn_cursor && b.txn_scroll == a.txn_scroll && b.pending_scroll == (if a.detail_tab
            == DetailTab::Pending && a.pending_scroll > 0 {
            a.pending_scroll - 1
        } else {
            a.pending_scroll as int
        })
    })
    &&& key == Key::Down ==> (b.selected_account == a.selected_account && b.detail_tab == a.detail_tab && b.filter
        == a.filter && b.report_period == a.report_period && act == KeyAction::Nothing && b.txn_scroll == a.txn_scroll
        && b.txn_cursor == (if on_txns { a.txn_cursor + 1 } else { a.txn_cursor as int }) && b.pending_scroll == (
    if a.detail_tab == DetailTab::Pending {
        a.pending_scroll + 1
    } else {
        a.pending_scroll as int
    }))
    &&& key == Key::Left ==> b.detail_tab == tab_at((tab_index(a.detail_tab) + 4) % 5) && act == KeyAction::Nothing
    &&& key == Key::Right ==> b.detail_tab == tab_at((tab_index(a.detail_tab) + 1) % 5) && act == KeyAction::Nothing
    &&& (key == Key::Char('/') && on_txns) ==> n.search.open && n.search.input@.len() == 0 && act == KeyAction::Nothing
    &&& !(key == Key::Char('/') && on_txns) ==> n.search == o.search
    &&& n.note == o.note
    &&& key == Key::Char('n') ==> act == (if on_txns { KeyAction::OpenNotePopup } else { KeyAction::Nothing })
    &&& key == Key::Char('t') ==> act == (if on_txns { KeyAction::OpenTagPopup } else { KeyAction::Nothing })
    &&& (key == Key::Char('f') && on_txns) ==> (b.filter.active == !a.filter.active && b.filter.category
        == a.filter.category && b.filter.direction == a.filter.direction && b.filter.search == a.filter.search
        && list_reset(a, b))
    &&& (key == Key::Char('c') && on_txns) ==> (opt_view(b.filter.category) == next_category(
        cycle_categories(rule_categories),
        opt_view(a.filter.category),
    ) && b.filter.active == (b.filter.category is Some) && b.filter.direction == a.filter.direction
        && b.filter.search == a.filter.search && list_reset(a, b))
    &&& (key == Key::Char('d') && on_txns) ==> (opt_view(b.filter.direction) == next_direction(
        opt_view(a.filter.direction),
    ) && b.filter.active && b.filter.category == a.filter.category && b.filter.search == a.filter.search
        && list_reset(a, b))
    &&& (on_report && key == Key::Char('m')) ==> b.report_period == ReportPeriod::Month
    &&& (on_report && key == Key::Char('w')) ==> b.report_period == ReportPeriod::Week
    &&& (on_report && key == Key::Char('D')) ==> b.report_period == ReportPeriod::Day
    &&& !(key == Key::Char('j') || key == Key::Char('k') || key == Key::Up || key == Key::Down || key == Key::Left
        || key == Key::Right || (on_txns && (key == Key::Char('f') || key == Key::Char('c') || key == Key::Char('d')))
        || (on_report && (key == Key::Char('m') || key == Key::Char('w') || key == Key::Char('D')))) ==> b == a
    &&& (key == Key::Left || key == Key::Right) ==> (b.selected_account == a.selected_account && b.txn_cursor
        == a.txn_cursor && b.txn_scroll == a.txn_scroll && b.pending_scroll == a.pending_scroll && b.filter == a.filter
        && b.report_period == a.report_period)
    &&& (on_report && (key == Key::Char('m') || key == Key::Char('w') || key == Key::Char('D'))) ==> (b.selected_account
        == a.selected_account && b.txn_cursor == a.txn_cursor && b.txn_scroll == a.txn_scroll && b.pending_scroll
        == a.pending_scroll && b.filter == a.filter && b.detail_tab == a.detail_tab && act == KeyAction::Nothing)
    &&& ((key == Key::Char('j') && !(a.selected_account + 1 < a.accounts_len)) || (key == Key::Char('k')
        && a.selected_account == 0)) ==> (b == a && act == KeyAction::Nothing)
    &&& (on_txns && (key == Key::Char('f') || key == Key::Char('c') || key == Key::Char('d'))) ==> (b.selected_account
        == a.selected_account && b.detail_tab == a.detail_tab && b.pending_scroll == a.pending_scroll && b.report_period
        == a.report_period && act == KeyAction::Nothing)
    &&& !(key == Key::Char('j') || key == Key::Char('k') || key == Key::Char('n') || key == Key::Char('t')) ==> (act
        == KeyAction::Nothing)
}

/// What a key does in the account view: the note editor, the search box and
/// the tagging popup take keys first, in that order; otherwise navigation.
pub open spec fn accounts_key_ok(o: UiState, n: UiState, key: Key, rule_categories: Seq<Seq<char>>, act: KeyAction) -> bool {
    if o.note.open {
        note_key_ok(o, n, key, act)
    } else if o.search.open {
        search_key_ok(o, n, key, act)
    } else if o.tag.open {
        tag_key_ok(o, n, key, act)
    } else {
        nav_key_ok(o, n, key, rule_categories, act)
    }
}

fn reset_list(nav: &mut Navigation)
    ensures
        final(nav).txn_cursor == 0,
        final(nav).txn_scroll == 0,
        final(nav).selected_account == old(nav).selected_account,
        final(nav).accounts_len == old(nav).accounts_len,
        final(nav).detail_tab == old(nav).detail_tab,
        final(nav).pending_scroll == old(nav).pending_scroll,
        final(nav).filter == old(nav).filter,
        final(nav).report_period == old(nav).report_period,
{
    nav.txn_cursor = 0;
    nav.txn_scroll = 0;
}

fn cycle_category(rule_categories: &Vec<String>, current: &Option<String>) -> (r: Option<String>)
    ensures
        opt_view(r) == next_category(cycle_categories(views(rule_categories@)), opt_view(*current)),
{
    let ghost cats = cycle_categories(views(rule_categories@));
    let ghost p = is_current(opt_view(*current));
    let mut cs = copy_names(rule_categories);
    cs.push(copy_str("uncategorized"));
    assert(views(cs@) =~= cats);
    let mut i: usize = 0;
    while i < cs.len()
        invariant
            i <= cs@.len(),
            views(cs@) == cats,
            cats == cycle_categories(views(rule_categories@)),
            p == is_current(opt_view(*current)),
            forall|k: int| 0 <= k < i ==> !p(#[trigger] cats[k]),
        decreases cs.len() - i,
    {
        let hit = match current {
            Some(c) => str_eq(cs[i].as_str(), c.as_str()),
            None => false,
        };
        if hit {
            proof {
                assert(cats[i as int] == cs@[i as int]@);
                assert(opt_view(*current) == Some(cats[i as int]));
                assert(p(cats[i as int]));
                crate::text::lemma_first_index(cats, p, i as int);
            }
            if i + 1 < cs.len() {
                assert(cats[i + 1] == cs@[i + 1]@);
                return Some(copy_str(cs[i + 1].as_str()));
            } else {
                return None;
            }
        }
        proof {
            assert(cats[i as int] == cs@[i as int]@);
        }
        i = i + 1;
    }
    proof {
        crate::text::lemma_first_index(cats, p, i as int);
        assert(cats[0] == cs@[0]@);
    }
    Some(copy_str(cs[0].as_str()))
}

fn cycle_direction(d: &Option<String>) -> (r: Option<String>)
    ensures
        opt_view(r) == next_direction(opt_view(*d)),
{
    match d {
        None => Some(copy_str("DBIT")),
        Some(x) => if str_eq(x.as_str(), "DBIT") {
            Some(copy_str("CRDT"))
        } else {
            None
        },
    }
}

fn note_key(s: &mut UiState, key: Key) -> (act: KeyAction)
    requires
        key_defined(*old(s), key),
        old(s).note.open,
        !old(s).overlays.help_open,
        !(old(s).overlays.refresh_open && old(s).overlays.refresh_done),
    ensures
        note_key_ok(*old(s), *final(s), key, act),
{
    let ghost b = note_bytes(*s);
    let len = s.note.input.as_str().len();
    match key {
        Key::Enter => {
            return KeyAction::SaveNote;
        },
        Key::Esc => {
            s.note.open = false;
        },
        Key::Left => {
            if s.note.cursor > 0 {
                s.note.cursor = s.note.cursor - 1;
            }
        },
        Key::Right => {
            if s.note.cursor < len {
                s.note.cursor = s.note.cursor + 1;
            }
        },
        Key::Backspace => {
            if s.note.cursor > 0 {
                s.note.cursor = s.note.cursor - 1;
                let c = string_remove(&mut s.note.input, s.note.cursor);
            }
        },
        Key::Delete => {
            if s.note.cursor < len {
                let c = string_remove(&mut s.note.input, s.note.cursor);
            }
        },
        Key::Home => {
            s.note.cursor = 0;
        },
        Key::End => {
            s.note.cursor = len;
        },
        Key::Char(c) => {
            string_insert(&mut s.note.input, s.note.cursor, c);
            s.note.cursor = s.note.cursor + 1;
        },
        _ => {},
    }
    return KeyAction::Nothing;
}

fn search_key(s: &mut UiState, key: Key) -> (act: KeyAction)
    ensures
        search_key_ok(*old(s), *final(s), key, act),
{
    match key {
        Key::Enter => {
            s.nav.filter.search = copy_str(s.search.input.as_str());
            s.nav.filter.active = !s.search.input.as_str().is_empty();
            s.search.open = false;
            reset_list(&mut s.nav);
        },
        Key::Esc => {
            s.search.open = false;
        },
        Key::Backspace => {
            let _ = string_pop(&mut s.search.input);
        },
        Key::Char(c) => {
            push_char(&mut s.search.input, c);
        },
        _ => {},
    }
    return KeyAction::Nothing;
}

fn tag_key(s: &mut UiState, key: Key) -> (act: KeyAction)
    requires
        old(s).tag.open,
    ensures
        tag_key_ok(*old(s), *final(s), key, act),
{
    match key {
        Key::Enter => {
            s.tag.open = false;
            return KeyAction::ApplyTag;
        },
        Key::Char('s') => {
            s.tag.open = false;
        },
        Key::Char('A') => {
            s.tag.apply_similar = true;
            s.tag.open = false;
            return KeyAction::ApplyTag;
        },
        Key::Up => {
            if s.tag.selected_category > 0 {
                s.tag.selected_category = s.tag.selected_category - 1;
            }
        },
        Key::Down => {
            if s.tag.selected_category < s.tag.categories.len() && s.tag.selected_category + 1 < s.tag.categories.len() {
                s.tag.selected_category = s.tag.selected_category + 1;
            }
        },
        Key::Backspace => {
            let _ = string_pop(&mut s.tag.new_category_input);
        },
        Key::Char(c) => {
            push_char(&mut s.tag.new_category_input, c);
        },
        _ => {},
    }
    return KeyAction::Nothing;
}

fn nav_key(s: &mut UiState, key: Key, rule_categories: &Vec<String>) -> (act: KeyAction)
    requires
        old(s).nav.txn_cursor < usize::MAX,
        old(s).nav.pending_scroll < usize::MAX,
    ensures
        nav_key_ok(*old(s), *final(s), key, views(rule_categories@), act),
{
    let on_txns = s.nav.detail_tab == DetailTab::Transactions;
    let on_report = s.nav.detail_tab == DetailTab::Report;
    match key {
        Key::Char('j') => {
            if s.nav.selected_account < s.nav.accounts_len && s.nav.selected_account + 1 < s.nav.accounts_len {
                s.nav.selected_account = s.nav.selected_account + 1;
                s.nav.txn_cursor = 0;
                s.nav.txn_scroll = 0;
                s.nav.pending_scroll = 0;
                return KeyAction::SelectAccount(s.nav.selected_account);
            }
        },
        Key::Char('k') => {
            if s.nav.selected_account > 0 {
                s.nav.selected_account = s.nav.selected_account - 1;
                s.nav.txn_cursor = 0;
                s.nav.txn_scroll = 0;
                s.nav.pending_scroll = 0;
                return KeyAction::SelectAccount(s.nav.selected_account);
            }
        },
        Key::Up => {
            if on_txns {
                if s.nav.txn_cursor > 0 {
                    s.nav.txn_cursor = s.nav.txn_cursor - 1;
                    if s.nav.txn_cursor < s.nav.txn_scroll {
                        s.nav.txn_scroll = s.nav.txn_cursor;
                    }
                }
            } else if s.nav.detail_tab == DetailTab::Pending && s.nav.pending_scroll > 0 {
                s.nav.pending_scroll = s.nav.pending_scroll - 1;
            }
        },
        Key::Down => {
            if on_txns {
                s.nav.txn_cursor = s.nav.txn_cursor + 1;
            } else if s.nav.detail_tab == DetailTab::Pending {
                s.nav.pending_scroll = s.nav.pending_scroll + 1;
            }
        },
        Key::Left => {
            s.nav.detail_tab = match s.nav.detail_tab {
                DetailTab::General => DetailTab::Report,
                DetailTab::Pending => DetailTab::General,
                DetailTab::Transactions => DetailTab::Pending,
                DetailTab::AlertsByAccount => DetailTab::Transactions,
                DetailTab::Report => DetailTab::AlertsByAccount,
            };
        },
        Key::Right => {
            s.nav.detail_tab = match s.nav.detail_tab {
                DetailTab::General => DetailTab::Pending,
                DetailTab::Pending => DetailTab::Transactions,
                DetailTab::Transactions => DetailTab::AlertsByAccount,
                DetailTab::AlertsByAccount => DetailTab::Report,
                DetailTab::Report => DetailTab::General,
            };
        },
        Key::Char('/') => {
            if on_txns {
                s.search.open = true;
                s.search.input = String::new();
            }
        },
        Key::Char('n') => {
            if on_txns {
                return KeyAction::OpenNotePopup;
            }
        },
        Key::Char('t') => {
            if on_txns {
                return KeyAction::OpenTagPopup;
            }
        },
        Key::Char('f') => {
            if on_txns {
                s.nav.filter.active = !s.nav.filter.active;
                reset_list(&mut s.nav);
            }
        },
        Key::Char('c') => {
            if on_txns {
                let next = cycle_category(rule_categories, &s.nav.filter.category);
                s.nav.filter.active = next.is_some();
                s.nav.filter.category = next;
                reset_list(&mut s.nav);
            }
        },
        Key::Char('d') => {
            if on_txns {
                let next = cycle_direction(&s.nav.filter.direction);
                s.nav.filter.direction = next;
                s.nav.filter.active = true;
                reset_list(&mut s.nav);
            }
        },
        Key::Char('m') => {
            if on_report {
                s.nav.report_period = ReportPeriod::Month;
            }
        },
        Key::Char('w') => {
            if on_report {
                s.nav.report_period = ReportPeriod::Week;
            }
        },
        Key::Char('D') => {
            if on_report {
                s.nav.report_period = ReportPeriod::Day;
            }
        },
        _ => {},
    }
    KeyAction::Nothing
}


/// Handles a key in the account view (after the global shortcuts).
pub fn handle_accounts_key(s: &mut UiState, key: Key, rule_categories: &Vec<String>) -> (act: KeyAction)
    requires
        key_defined(*old(s), key),
        !old(s).overlays.help_open,
        !(old(s).overlays.refresh_open && old(s).overlays.refresh_done),
    ensures
        accounts_key_ok(*old(s), *final(s), key, views(rule_categories@), act),
{
    if s.note.open {
        note_key(s, key)
    } else if s.search.open {
        search_key(s, key)
    } else if s.tag.open {
        tag_key(s, key)
    } else {
        nav_key(s, key, rule_categories)
    }
}

/// What a key does before the account view sees it: the help overlay takes
/// every key (closing on `?`, Esc or Enter); a finished refresh closes on
/// Enter or Esc; otherwise, outside the note and search editors, `q` quits,
/// `?` opens help, Esc closes the tagging popup and `r` starts a refresh.
/// Any other key goes to the account view (`None`).
pub open spec fn global_key_ok(o: UiState, n: UiState, key: Key, r: Option<KeyAction>) -> bool {
    if o.overlays.help_open {
        &&& r == Some(KeyAction::Nothing)
        &&& n.overlays.help_open == !(key == Key::Char('?') || key == Key::Esc || key == Key::Enter)
        &&& n.overlays.refresh_open == o.overlays.refresh_open && n.overlays.refresh_done == o.overlays.refresh_done
        &&& n.note == o.note && n.search == o.search && n.tag == o.tag && n.nav == o.nav
    } else if o.overlays.refresh_open && o.overlays.refresh_done {
        &&& r == Some(KeyAction::Nothing)
        &&& (key == Key::Enter || key == Key::Esc) ==> !n.overlays.refresh_open && !n.overlays.refresh_done
        &&& !(key == Key::Enter || key == Key::Esc) ==> n.overlays == o.overlays
        &&& n.overlays.help_open == o.overlays.help_open
        &&& n.note == o.note && n.search == o.search && n.tag == o.tag && n.nav == o.nav
    } else if !(o.note.open || o.search.open) && (key == Key::Char('q') || key == Key::Char('?') || key == Key::Esc
        || key == Key::Char('r')) {
        &&& r == Some(
            if key == Key::Char('q') {
                KeyAction::Quit
            } else if key == Key::Char('r') {
                KeyAction::StartRefresh
            } else {
                KeyAction::Nothing
            },
        )
        &&& n.overlays.help_open == (key == Key::Char('?'))
        &&& n.overlays.refresh_open == o.overlays.refresh_open && n.overlays.refresh_done == o.overlays.refresh_done
        &&& n.tag.open == (o.tag.open && key != Key::Esc)
        &&& n.tag.transaction_id == o.tag.transaction_id && n.tag.description == o.tag.description
        &&& n.tag.amount == o.tag.amount && n.tag.currency == o.tag.currency
        &&& n.tag.selected_category == o.tag.selected_category && n.tag.categories == o.tag.categories
        &&& n.tag.new_category_input == o.tag.new_category_input && n.tag.pattern == o.tag.pattern
        &&& n.tag.apply_similar == o.tag.apply_similar
        &&& n.note == o.note && n.search == o.search && n.nav == o.nav
    } else {
        r is None && n == o
    }
}

/// Handles the help overlay, a finished refresh and the global shortcuts;
/// `None` hands the key on to `handle_accounts_key`.
pub fn handle_global_key(s: &mut UiState, key: Key) -> (r: Option<KeyAction>)
    ensures
        global_key_ok(*old(s), *final(s), key, r),
{
    if s.overlays.help_open {
        match key {
            Key::Char('?') | Key::Esc | Key::Enter => {
                s.overlays.help_open = false;
            },
            _ => {},
        }
        return Some(KeyAction::Nothing);
    }
    if s.overlays.refresh_open && s.overlays.refresh_done {
        match key {
            Key::Enter | Key::Esc => {
                s.overlays.refresh_open = false;
                s.overlays.refresh_done = false;
            },
            _ => {},
        }
        return Some(KeyAction::Nothing);
    }
    let input_active = s.note.open || s.search.open;
    if !input_active {
        match key {
            Key::Char('q') => {
                return Some(KeyAction::Quit);
            },
            Key::Char('?') => {
                s.overlays.help_open = true;
                return Some(KeyAction::Nothing);
            },
            Key::Esc => {
                if s.tag.open {
                    s.tag.open = false;
                }
                return Some(KeyAction::Nothing);
            },
            Key::Char('r') => {
                return Some(KeyAction::StartRefresh);
            },
            _ => {},
        }
    }
    None
}

} // verus!
