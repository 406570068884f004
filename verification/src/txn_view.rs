use vstd::prelude::*;

use crate::dec::{dec_display, dec_parse, dec_round_dp, dec_zero, decimal_display, decimal_from_str, decimal_round_dp, zero_spec, Dec};
use crate::listing::{description_spec, description_without_note, TxnFilter};
use crate::models::{best_date_spec, TransactionRecord};
use crate::text::{
    chars_of, concat, copy_str, nat_digits, pad_right, pad_right_spec, push_str, str_eq, u64_to_string, utf8_len,
};

verus! {

// ---------------------------------------------------------------------------
// The filter line
// ---------------------------------------------------------------------------

/// The line above the transaction list: the search being typed, else the
/// applied search, else the active filters, else the keys.
pub open spec fn filter_line_spec(search_open: bool, search_input: Seq<char>, f: TxnFilter) -> Seq<char> {
    if search_open {
        "/"@ + search_input + "\u{2588}"@
    } else if f.search@.len() > 0 {
        "Search: \""@ + f.search@ + "\"  |  f:filter c:cat d:dir  /:search  n:note"@
    } else if f.active {
        "Filters: "@ + filter_parts(f)
    } else {
        "/:search  f:filter  c:category  d:direction  n:note"@
    }
}

/// The active filters, space-separated: `cat:<category>` then
/// `dir:<direction>`.
pub open spec fn filter_parts(f: TxnFilter) -> Seq<char> {
    match (f.category, f.direction) {
        (Some(c), Some(d)) => "cat:"@ + c@ + " "@ + "dir:"@ + d@,
        (Some(c), None) => "cat:"@ + c@,
        (None, Some(d)) => "dir:"@ + d@,
        (None, None) => Seq::<char>::empty(),
    }
}

pub fn filter_line(search_open: bool, search_input: &str, f: &TxnFilter) -> (r: String)
    ensures
        r@ == filter_line_spec(search_open, search_input@, *f),
{
    if search_open {
        let mut s = concat("/", search_input);
        push_str(&mut s, "\u{2588}");
        s
    } else if !f.search.as_str().is_empty() {
        let mut s = concat("Search: \"", f.search.as_str());
        push_str(&mut s, "\"  |  f:filter c:cat d:dir  /:search  n:note");
        s
    } else if f.active {
        let mut s = copy_str("Filters: ");
        match &f.category {
            Some(c) => {
                push_str(&mut s, "cat:");
                push_str(&mut s, c.as_str());
                match &f.direction {
                    Some(d) => {
                        push_str(&mut s, " dir:");
                        push_str(&mut s, d.as_str());
                    },
                    None => {},
                }
            },
            None => match &f.direction {
                Some(d) => {
                    push_str(&mut s, "dir:");
                    push_str(&mut s, d.as_str());
                },
                None => {},
            },
        }
        proof {
            reveal_strlit(" dir:");
            reveal_strlit(" ");
            reveal_strlit("dir:");
            assert(" "@ + "dir:"@ =~= " dir:"@);
            assert(s@ =~= "Filters: "@ + filter_parts(*f));
        }
        s
    } else {
        copy_str("/:search  f:filter  c:category  d:direction  n:note")
    }
}

// ---------------------------------------------------------------------------
// Cursor and scrolling
// ---------------------------------------------------------------------------

/// Rows that fit in a list area of the given height (its border and the
/// two header rows take four).
pub open spec fn visible_rows(height: nat) -> nat {
    if height >= 4 {
        (height - 4) as nat
    } else {
        0
    }
}

pub open spec fn sat_sub(a: int, b: int) -> int {
    if a >= b {
        a - b
    } else {
        0
    }
}

/// The cursor kept on the list, and the scroll moved so that the cursor
/// shows: down only when the cursor passed the last visible row, up when it
/// went above the first.
pub open spec fn adjust_spec(cursor: nat, scroll: nat, len: nat, height: nat) -> (nat, nat) {
    let vh = visible_rows(height);
    let c = if cursor <= sat_sub(len as int, 1) {
        cursor
    } else {
        sat_sub(len as int, 1) as nat
    };
    let s1 = if c > scroll + sat_sub(vh as int, 1) {
        sat_sub(c as int, sat_sub(vh as int, 1)) as nat
    } else {
        scroll
    };
    let s2 = if c < s1 {
        c
    } else {
        s1
    };
    (c, s2)
}

/// The cursor and scroll position for a list of `len` rows in an area of
/// the given height.
pub fn adjust_scroll(cursor: usize, scroll: usize, len: usize, height: usize) -> (r: (usize, usize))
    requires
        scroll + sat_sub(visible_rows(height as nat) as int, 1) <= usize::MAX,
    ensures
        (r.0 as nat, r.1 as nat) == adjust_spec(cursor as nat, scroll as nat, len as nat, height as nat),
{
    let vh = if height >= 4 {
        height - 4
    } else {
        0
    };
    let last = if len >= 1 {
        len - 1
    } else {
        0
    };
    let c = if cursor <= last {
        cursor
    } else {
        last
    };
    let reach = if vh >= 1 {
        vh - 1
    } else {
        0
    };
    let mut s = scroll;
    if c > scroll + reach {
        s = if c >= reach {
            c - reach
        } else {
            0
        };
    }
    if c < s {
        s = c;
    }
    (c, s)
}

/// After adjusting, the cursor is on the list and within the visible rows.
pub proof fn law_cursor_visible(cursor: nat, scroll: nat, len: nat, height: nat)
    requires
        len > 0,
        visible_rows(height) >= 1,
    ensures
        ({
            let (c, s) = adjust_spec(cursor, scroll, len, height);
            c < len && s <= c && c <= s + visible_rows(height) - 1
        }),
{
}

// ---------------------------------------------------------------------------
// Rows
// ---------------------------------------------------------------------------

/// How the amount of a row is shown.
#[derive(Debug, Clone, Copy, PartialEq, Eq, Structural)]
pub enum AmountTone {
    Debit,
    Credit,
}

/// How the category of a row is shown.
#[derive(Debug, Clone, Copy, PartialEq, Eq, Structural)]
pub enum CategoryTone {
    Manual,
    Uncategorized,
    Categorized,
}

/// One row of the transaction list: its four cells and how they are shown.
#[derive(Debug, Clone)]
pub struct TxnRow {
    pub date_cell: String,
    pub amount_cell: String,
    pub category_cell: String,
    pub description_cell: String,
    pub amount_tone: AmountTone,
    pub category_tone: CategoryTone,
    pub selected: bool,
}

/// A row's description: the note, marked, else the transaction's text.
pub open spec fn row_description(tx: TransactionRecord) -> Seq<char> {
    if tx.note@.len() > 0 {
        "\u{1F4DD} "@ + tx.note@
    } else {
        description_spec(tx)
    }
}

/// A row's amount: the parsed amount (zero when it does not parse) rounded
/// to cents.
pub open spec fn row_amount(tx: TransactionRecord) -> Seq<char> {
    let d = match decimal_from_str(tx.amount@) {
        Some(d) => d,
        None => zero_spec(),
    };
    decimal_display(decimal_round_dp(d, 2))
}

pub open spec fn sign_of(tx: TransactionRecord) -> Seq<char> {
    if tx.credit_debit_indicator@ == "DBIT"@ {
        "-"@
    } else {
        "+"@
    }
}

pub open spec fn marker(selected: bool) -> Seq<char> {
    if selected {
        "\u{25B8}"@
    } else {
        " "@
    }
}

/// The row of a transaction, selected or not, in a row `row_width` wide:
/// the description fills what the fixed cells leave (counted in UTF-8
/// bytes, as `str::len` counts).
pub open spec fn row_spec(r: TxnRow, tx: TransactionRecord, selected: bool, row_width: nat) -> bool {
    let date = marker(selected) + best_date_spec(tx) + "  "@;
    let amount = sign_of(tx) + pad_right_spec(row_amount(tx), 8) + " "@;
    let category = pad_right_spec(tx.category@, 18);
    let fixed = marker(selected) + best_date_spec(tx) + "  "@ + sign_of(tx) + pad_right_spec(row_amount(tx), 8) + " "@
        + pad_right_spec(tx.category@, 18);
    let width = sat_sub(row_width as int, utf8_len(fixed) as int) as nat;
    &&& r.date_cell@ == date
    &&& r.amount_cell@ == amount
    &&& r.category_cell@ == category
    &&& r.description_cell@ == pad_right_spec(row_description(tx), width)
    &&& r.amount_tone == (if tx.credit_debit_indicator@ == "DBIT"@ {
        AmountTone::Debit
    } else {
        AmountTone::Credit
    })
    &&& r.category_tone == (if tx.category_source@ == "manual"@ {
        CategoryTone::Manual
    } else if tx.category@ == "uncategorized"@ {
        CategoryTone::Uncategorized
    } else {
        CategoryTone::Categorized
    })
    &&& r.selected == selected
}

/// What is left of `width` once `s` takes its bytes (none when it takes
/// more).
fn bytes_left(s: &str, width: usize) -> (r: usize)
    ensures
        r == sat_sub(width as int, utf8_len(s@) as int),
{
    let cs = chars_of(s);
    let mut used: usize = 0;
    let mut i: usize = 0;
    while i < cs.len()
        invariant
            i <= cs@.len(),
            cs@ == s@,
            used == utf8_len(s@.take(i as int)),
            used <= width,
        decreases cs.len() - i,
    {
        let w = char_width(cs[i]);
        assert(s@.take(i + 1).drop_last() =~= s@.take(i as int));
        if w > width - used {
            proof {
                lemma_utf8_len_grows(s@, i + 1);
            }
            return 0;
        }
        used = used + w;
        i = i + 1;
    }
    assert(s@.take(cs@.len() as int) =~= s@);
    width - used
}

fn char_width(c: char) -> (r: usize)
    ensures
        r == crate::text::utf8_width(c),
        r <= 4,
{
    let u = c as u32;
    if u < 0x80 {
        1
    } else if u < 0x800 {
        2
    } else if u < 0x10000 {
        3
    } else {
        4
    }
}

proof fn lemma_utf8_len_grows(s: Seq<char>, i: int)
    requires
        0 <= i <= s.len(),
    ensures
        utf8_len(s) >= utf8_len(s.take(i)),
    decreases s.len() - i,
{
    if i < s.len() {
        lemma_utf8_len_grows(s, i + 1);
        assert(s.take(i + 1).drop_last() =~= s.take(i));
    } else {
        assert(s.take(i) =~= s);
    }
}

fn transaction_row(tx: &TransactionRecord, selected: bool, row_width: usize) -> (r: TxnRow)
    ensures
        row_spec(r, *tx, selected, row_width as nat),
{
    let mark = if selected {
        "\u{25B8}"
    } else {
        " "
    };
    let date = tx.best_date();
    let mut date_cell = concat(mark, date);
    push_str(&mut date_cell, "  ");
    let d = match dec_parse(tx.amount.as_str()) {
        Some(d) => d,
        None => dec_zero(),
    };
    let amount_text = dec_display(dec_round_dp(d, 2));
    let is_debit = str_eq(tx.credit_debit_indicator.as_str(), "DBIT");
    let mut amount_cell = copy_str(if is_debit {
        "-"
    } else {
        "+"
    });
    push_str(&mut amount_cell, pad_right(amount_text.as_str(), 8).as_str());
    push_str(&mut amount_cell, " ");
    let category_cell = pad_right(tx.category.as_str(), 18);
    let mut fixed = copy_str(date_cell.as_str());
    push_str(&mut fixed, amount_cell.as_str());
    push_str(&mut fixed, category_cell.as_str());
    let width = bytes_left(fixed.as_str(), row_width);
    let desc = if !tx.note.as_str().is_empty() {
        concat("\u{1F4DD} ", tx.note.as_str())
    } else {
        description_without_note(tx)
    };
    let description_cell = pad_right(desc.as_str(), width);
    let amount_tone = if is_debit {
        AmountTone::Debit
    } else {
        AmountTone::Credit
    };
    let category_tone = if str_eq(tx.category_source.as_str(), "manual") {
        CategoryTone::Manual
    } else if str_eq(tx.category.as_str(), "uncategorized") {
        CategoryTone::Uncategorized
    } else {
        CategoryTone::Categorized
    };
    proof {
        assert(fixed@ =~= marker(selected) + best_date_spec(*tx) + "  "@ + sign_of(*tx) + pad_right_spec(
            row_amount(*tx),
            8,
        ) + " "@ + pad_right_spec(tx.category@, 18));
    }
    TxnRow {
        date_cell,
        amount_cell,
        category_cell,
        description_cell,
        amount_tone,
        category_tone,
        selected,
    }
}

/// How many rows the list shows from `scroll` on: the visible rows, or all
/// the rest while a popup is over the list.
pub open spec fn shown_count(len: nat, scroll: nat, vh: nat, popup_open: bool) -> nat {
    let rest = sat_sub(len as int, scroll as int) as nat;
    if popup_open || rest <= vh {
        rest
    } else {
        vh
    }
}

/// The rows of the list: from `scroll` on, as many as `shown_count` allows,
/// the one at `cursor` selected.
pub fn transaction_rows(
    txns: &[TransactionRecord],
    scroll: usize,
    cursor: usize,
    visible: usize,
    popup_open: bool,
    row_width: usize,
) -> (r: Vec<TxnRow>)
    ensures
        r@.len() == shown_count(txns@.len(), scroll as nat, visible as nat, popup_open),
        forall|i: int|
            0 <= i < r@.len() ==> row_spec(
                #[trigger] r@[i],
                txns@[scroll + i],
                scroll + i == cursor,
                row_width as nat,
            ),
{
    let mut out: Vec<TxnRow> = Vec::new();
    if scroll >= txns.len() {
        return out;
    }
    let len = txns.len();
    let n = shown_count_exec(len, scroll, visible, popup_open);
    let mut i: usize = 0;
    while i < n
        invariant
            len == txns@.len(),
            scroll < txns@.len(),
            n == shown_count(txns@.len(), scroll as nat, visible as nat, popup_open),
            n <= txns@.len() - scroll,
            i <= n,
            out@.len() == i,
            forall|k: int|
                0 <= k < i ==> row_spec(#[trigger] out@[k], txns@[scroll + k], scroll + k == cursor, row_width as nat),
        decreases n - i,
    {
        assert(scroll + i < txns@.len());
        let idx: usize = scroll + i;
        let row = transaction_row(&txns[idx], idx == cursor, row_width);
        out.push(row);
        i = i + 1;
    }
    out
}

fn shown_count_exec(len: usize, scroll: usize, vh: usize, popup_open: bool) -> (r: usize)
    ensures
        r == shown_count(len as nat, scroll as nat, vh as nat, popup_open),
{
    let rest = if len >= scroll {
        len - scroll
    } else {
        0
    };
    if popup_open || rest <= vh {
        rest
    } else {
        vh
    }
}

/// The list's title: its number of transactions.
pub fn list_title(count: usize) -> (r: String)
    ensures
        r@ == " Transactions ("@ + nat_digits(count as nat) + ") "@,
{
    let mut s = concat(" Transactions (", u64_to_string(count as u64).as_str());
    push_str(&mut s, ") ");
    s
}

} // verus!
