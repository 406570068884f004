use vstd::prelude::*;

use crate::dec::{
    abs_int, add_fits, add_fits_exec, dec_add, dec_display, dec_is_zero, dec_neg, dec_parse, dec_round_dp, dec_zero,
    decimal_add, decimal_display, decimal_from_str, decimal_round_dp, zero_spec, Dec,
};
use crate::forecast::AccountForecast;
use crate::listing::description_without_note;
use crate::models::{AccountRecord, BalanceRecord, TransactionRecord};
use crate::text::{concat, copy_str, pad_left, pad_left_spec, push_str, str_eq, views};
use crate::txn_view::row_description;
use crate::ui::{balance_type_name, balance_type_name_spec};

verus! {

// ---------------------------------------------------------------------------
// The general tab
// ---------------------------------------------------------------------------

/// A balance as the general tab lists it: its type's name, amount and
/// currency.
pub open spec fn balance_line_spec(b: BalanceRecord) -> Seq<char> {
    balance_type_name_spec(b.balance_type@) + ": "@ + b.amount@ + " "@ + b.currency@
}

/// One line per balance, in order.
pub fn balance_lines(bals: &[BalanceRecord]) -> (r: Vec<String>)
    ensures
        views(r@) == bals@.map_values(|b: BalanceRecord| balance_line_spec(b)),
{
    let mut out: Vec<String> = Vec::new();
    let mut i: usize = 0;
    while i < bals.len()
        invariant
            i <= bals@.len(),
            views(out@) == bals@.take(i as int).map_values(|b: BalanceRecord| balance_line_spec(b)),
        decreases bals.len() - i,
    {
        let b = &bals[i];
        let mut s = balance_type_name(b.balance_type.as_str());
        push_str(&mut s, ": ");
        push_str(&mut s, b.amount.as_str());
        push_str(&mut s, " ");
        push_str(&mut s, b.currency.as_str());
        let ghost before = out@;
        out.push(s);
        proof {
            assert(views(out@) =~= views(before).push(s@));
            assert(bals@.take(i + 1) =~= bals@.take(i as int).push(bals@[i as int]));
            assert(bals@.take(i + 1).map_values(|b: BalanceRecord| balance_line_spec(b)) =~= bals@.take(
                i as int,
            ).map_values(|b: BalanceRecord| balance_line_spec(b)).push(balance_line_spec(bals@[i as int])));
        }
        i = i + 1;
    }
    assert(bals@.take(bals@.len() as int) =~= bals@);
    out
}

/// An amount rounded to cents, as `Decimal` displays it (no padding zeros).
pub open spec fn rounded_text(d: Dec) -> Seq<char> {
    decimal_display(decimal_round_dp(d, 2))
}

/// The pending change of a forecast: `(no data)` without pending data,
/// else `0.00`, else signed and rounded to cents.
pub open spec fn pending_delta_text(delta: Dec, has_data: bool) -> Seq<char> {
    if !has_data {
        "(no data)"@
    } else if delta.mantissa == 0 {
        "0.00"@
    } else if !delta.negative {
        "+"@ + rounded_text(delta)
    } else {
        rounded_text(delta)
    }
}

pub fn pending_delta(delta: Dec, has_data: bool) -> (r: String)
    requires
        delta.wf(),
    ensures
        r@ == pending_delta_text(delta, has_data),
{
    if !has_data {
        copy_str("(no data)")
    } else if dec_is_zero(delta) {
        copy_str("0.00")
    } else if !delta.negative {
        concat("+", dec_display(dec_round_dp(delta, 2)).as_str())
    } else {
        dec_display(dec_round_dp(delta, 2))
    }
}

/// The forecast line of the general tab.
pub open spec fn forecast_line_spec(f: AccountForecast) -> Seq<char> {
    "Booked: "@ + rounded_text(f.booked_balance) + "  |  Pending: "@ + pending_delta_text(
        f.pending_delta,
        f.has_pending_data,
    ) + "  |  Projected: "@ + rounded_text(f.projected_balance) + "  "@ + f.currency@
}

pub fn forecast_line(f: &AccountForecast) -> (r: String)
    requires
        f.booked_balance.wf(),
        f.pending_delta.wf(),
        f.projected_balance.wf(),
    ensures
        r@ == forecast_line_spec(*f),
{
    let mut s = concat("Booked: ", dec_display(dec_round_dp(f.booked_balance, 2)).as_str());
    push_str(&mut s, "  |  Pending: ");
    push_str(&mut s, pending_delta(f.pending_delta, f.has_pending_data).as_str());
    push_str(&mut s, "  |  Projected: ");
    push_str(&mut s, dec_display(dec_round_dp(f.projected_balance, 2)).as_str());
    push_str(&mut s, "  ");
    push_str(&mut s, f.currency.as_str());
    s
}

/// The last line of the general tab: the account's usage (`N/A` when
/// unknown) and currency.
pub open spec fn usage_line_spec(a: AccountRecord) -> Seq<char> {
    "Usage: "@ + (if a.usage_type@.len() == 0 {
        "N/A"@
    } else {
        a.usage_type@
    }) + "  \u{00B7}  Currency: "@ + a.currency@
}

pub fn usage_line(a: &AccountRecord) -> (r: String)
    ensures
        r@ == usage_line_spec(*a),
{
    let usage = if a.usage_type.as_str().is_empty() {
        "N/A"
    } else {
        a.usage_type.as_str()
    };
    let mut s = concat("Usage: ", usage);
    push_str(&mut s, "  \u{00B7}  Currency: ");
    push_str(&mut s, a.currency.as_str());
    s
}

// ---------------------------------------------------------------------------
// The pending tab
// ---------------------------------------------------------------------------

/// A pending transaction: its status is exactly `PDNG`.
pub open spec fn is_pdng(t: TransactionRecord) -> bool {
    t.status@ == "PDNG"@
}

/// The positions of the pending transactions among the first `n`.
pub open spec fn pdng_positions(txns: Seq<TransactionRecord>, n: int) -> Seq<int>
    decreases n,
{
    if n <= 0 {
        Seq::empty()
    } else if is_pdng(txns[n - 1]) {
        pdng_positions(txns, n - 1).push(n - 1)
    } else {
        pdng_positions(txns, n - 1)
    }
}

/// The pending transactions shown from `scroll` on.
pub open spec fn shown_pending(txns: Seq<TransactionRecord>, scroll: nat) -> Seq<TransactionRecord> {
    let ps = pdng_positions(txns, txns.len() as int);
    if scroll >= ps.len() {
        Seq::empty()
    } else {
        ps.skip(scroll as int).map_values(|p: int| txns[p])
    }
}

/// The amount of a pending transaction: what it parses to, else zero.
pub open spec fn parsed_amount(t: TransactionRecord) -> Dec {
    match decimal_from_str(t.amount@) {
        Some(d) => d,
        None => zero_spec(),
    }
}

/// The amount with the sign the total adds: debits count against it.
pub open spec fn signed_amount(t: TransactionRecord) -> Dec {
    let a = parsed_amount(t);
    if t.credit_debit_indicator@ == "DBIT"@ {
        Dec { negative: !a.negative, ..a }
    } else {
        a
    }
}

/// The running total of the first `n` shown transactions, from zero.
pub open spec fn pending_total(ts: Seq<TransactionRecord>, n: int) -> Dec
    decreases n,
{
    if n <= 0 {
        zero_spec()
    } else {
        decimal_add(pending_total(ts, n - 1), signed_amount(ts[n - 1]))
    }
}

/// One line of the pending tab.
#[derive(Debug, Clone)]
pub struct PendingRow {
    pub date_cell: String,
    pub amount_cell: String,
    pub description_cell: String,
    pub credit: bool,
}

/// The pending tab: its rows, the total line, and whether the total is
/// negative.
#[derive(Debug, Clone)]
pub struct PendingView {
    pub rows: Vec<PendingRow>,
    pub total_line: String,
    pub total_negative: bool,
}

pub open spec fn pending_row_spec(r: PendingRow, t: TransactionRecord) -> bool {
    let sign = if t.credit_debit_indicator@ == "CRDT"@ {
        "+"@
    } else {
        "-"@
    };
    &&& r.date_cell@ == t.value_date@ + "  "@
    &&& r.amount_cell@ == pad_left_spec(sign, 7) + rounded_text(parsed_amount(t))
    &&& r.description_cell@ == "  "@ + row_description(t)
    &&& r.credit == (t.credit_debit_indicator@ == "CRDT"@)
}

/// The pending total of the tab scrolled by `scroll` adds up without
/// overflow: each step of the running total is exact.
pub open spec fn pending_amounts_ok(txns: Seq<TransactionRecord>, scroll: nat) -> bool {
    let shown = shown_pending(txns, scroll);
    forall|k: int| 0 <= k < shown.len() ==> add_fits(pending_total(shown, k), #[trigger] signed_amount(shown[k]))
}

/// Whether the pending tab scrolled by `scroll` can add its amounts up
/// (`pending_amounts_ok`).
pub fn pending_accepts(txns: &[TransactionRecord], scroll: usize) -> (r: bool)
    ensures
        r == pending_amounts_ok(txns@, scroll as nat),
{
    let ghost ps = pdng_positions(txns@, txns@.len() as int);
    let ghost shown = shown_pending(txns@, scroll as nat);
    proof {
        lemma_pdng_positions(txns@, txns@.len() as int);
    }
    let idx = pdng_indices(txns);
    let mut total = dec_zero();
    let mut j: usize = scroll;
    if j >= idx.len() {
        return true;
    }
    while j < idx.len()
        invariant
            scroll <= j <= idx@.len(),
            scroll < idx@.len(),
            ps == pdng_positions(txns@, txns@.len() as int),
            shown == shown_pending(txns@, scroll as nat),
            idx@.len() == ps.len(),
            forall|k: int| 0 <= k < idx@.len() ==> idx@[k] as int == #[trigger] ps[k],
            forall|k: int| 0 <= k < ps.len() ==> 0 <= #[trigger] ps[k] < txns@.len(),
            total == pending_total(shown, j - scroll),
            total.wf(),
            forall|k: int| 0 <= k < j - scroll ==> add_fits(pending_total(shown, k), #[trigger] signed_amount(shown[k])),
        decreases idx.len() - j,
    {
        let ghost k = j - scroll;
        let p = idx[j];
        assert(p as int == ps[j as int]);
        let t = &txns[p];
        assert(shown[k] == txns@[p as int]);
        let a = match dec_parse(t.amount.as_str()) {
            Some(d) => d,
            None => dec_zero(),
        };
        assert(a == parsed_amount(*t));
        let signed = if str_eq(t.credit_debit_indicator.as_str(), "DBIT") {
            dec_neg(a)
        } else {
            a
        };
        assert(signed == signed_amount(*t));
        if !add_fits_exec(total, signed) {
            assert(!add_fits(pending_total(shown, k), signed_amount(shown[k])));
            return false;
        }
        total = dec_add(total, signed);
        j = j + 1;
    }
    true
}

proof fn lemma_pdng_positions(txns: Seq<TransactionRecord>, n: int)
    requires
        0 <= n <= txns.len(),
    ensures
        pdng_positions(txns, n).len() <= n,
        forall|k: int|
            0 <= k < pdng_positions(txns, n).len() ==> 0 <= #[trigger] pdng_positions(txns, n)[k] < n,
    decreases n,
{
    if n > 0 {
        lemma_pdng_positions(txns, n - 1);
    }
}

fn pdng_indices(txns: &[TransactionRecord]) -> (r: Vec<usize>)
    ensures
        r@.len() == pdng_positions(txns@, txns@.len() as int).len(),
        forall|k: int| 0 <= k < r@.len() ==> r@[k] as int == #[trigger] pdng_positions(txns@, txns@.len() as int)[k],
{
    let mut out: Vec<usize> = Vec::new();
    let mut i: usize = 0;
    while i < txns.len()
        invariant
            i <= txns@.len(),
            out@.len() == pdng_positions(txns@, i as int).len(),
            forall|k: int| 0 <= k < out@.len() ==> out@[k] as int == #[trigger] pdng_positions(txns@, i as int)[k],
        decreases txns.len() - i,
    {
        if str_eq(txns[i].status.as_str(), "PDNG") {
            out.push(i);
        }
        i = i + 1;
    }
    out
}

/// The pending tab of an account's transactions, scrolled by `scroll`.
pub fn pending_view(txns: &[TransactionRecord], scroll: usize) -> (r: PendingView)
    requires
        pending_amounts_ok(txns@, scroll as nat),
    ensures
        r.rows@.len() == shown_pending(txns@, scroll as nat).len(),
        forall|i: int|
            0 <= i < r.rows@.len() ==> pending_row_spec(
                #[trigger] r.rows@[i],
                shown_pending(txns@, scroll as nat)[i],
            ),
        r.total_line@ == "Total pending: "@ + rounded_text(
            pending_total(shown_pending(txns@, scroll as nat), shown_pending(txns@, scroll as nat).len() as int),
        ) + " "@ + (if shown_pending(txns@, scroll as nat).len() == 0 {
            Seq::<char>::empty()
        } else {
            shown_pending(txns@, scroll as nat).last().currency@
        }),
        r.total_negative == pending_total(
            shown_pending(txns@, scroll as nat),
            shown_pending(txns@, scroll as nat).len() as int,
        ).negative,
{
    let ghost ps = pdng_positions(txns@, txns@.len() as int);
    let ghost shown = shown_pending(txns@, scroll as nat);
    proof {
        lemma_pdng_positions(txns@, txns@.len() as int);
    }
    let idx = pdng_indices(txns);
    let mut rows: Vec<PendingRow> = Vec::new();
    let mut total = dec_zero();
    let mut curr = String::new();
    let mut j: usize = scroll;
    if j < idx.len() {
        while j < idx.len()
            invariant
                scroll <= j <= idx@.len(),
                scroll < idx@.len(),
                pending_amounts_ok(txns@, scroll as nat),
                ps == pdng_positions(txns@, txns@.len() as int),
                shown == shown_pending(txns@, scroll as nat),
                idx@.len() == ps.len(),
                idx@.len() <= txns@.len(),
                forall|k: int| 0 <= k < idx@.len() ==> idx@[k] as int == #[trigger] ps[k],
                forall|k: int| 0 <= k < ps.len() ==> 0 <= #[trigger] ps[k] < txns@.len(),
                rows@.len() == j - scroll,
                forall|k: int| 0 <= k < rows@.len() ==> pending_row_spec(#[trigger] rows@[k], shown[k]),
                total == pending_total(shown, rows@.len() as int),
                total.wf(),
                rows@.len() == 0 ==> curr@.len() == 0,
                rows@.len() > 0 ==> curr@ == shown[rows@.len() - 1].currency@,
            decreases idx.len() - j,
        {
            let ghost k = rows@.len() as int;
            let p = idx[j];
            assert(p as int == ps[j as int]);
            let t = &txns[p];
            assert(shown[k] == txns@[p as int]);
            let a = match dec_parse(t.amount.as_str()) {
                Some(d) => d,
                None => dec_zero(),
            };
            assert(a == parsed_amount(*t));
            let is_credit = str_eq(t.credit_debit_indicator.as_str(), "CRDT");
            let is_debit = str_eq(t.credit_debit_indicator.as_str(), "DBIT");
            let sign = if is_credit {
                "+"
            } else {
                "-"
            };
            let mut amount_cell = pad_left(sign, 7);
            push_str(&mut amount_cell, dec_display(dec_round_dp(a, 2)).as_str());
            let desc = if !t.note.as_str().is_empty() {
                concat("\u{1F4DD} ", t.note.as_str())
            } else {
                description_without_note(t)
            };
            let signed = if is_debit {
                dec_neg(a)
            } else {
                a
            };
            assert(signed == signed_amount(*t));
            assert(add_fits(pending_total(shown, k), signed_amount(shown[k])));
            total = dec_add(total, signed);
            curr = copy_str(t.currency.as_str());
            let row = PendingRow {
                date_cell: concat(t.value_date.as_str(), "  "),
                amount_cell,
                description_cell: concat("  ", desc.as_str()),
                credit: is_credit,
            };
            assert(pending_row_spec(row, shown[k]));
            rows.push(row);
            j = j + 1;
        }
    }
    let total_negative = total.negative;
    let mut total_line = concat("Total pending: ", dec_display(dec_round_dp(total, 2)).as_str());
    push_str(&mut total_line, " ");
    push_str(&mut total_line, curr.as_str());
    PendingView { rows, total_line, total_negative }
}

} // verus!
