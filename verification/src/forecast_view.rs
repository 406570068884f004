use vstd::prelude::*;

use crate::commands::{format_pending_decimal, pending_text};
use crate::dec::{dec_display_2dp, dec_round_dp, dec_wf, decimal_display_2dp, decimal_round_dp, Dec};
use crate::forecast::{aggregate_by_currency, totals_accept, totals_accepted, totals_of, AccountForecast, CurrencyTotal, TxnInput};
use crate::models::TransactionRecord;
use crate::output::{iban_suffix, iban_suffix_defined, iban_suffix_spec};
use crate::text::{concat, copy_str, join, join_spec, pad_left, pad_left_spec, push_str, views};

verus! {

// ---------------------------------------------------------------------------
// When data was last synchronised
// ---------------------------------------------------------------------------

/// A UTC instant: seconds since the Unix epoch and the nanoseconds past them.
#[derive(Debug, Clone, Copy, PartialEq, Eq, Structural)]
pub struct SyncTime {
    pub secs: i64,
    pub nanos: u32,
}

/// The epoch, which stands for "never synchronised".
pub open spec fn is_epoch(t: SyncTime) -> bool {
    t.secs == 0 && t.nanos == 0
}

pub open spec fn before(a: SyncTime, b: SyncTime) -> bool {
    a.secs < b.secs || (a.secs == b.secs && a.nanos < b.nanos)
}

/// The oldest synchronisation so far, once `synced` is seen (the epoch is
/// skipped).
pub open spec fn oldest_spec(prev: Option<SyncTime>, synced: SyncTime) -> Option<SyncTime> {
    if is_epoch(synced) {
        prev
    } else {
        match prev {
            None => Some(synced),
            Some(e) => if before(synced, e) {
                Some(synced)
            } else {
                Some(e)
            },
        }
    }
}

pub fn oldest_synced(prev: Option<SyncTime>, synced: SyncTime) -> (r: Option<SyncTime>)
    ensures
        r == oldest_spec(prev, synced),
{
    if synced.secs == 0 && synced.nanos == 0 {
        prev
    } else {
        match prev {
            None => Some(synced),
            Some(e) => if synced.secs < e.secs || (synced.secs == e.secs && synced.nanos < e.nanos) {
                Some(synced)
            } else {
                Some(e)
            },
        }
    }
}

/// What `DateTime::<Utc>::from_timestamp(secs, nanos)` formatted with
/// `"%Y-%m-%d %H:%M:%S UTC"` gives (`None` when chrono has no such instant).
pub uninterp spec fn utc_text(secs: i64, nanos: u32) -> Option<Seq<char>>;

/// Calls `DateTime::<Utc>::from_timestamp` and formats the instant with
/// `"%Y-%m-%d %H:%M:%S UTC"`. Claimed: the named text.
#[verifier::external_body]
fn format_utc(secs: i64, nanos: u32) -> (r: Option<String>)
    ensures
        match r {
            Some(s) => utc_text(secs, nanos) == Some(s@),
            None => utc_text(secs, nanos) is None,
        },
{
    match chrono::DateTime::<chrono::Utc>::from_timestamp(secs, nanos) {
        Some(d) => Some(d.format("%Y-%m-%d %H:%M:%S UTC").to_string()),
        None => None,
    }
}

/// `Last synced: <instant>`, or `never` for no instant (or the epoch).
pub open spec fn synced_footer_spec(t: Option<SyncTime>) -> Seq<char> {
    match t {
        Some(st) => if !is_epoch(st) && utc_text(st.secs, st.nanos) is Some {
            "Last synced: "@ + utc_text(st.secs, st.nanos)->Some_0
        } else {
            "Last synced: never"@
        },
        None => "Last synced: never"@,
    }
}

pub fn last_synced_footer(t: Option<SyncTime>) -> (r: String)
    ensures
        r@ == synced_footer_spec(t),
{
    match t {
        Some(st) => {
            if !(st.secs == 0 && st.nanos == 0) {
                match format_utc(st.secs, st.nanos) {
                    Some(x) => return concat("Last synced: ", x.as_str()),
                    None => {},
                }
            }
            copy_str("Last synced: never")
        },
        None => copy_str("Last synced: never"),
    }
}

// ---------------------------------------------------------------------------
// Forecast inputs of the command line
// ---------------------------------------------------------------------------

/// The description the command line gives a pending transaction: the
/// creditor, else the debtor, else the first remittance line.
pub open spec fn cli_description(t: TransactionRecord) -> Seq<char> {
    if t.creditor_name@.len() > 0 {
        t.creditor_name@
    } else if t.debtor_name@.len() > 0 {
        t.debtor_name@
    } else if t.remittance_info@.len() > 0 {
        t.remittance_info@[0]@
    } else {
        Seq::<char>::empty()
    }
}

pub open spec fn is_cli_input(p: TxnInput, t: TransactionRecord) -> bool {
    &&& p.transaction_id@ == t.transaction_id@
    &&& p.amount@ == t.amount@
    &&& p.currency@ == t.currency@
    &&& p.credit_debit_indicator@ == t.credit_debit_indicator@
    &&& p.description@ == cli_description(t)
    &&& p.value_date@ == t.value_date@
}

/// The pending transactions as forecast inputs.
pub fn cli_pending_inputs(txns: &[TransactionRecord]) -> (r: Vec<TxnInput>)
    ensures
        r@.len() == txns@.len(),
        forall|i: int| 0 <= i < txns@.len() ==> is_cli_input(#[trigger] r@[i], txns@[i]),
{
    let mut out: Vec<TxnInput> = Vec::new();
    let mut i: usize = 0;
    while i < txns.len()
        invariant
            i <= txns@.len(),
            out@.len() == i,
            forall|j: int| 0 <= j < i ==> is_cli_input(#[trigger] out@[j], txns@[j]),
        decreases txns.len() - i,
    {
        let t = &txns[i];
        let description = if !t.creditor_name.as_str().is_empty() {
            copy_str(t.creditor_name.as_str())
        } else if !t.debtor_name.as_str().is_empty() {
            copy_str(t.debtor_name.as_str())
        } else if t.remittance_info.len() > 0 {
            copy_str(t.remittance_info[0].as_str())
        } else {
            String::new()
        };
        out.push(TxnInput {
            transaction_id: copy_str(t.transaction_id.as_str()),
            amount: copy_str(t.amount.as_str()),
            currency: copy_str(t.currency.as_str()),
            credit_debit_indicator: copy_str(t.credit_debit_indicator.as_str()),
            description,
            value_date: copy_str(t.value_date.as_str()),
        });
        i = i + 1;
    }
    out
}

// ---------------------------------------------------------------------------
// The forecast table
// ---------------------------------------------------------------------------

/// An amount with two decimals.
pub open spec fn cents(d: Dec) -> Seq<char> {
    decimal_display_2dp(decimal_round_dp(d, 2))
}

fn cents_text(d: Dec) -> (r: String)
    requires
        d.wf(),
    ensures
        r@ == cents(d),
{
    dec_display_2dp(dec_round_dp(d, 2))
}

/// The forecasts can be shown: amounts a `Decimal` holds, IBANs cut on
/// character boundaries.
pub open spec fn forecasts_shown_ok(fs: Seq<AccountForecast>) -> bool {
    forall|k: int|
        0 <= k < fs.len() ==> {
            let f = #[trigger] fs[k];
            &&& f.booked_balance.wf()
            &&& f.pending_delta.wf()
            &&& f.projected_balance.wf()
            &&& forall|j: int| 0 <= j < f.pending_txns@.len() ==> (#[trigger] f.pending_txns@[j]).amount.wf()
            &&& iban_suffix_defined(f.iban@, 8)
        }
}

/// The table row of a forecast.
pub open spec fn forecast_row(f: AccountForecast) -> Seq<Seq<char>> {
    seq![
        iban_suffix_spec(f.iban@, 8),
        f.bank_name@,
        f.currency@,
        cents(f.booked_balance),
        pending_text(f.pending_delta),
        cents(f.projected_balance),
    ]
}

pub fn forecast_rows(fs: &[AccountForecast]) -> (rows: Vec<Vec<String>>)
    requires
        forecasts_shown_ok(fs@),
    ensures
        rows@.len() == fs@.len(),
        forall|k: int| 0 <= k < fs@.len() ==> views((#[trigger] rows@[k])@) == forecast_row(fs@[k]),
{
    let mut rows: Vec<Vec<String>> = Vec::new();
    let mut k: usize = 0;
    while k < fs.len()
        invariant
            k <= fs@.len(),
            forecasts_shown_ok(fs@),
            rows@.len() == k,
            forall|j: int| 0 <= j < k ==> views((#[trigger] rows@[j])@) == forecast_row(fs@[j]),
        decreases fs.len() - k,
    {
        let f = &fs[k];
        let mut row: Vec<String> = Vec::new();
        row.push(iban_suffix(f.iban.as_str(), 8));
        row.push(copy_str(f.bank_name.as_str()));
        row.push(copy_str(f.currency.as_str()));
        row.push(cents_text(f.booked_balance));
        row.push(format_pending_decimal(f.pending_delta));
        row.push(cents_text(f.projected_balance));
        assert(views(row@) =~= forecast_row(fs@[k as int]));
        rows.push(row);
        k = k + 1;
    }
    rows
}

/// The footer line of a currency's totals.
pub open spec fn total_line(t: CurrencyTotal) -> Seq<char> {
    t.currency@ + " Total: booked "@ + cents(t.total_booked) + " | pending "@ + pending_text(t.total_pending)
        + " | projected "@ + cents(t.total_projected)
}

/// Every forecast's warnings, in order.
pub open spec fn all_warnings(fs: Seq<AccountForecast>, n: int) -> Seq<Seq<char>>
    decreases n,
{
    if n <= 0 {
        Seq::empty()
    } else {
        all_warnings(fs, n - 1) + views(fs[n - 1].warnings@)
    }
}

pub open spec fn warning_lines(ws: Seq<Seq<char>>, n: int) -> Seq<char>
    decreases n,
{
    if n <= 0 {
        Seq::empty()
    } else {
        warning_lines(ws, n - 1) + "  - "@ + ws[n - 1] + "\n"@
    }
}

pub open spec fn disclaimer() -> Seq<char> {
    "Projected balance = booked + pending. May not reflect real-time authorizations."@
}

/// The footer under the forecast table: one line of totals per currency,
/// the warnings when there are any, when data was synced, and the
/// disclaimer.
pub open spec fn forecast_footer_spec(totals: Seq<CurrencyTotal>, fs: Seq<AccountForecast>, synced: Seq<char>) -> Seq<char> {
    let ws = all_warnings(fs, fs.len() as int);
    join_spec(totals.map_values(|t: CurrencyTotal| total_line(t)), "\n"@) + (if ws.len() > 0 {
        "\n\nWarnings:\n"@ + warning_lines(ws, ws.len() as int)
    } else {
        Seq::<char>::empty()
    }) + "\n"@ + synced + "\n"@ + disclaimer()
}

fn total_text(t: &CurrencyTotal) -> (r: String)
    requires
        t.total_booked.wf(),
        t.total_pending.wf(),
        t.total_projected.wf(),
    ensures
        r@ == total_line(*t),
{
    let mut s = concat(t.currency.as_str(), " Total: booked ");
    push_str(&mut s, cents_text(t.total_booked).as_str());
    push_str(&mut s, " | pending ");
    push_str(&mut s, format_pending_decimal(t.total_pending).as_str());
    push_str(&mut s, " | projected ");
    push_str(&mut s, cents_text(t.total_projected).as_str());
    s
}

fn collect_warnings(fs: &[AccountForecast]) -> (r: Vec<String>)
    ensures
        views(r@) == all_warnings(fs@, fs@.len() as int),
{
    let mut out: Vec<String> = Vec::new();
    let mut k: usize = 0;
    while k < fs.len()
        invariant
            k <= fs@.len(),
            views(out@) == all_warnings(fs@, k as int),
        decreases fs.len() - k,
    {
        let ws = &fs[k].warnings;
        let ghost start = views(out@);
        let mut j: usize = 0;
        while j < ws.len()
            invariant
                j <= ws@.len(),
                *ws == fs@[k as int].warnings,
                views(out@) == start + views(ws@).take(j as int),
            decreases ws.len() - j,
        {
            let ghost before = out@;
            out.push(copy_str(ws[j].as_str()));
            assert(views(out@) =~= views(before).push(ws@[j as int]@));
            assert(views(ws@).take(j + 1) =~= views(ws@).take(j as int).push(ws@[j as int]@));
            j = j + 1;
        }
        assert(views(ws@).take(ws@.len() as int) =~= views(ws@));
        k = k + 1;
    }
    out
}

/// The footer of the forecast table, with the totals `aggregate_by_currency`
/// gives.
pub fn forecast_footer(fs: &[AccountForecast], synced: &str) -> (r: String)
    requires
        totals_accept(fs@),
    ensures
        exists|totals: Seq<CurrencyTotal>| totals_of(fs@, totals) && r@ == forecast_footer_spec(totals, fs@, synced@),
{
    let totals = aggregate_by_currency(fs);
    let mut lines: Vec<String> = Vec::new();
    let mut i: usize = 0;
    while i < totals.len()
        invariant
            i <= totals@.len(),
            totals_of(fs@, totals@),
            crate::forecast::totals_wf(totals@),
            views(lines@) == totals@.map_values(|t: CurrencyTotal| total_line(t)).take(i as int),
        decreases totals.len() - i,
    {
        let ghost before = lines@;
        lines.push(total_text(&totals[i]));
        assert(views(lines@) =~= views(before).push(total_line(totals@[i as int])));
        assert(totals@.map_values(|t: CurrencyTotal| total_line(t)).take(i + 1) =~= totals@.map_values(
            |t: CurrencyTotal| total_line(t),
        ).take(i as int).push(total_line(totals@[i as int])));
        i = i + 1;
    }
    assert(totals@.map_values(|t: CurrencyTotal| total_line(t)).take(totals@.len() as int) =~= totals@.map_values(
        |t: CurrencyTotal| total_line(t),
    ));
    let mut s = join(&lines, "\n");
    let ws = collect_warnings(fs);
    let ghost wv = views(ws@);
    if ws.len() > 0 {
        push_str(&mut s, "\n\nWarnings:\n");
        let ghost head = s@;
        let mut j: usize = 0;
        while j < ws.len()
            invariant
                j <= ws@.len(),
                wv == views(ws@),
                s@ == head + warning_lines(wv, j as int),
            decreases ws.len() - j,
        {
            push_str(&mut s, "  - ");
            push_str(&mut s, ws[j].as_str());
            push_str(&mut s, "\n");
            j = j + 1;
        }
    }
    push_str(&mut s, "\n");
    push_str(&mut s, synced);
    push_str(&mut s, "\n");
    push_str(&mut s, "Projected balance = booked + pending. May not reflect real-time authorizations.");
    s
}

// ---------------------------------------------------------------------------
// The detailed forecast
// ---------------------------------------------------------------------------

pub open spec fn pending_line(p: crate::forecast::PendingTxn, currency: Seq<char>) -> Seq<char> {
    "    "@ + (if p.is_credit {
        "+"@
    } else {
        "-"@
    }) + cents(p.amount) + " "@ + currency + " \u{2014} "@ + p.description@
}

/// The lines of one account's detailed forecast, ending with a blank line.
pub open spec fn detail_lines(f: AccountForecast) -> Seq<Seq<char>> {
    let cur = f.currency@;
    seq![
        "\u{2550}\u{2550}\u{2550} "@ + iban_suffix_spec(f.iban@, 8) + " ("@ + f.bank_name@ + ") \u{2550}\u{2550}\u{2550}"@,
        "  Booked balance:   "@ + pad_left_spec(cents(f.booked_balance), 12) + " "@ + cur,
    ] + (if f.has_pending_data {
        seq![
            "  Pending delta:    "@ + pad_left_spec(pending_text(f.pending_delta), 12) + " "@ + cur,
            "  Projected:        "@ + pad_left_spec(cents(f.projected_balance), 12) + " "@ + cur,
        ]
    } else {
        seq!["  Pending delta:    N/A (no pending data)"@]
    }) + views(f.warnings@).map_values(|w: Seq<char>| "  \u{26A0} "@ + w) + (if f.has_pending_data
        && f.pending_txns@.len() > 0 {
        seq!["  Pending transactions:"@] + f.pending_txns@.map_values(
            |p: crate::forecast::PendingTxn| pending_line(p, cur),
        )
    } else {
        Seq::empty()
    }) + seq![Seq::<char>::empty()]
}

fn push_text(out: &mut Vec<String>, s: String)
    ensures
        views(final(out)@) == views(old(out)@).push(s@),
{
    out.push(s);
    assert(views(out@) =~= views(old(out)@).push(s@));
}

/// The detailed forecast of one account.
pub fn forecast_detail(f: &AccountForecast) -> (r: Vec<String>)
    requires
        forecasts_shown_ok(seq![*f]),
    ensures
        views(r@) == detail_lines(*f),
{
    assert(seq![*f][0] == *f);
    let cur = f.currency.as_str();
    let mut out: Vec<String> = Vec::new();
    let mut h = concat("\u{2550}\u{2550}\u{2550} ", iban_suffix(f.iban.as_str(), 8).as_str());
    push_str(&mut h, " (");
    push_str(&mut h, f.bank_name.as_str());
    push_str(&mut h, ") \u{2550}\u{2550}\u{2550}");
    push_text(&mut out, h);
    let mut b = concat("  Booked balance:   ", pad_left(cents_text(f.booked_balance).as_str(), 12).as_str());
    push_str(&mut b, " ");
    push_str(&mut b, cur);
    push_text(&mut out, b);
    if f.has_pending_data {
        let mut p = concat("  Pending delta:    ", pad_left(format_pending_decimal(f.pending_delta).as_str(), 12).as_str());
        push_str(&mut p, " ");
        push_str(&mut p, cur);
        push_text(&mut out, p);
        let mut q = concat("  Projected:        ", pad_left(cents_text(f.projected_balance).as_str(), 12).as_str());
        push_str(&mut q, " ");
        push_str(&mut q, cur);
        push_text(&mut out, q);
    } else {
        push_text(&mut out, copy_str("  Pending delta:    N/A (no pending data)"));
    }
    let ghost after_head = views(out@);
    let mut j: usize = 0;
    while j < f.warnings.len()
        invariant
            j <= f.warnings@.len(),
            views(out@) == after_head + views(f.warnings@).map_values(|w: Seq<char>| "  \u{26A0} "@ + w).take(j as int),
        decreases f.warnings.len() - j,
    {
        push_text(&mut out, concat("  \u{26A0} ", f.warnings[j].as_str()));
        assert(views(f.warnings@).map_values(|w: Seq<char>| "  \u{26A0} "@ + w).take(j + 1) =~= views(f.warnings@).map_values(
            |w: Seq<char>| "  \u{26A0} "@ + w,
        ).take(j as int).push("  \u{26A0} "@ + f.warnings@[j as int]@));
        j = j + 1;
    }
    assert(views(f.warnings@).map_values(|w: Seq<char>| "  \u{26A0} "@ + w).take(f.warnings@.len() as int)
        =~= views(f.warnings@).map_values(|w: Seq<char>| "  \u{26A0} "@ + w));
    let ghost after_warn = views(out@);
    if f.has_pending_data && f.pending_txns.len() > 0 {
        push_text(&mut out, copy_str("  Pending transactions:"));
        let ghost start = views(out@);
        let mut k: usize = 0;
        while k < f.pending_txns.len()
            invariant
                k <= f.pending_txns@.len(),
                forecasts_shown_ok(seq![*f]),
                seq![*f][0] == *f,
                views(out@) == start + f.pending_txns@.map_values(
                    |p: crate::forecast::PendingTxn| pending_line(p, f.currency@),
                ).take(k as int),
            decreases f.pending_txns.len() - k,
        {
            let p = &f.pending_txns[k];
            assert(p.amount.wf());
            let mut line = copy_str("    ");
            push_str(&mut line, if p.is_credit {
                "+"
            } else {
                "-"
            });
            push_str(&mut line, cents_text(p.amount).as_str());
            push_str(&mut line, " ");
            push_str(&mut line, f.currency.as_str());
            push_str(&mut line, " \u{2014} ");
            push_str(&mut line, p.description.as_str());
            push_text(&mut out, line);
            assert(f.pending_txns@.map_values(|p: crate::forecast::PendingTxn| pending_line(p, f.currency@)).take(k + 1)
                =~= f.pending_txns@.map_values(|p: crate::forecast::PendingTxn| pending_line(p, f.currency@)).take(
                k as int,
            ).push(pending_line(f.pending_txns@[k as int], f.currency@)));
            k = k + 1;
        }
        assert(f.pending_txns@.map_values(|p: crate::forecast::PendingTxn| pending_line(p, f.currency@)).take(
            f.pending_txns@.len() as int,
        ) =~= f.pending_txns@.map_values(|p: crate::forecast::PendingTxn| pending_line(p, f.currency@)));
    }
    push_text(&mut out, String::new());
    proof {
        assert(views(out@) =~= detail_lines(*f));
    }
    out
}

/// Whether forecasts can be shown and totalled (`forecasts_shown_ok` and
/// `totals_accept`).
pub fn forecasts_accepted(fs: &[AccountForecast]) -> (r: bool)
    ensures
        r == (forecasts_shown_ok(fs@) && totals_accept(fs@)),
{
    let mut k: usize = 0;
    while k < fs.len()
        invariant
            k <= fs@.len(),
            forall|j: int|
                0 <= j < k ==> {
                    let f = #[trigger] fs@[j];
                    &&& f.booked_balance.wf()
                    &&& f.pending_delta.wf()
                    &&& f.projected_balance.wf()
                    &&& forall|i: int| 0 <= i < f.pending_txns@.len() ==> (#[trigger] f.pending_txns@[i]).amount.wf()
                    &&& iban_suffix_defined(f.iban@, 8)
                },
        decreases fs.len() - k,
    {
        let f = &fs[k];
        if !(dec_wf(&f.booked_balance) && dec_wf(&f.pending_delta) && dec_wf(&f.projected_balance)) {
            return false;
        }
        let mut i: usize = 0;
        while i < f.pending_txns.len()
            invariant
                i <= f.pending_txns@.len(),
                k < fs@.len(),
                *f == fs@[k as int],
                forall|x: int| 0 <= x < i ==> (#[trigger] f.pending_txns@[x]).amount.wf(),
            decreases f.pending_txns.len() - i,
        {
            let a = f.pending_txns[i].amount;
            if !(a.mantissa < 79228162514264337593543950336u128 && a.scale <= 28) {
                assert(!fs@[k as int].pending_txns@[i as int].amount.wf());
                return false;
            }
            i = i + 1;
        }
        let len = crate::output::byte_count(f.iban.as_str());
        if len > 8 && !f.iban.as_str().is_char_boundary(len - 8) {
            return false;
        }
        k = k + 1;
    }
    totals_accepted(fs)
}

} // verus!
