use vstd::prelude::*;

use crate::dec::{dec_display, dec_display_2dp, dec_round_dp, dec_wf, decimal_display, decimal_round_dp, Dec};
use crate::forecast_view::cents;
use crate::models::TransactionRecord;
use crate::summary::{
    add_days, coverage_text, date_plus_days, days_from_monday, format_ymd, max_year, min_year, percentage_defined,
    valid_date, weekday_index, ymd_text, CategoryAmount, Date, DeltaInfo, Period, PeriodSummary, SummaryInput,
    SummaryResult,
};
use crate::text::{concat, copy_str, join, join_spec, lex_order, push_str, str_eq, str_order, views};

verus! {

// ---------------------------------------------------------------------------
// What the summary command reads
// ---------------------------------------------------------------------------

pub open spec fn as_input(i: SummaryInput, t: TransactionRecord) -> bool {
    &&& i.booking_date@ == t.booking_date@
    &&& i.amount@ == t.amount@
    &&& i.currency@ == t.currency@
    &&& i.credit_debit_indicator@ == t.credit_debit_indicator@
    &&& i.category@ == t.category@
}

/// A booked transaction whose booking date lies between `from` and `to`
/// (compared as text).
pub open spec fn in_range(t: TransactionRecord, from: Seq<char>, to: Seq<char>) -> bool {
    &&& t.status@ == "BOOK"@
    &&& lex_order(t.booking_date@, from) >= 0
    &&& lex_order(t.booking_date@, to) <= 0
}

pub open spec fn range_positions(txns: Seq<TransactionRecord>, from: Seq<char>, to: Seq<char>, n: int) -> Seq<int>
    decreases n,
{
    if n <= 0 {
        Seq::<int>::empty()
    } else if in_range(txns[n - 1], from, to) {
        range_positions(txns, from, to, n - 1).push(n - 1)
    } else {
        range_positions(txns, from, to, n - 1)
    }
}

fn input_of(t: &TransactionRecord) -> (i: SummaryInput)
    ensures
        as_input(i, *t),
{
    SummaryInput {
        booking_date: copy_str(t.booking_date.as_str()),
        amount: copy_str(t.amount.as_str()),
        currency: copy_str(t.currency.as_str()),
        credit_debit_indicator: copy_str(t.credit_debit_indicator.as_str()),
        category: copy_str(t.category.as_str()),
    }
}

/// The summary inputs of all stored transactions: the booked ones dated
/// within the range, in order.
pub fn inputs_in_range(txns: &[TransactionRecord], from: &str, to: &str) -> (r: Vec<SummaryInput>)
    ensures
        r@.len() == range_positions(txns@, from@, to@, txns@.len() as int).len(),
        forall|k: int|
            0 <= k < r@.len() ==> as_input(#[trigger] r@[k], txns@[range_positions(txns@, from@, to@, txns@.len() as int)[k]]),
{
    let mut out: Vec<SummaryInput> = Vec::new();
    let mut i: usize = 0;
    while i < txns.len()
        invariant
            i <= txns@.len(),
            out@.len() == range_positions(txns@, from@, to@, i as int).len(),
            forall|k: int|
                0 <= k < out@.len() ==> as_input(#[trigger] out@[k], txns@[range_positions(txns@, from@, to@, i as int)[k]]),
        decreases txns.len() - i,
    {
        let t = &txns[i];
        if str_eq(t.status.as_str(), "BOOK") && str_order(t.booking_date.as_str(), from) >= 0 && str_order(
            t.booking_date.as_str(),
            to,
        ) <= 0 {
            let ghost before = out@;
            out.push(input_of(t));
            proof {
                assert forall|k: int| 0 <= k < out@.len() implies as_input(
                    #[trigger] out@[k],
                    txns@[range_positions(txns@, from@, to@, i + 1)[k]],
                ) by {
                    if k < before.len() {
                        assert(out@[k] == before[k]);
                    }
                }
            }
        }
        i = i + 1;
    }
    out
}

/// The summary inputs of an account's transactions, in order.
pub fn inputs_of(txns: &[TransactionRecord]) -> (r: Vec<SummaryInput>)
    ensures
        r@.len() == txns@.len(),
        forall|k: int| 0 <= k < txns@.len() ==> as_input(#[trigger] r@[k], txns@[k]),
{
    let mut out: Vec<SummaryInput> = Vec::new();
    let mut i: usize = 0;
    while i < txns.len()
        invariant
            i <= txns@.len(),
            out@.len() == i,
            forall|k: int| 0 <= k < i ==> as_input(#[trigger] out@[k], txns@[k]),
        decreases txns.len() - i,
    {
        out.push(input_of(&txns[i]));
        i = i + 1;
    }
    out
}

// ---------------------------------------------------------------------------
// The summary table
// ---------------------------------------------------------------------------

/// A change for the table: `+` before a change that is not negative, the
/// currency, the amount rounded to cents, and the percentage in brackets.
pub open spec fn delta_text(d: Option<DeltaInfo>, currency: Seq<char>) -> Seq<char> {
    match d {
        None => Seq::<char>::empty(),
        Some(x) => (if x.absolute_diff.negative {
            Seq::<char>::empty()
        } else {
            "+"@
        }) + currency + decimal_display(decimal_round_dp(x.absolute_diff, 2)) + " ("@ + x.percentage@ + ")"@,
    }
}

pub fn format_delta(d: &Option<DeltaInfo>, currency: &str) -> (r: String)
    requires
        d matches Some(x) ==> x.absolute_diff.wf(),
    ensures
        r@ == delta_text(*d, currency@),
{
    match d {
        None => String::new(),
        Some(x) => {
            let mut s = if x.absolute_diff.negative {
                String::new()
            } else {
                copy_str("+")
            };
            push_str(&mut s, currency);
            push_str(&mut s, dec_display(dec_round_dp(x.absolute_diff, 2)).as_str());
            push_str(&mut s, " (");
            push_str(&mut s, x.percentage.as_str());
            push_str(&mut s, ")");
            s
        },
    }
}

/// The headers of the table; `Delta` when it compares.
pub fn summary_headers(compare: bool) -> (r: Vec<String>)
    ensures
        views(r@) == if compare {
            seq!["Period"@, "Category"@, "Amount"@, "Delta"@]
        } else {
            seq!["Period"@, "Category"@, "Amount"@]
        },
{
    let mut h: Vec<String> = Vec::new();
    h.push(copy_str("Period"));
    h.push(copy_str("Category"));
    h.push(copy_str("Amount"));
    if compare {
        h.push(copy_str("Delta"));
    }
    proof {
        if compare {
            assert(views(h@) =~= seq!["Period"@, "Category"@, "Amount"@, "Delta"@]);
        } else {
            assert(views(h@) =~= seq!["Period"@, "Category"@, "Amount"@]);
        }
    }
    h
}

pub open spec fn empties(n: nat) -> Seq<Seq<char>> {
    Seq::new(n, |i: int| Seq::<char>::empty())
}

pub open spec fn cols(compare: bool) -> nat {
    if compare {
        4
    } else {
        3
    }
}

pub open spec fn amount_row(key: Seq<char>, name: Seq<char>, amount: Dec, delta: Option<DeltaInfo>, currency: Seq<char>, compare: bool) -> Seq<Seq<char>> {
    seq![key, name, cents(amount)] + if compare {
        seq![delta_text(delta, currency)]
    } else {
        Seq::empty()
    }
}

/// The rows of one period: the currency's heading when it changes (after a
/// blank row when an earlier currency was shown), a row per category, and
/// the total.
pub open spec fn period_rows(p: PeriodSummary, last: Seq<char>, compare: bool) -> Seq<Seq<Seq<char>>> {
    (if p.currency@ != last {
        (if last.len() > 0 {
            seq![empties(cols(compare))]
        } else {
            Seq::empty()
        }) + seq![seq!["== "@ + p.currency@ + " =="@] + empties((cols(compare) - 1) as nat)]
    } else {
        Seq::empty()
    }) + Seq::new(
        p.categories@.len(),
        |c: int| amount_row(p.key@, p.categories@[c].name@, p.categories@[c].amount, p.categories@[c].delta, p.currency@, compare),
    ) + seq![amount_row(p.key@, "TOTAL"@, p.total, p.delta, p.currency@, compare)]
}

/// The currency shown last after `n` periods.
pub open spec fn last_currency(ps: Seq<PeriodSummary>, n: int) -> Seq<char> {
    if n <= 0 {
        Seq::empty()
    } else {
        ps[n - 1].currency@
    }
}

pub open spec fn summary_rows_spec(ps: Seq<PeriodSummary>, compare: bool, n: int) -> Seq<Seq<Seq<char>>>
    decreases n,
{
    if n <= 0 {
        Seq::empty()
    } else {
        summary_rows_spec(ps, compare, n - 1) + period_rows(ps[n - 1], last_currency(ps, n - 1), compare)
    }
}

pub open spec fn rows_view(rows: Seq<Vec<String>>) -> Seq<Seq<Seq<char>>> {
    rows.map_values(|r: Vec<String>| views(r@))
}

/// The amounts of the periods are ones a `Decimal` holds and their
/// coverage can be computed.
pub open spec fn periods_shown_ok(ps: Seq<PeriodSummary>) -> bool {
    forall|i: int|
        0 <= i < ps.len() ==> {
            let p = #[trigger] ps[i];
            &&& p.total.wf()
            &&& p.delta matches Some(x) ==> x.absolute_diff.wf()
            &&& percentage_defined(p.coverage)
            &&& forall|c: int|
                0 <= c < p.categories@.len() ==> (#[trigger] p.categories@[c]).amount.wf() && (
                p.categories@[c].delta matches Some(x) ==> x.absolute_diff.wf())
        }
}

fn empty_row(n: usize) -> (r: Vec<String>)
    ensures
        views(r@) == empties(n as nat),
{
    let mut v: Vec<String> = Vec::new();
    let mut i: usize = 0;
    while i < n
        invariant
            i <= n,
            views(v@) == empties(i as nat),
        decreases n - i,
    {
        let ghost before = v@;
        let e = String::new();
        v.push(e);
        assert(views(v@) =~= views(before).push(e@));
        i = i + 1;
        assert(views(v@) =~= empties(i as nat));
    }
    v
}

fn amount_row_of(key: &str, name: &str, amount: Dec, delta: &Option<DeltaInfo>, currency: &str, compare: bool) -> (r: Vec<String>)
    requires
        amount.wf(),
        delta matches Some(x) ==> x.absolute_diff.wf(),
    ensures
        views(r@) == amount_row(key@, name@, amount, *delta, currency@, compare),
{
    let mut row: Vec<String> = Vec::new();
    row.push(copy_str(key));
    row.push(copy_str(name));
    row.push(dec_display_2dp(dec_round_dp(amount, 2)));
    if compare {
        row.push(format_delta(delta, currency));
    }
    assert(views(row@) =~= amount_row(key@, name@, amount, *delta, currency@, compare));
    row
}

fn push_row(rows: &mut Vec<Vec<String>>, r: Vec<String>)
    ensures
        rows_view(final(rows)@) == rows_view(old(rows)@).push(views(r@)),
{
    rows.push(r);
    assert(rows_view(rows@) =~= rows_view(old(rows)@).push(views(r@)));
}

fn delta_wf(d: &Option<DeltaInfo>) -> (r: bool)
    ensures
        r == (d matches Some(x) ==> x.absolute_diff.wf()),
{
    match d {
        Some(x) => dec_wf(&x.absolute_diff),
        None => true,
    }
}

/// What `periods_shown_ok` asks of one period.
pub open spec fn period_shown_ok(p: PeriodSummary) -> bool {
    &&& p.total.wf()
    &&& p.delta matches Some(x) ==> x.absolute_diff.wf()
    &&& percentage_defined(p.coverage)
    &&& forall|c: int|
        0 <= c < p.categories@.len() ==> (#[trigger] p.categories@[c]).amount.wf() && (
        p.categories@[c].delta matches Some(x) ==> x.absolute_diff.wf())
}

fn period_accepted(p: &PeriodSummary) -> (r: bool)
    ensures
        r == period_shown_ok(*p),
{
    if !(dec_wf(&p.total) && delta_wf(&p.delta) && (p.coverage.total == 0 || (-21474836
        <= p.coverage.categorized && p.coverage.categorized <= 21474836))) {
        return false;
    }
    let mut c: usize = 0;
    while c < p.categories.len()
        invariant
            c <= p.categories@.len(),
            forall|k: int|
                0 <= k < c ==> (#[trigger] p.categories@[k]).amount.wf() && (p.categories@[k].delta matches Some(
                    x,
                ) ==> x.absolute_diff.wf()),
        decreases p.categories.len() - c,
    {
        if !(dec_wf(&p.categories[c].amount) && delta_wf(&p.categories[c].delta)) {
            return false;
        }
        c = c + 1;
    }
    true
}

/// Whether the summary can be laid out (`periods_shown_ok`).
pub fn periods_accepted(periods: &Vec<PeriodSummary>) -> (r: bool)
    ensures
        r == periods_shown_ok(periods@),
{
    let mut i: usize = 0;
    while i < periods.len()
        invariant
            i <= periods@.len(),
            forall|j: int| 0 <= j < i ==> period_shown_ok(#[trigger] periods@[j]),
        decreases periods.len() - i,
    {
        if !period_accepted(&periods[i]) {
            return false;
        }
        i = i + 1;
    }
    true
}

/// The rows of the summary table.
pub fn summary_rows(periods: &Vec<PeriodSummary>, compare: bool) -> (r: Vec<Vec<String>>)
    requires
        periods_shown_ok(periods@),
    ensures
        rows_view(r@) == summary_rows_spec(periods@, compare, periods@.len() as int),
{
    let n: usize = if compare {
        4
    } else {
        3
    };
    let mut rows: Vec<Vec<String>> = Vec::new();
    let mut last = String::new();
    let mut i: usize = 0;
    while i < periods.len()
        invariant
            i <= periods@.len(),
            n == cols(compare),
            periods_shown_ok(periods@),
            last@ == last_currency(periods@, i as int),
            rows_view(rows@) == summary_rows_spec(periods@, compare, i as int),
        decreases periods.len() - i,
    {
        let p = &periods[i];
        let ghost start = rows_view(rows@);
        if !str_eq(p.currency.as_str(), last.as_str()) {
            if !last.as_str().is_empty() {
                push_row(&mut rows, empty_row(n));
            }
            let mut head = empty_row(n - 1);
            let ghost tail = head@;
            let title = concat("== ", concat(p.currency.as_str(), " ==").as_str());
            head.insert(0, title);
            proof {
                assert(head@ == tail.insert(0, title));
                assert(views(head@) =~= seq![title@] + views(tail));
                assert(title@ =~= "== "@ + p.currency@ + " =="@);
                assert(views(head@) =~= seq!["== "@ + p.currency@ + " =="@] + empties((n - 1) as nat));
            }
            push_row(&mut rows, head);
        }
        let ghost mid = rows_view(rows@);
        let mut c: usize = 0;
        while c < p.categories.len()
            invariant
                c <= p.categories@.len(),
                i < periods@.len(),
                *p == periods@[i as int],
                periods_shown_ok(periods@),
                rows_view(rows@) == mid + Seq::new(
                    p.categories@.len(),
                    |c: int| amount_row(p.key@, p.categories@[c].name@, p.categories@[c].amount, p.categories@[c].delta, p.currency@, compare),
                ).take(c as int),
            decreases p.categories.len() - c,
        {
            let cat = &p.categories[c];
            push_row(
                &mut rows,
                amount_row_of(p.key.as_str(), cat.name.as_str(), cat.amount, &cat.delta, p.currency.as_str(), compare),
            );
            assert(Seq::new(
                p.categories@.len(),
                |c: int| amount_row(p.key@, p.categories@[c].name@, p.categories@[c].amount, p.categories@[c].delta, p.currency@, compare),
            ).take(c + 1) =~= Seq::new(
                p.categories@.len(),
                |c: int| amount_row(p.key@, p.categories@[c].name@, p.categories@[c].amount, p.categories@[c].delta, p.currency@, compare),
            ).take(c as int).push(amount_row(p.key@, p.categories@[c as int].name@, p.categories@[c as int].amount, p.categories@[c as int].delta, p.currency@, compare)));
            c = c + 1;
        }
        assert(Seq::new(
            p.categories@.len(),
            |c: int| amount_row(p.key@, p.categories@[c].name@, p.categories@[c].amount, p.categories@[c].delta, p.currency@, compare),
        ).take(p.categories@.len() as int) =~= Seq::new(
            p.categories@.len(),
            |c: int| amount_row(p.key@, p.categories@[c].name@, p.categories@[c].amount, p.categories@[c].delta, p.currency@, compare),
        ));
        push_row(&mut rows, amount_row_of(p.key.as_str(), "TOTAL", p.total, &p.delta, p.currency.as_str(), compare));
        proof {
            assert(rows_view(rows@) =~= start + period_rows(periods@[i as int], last_currency(periods@, i as int), compare));
        }
        last = copy_str(p.currency.as_str());
        i = i + 1;
    }
    rows
}

/// The footer of the table: each period's coverage, then the warnings.
pub open spec fn summary_footer_spec(ps: Seq<PeriodSummary>, warnings: Seq<Seq<char>>) -> Seq<char> {
    let parts = join_spec(
        ps.map_values(|p: PeriodSummary| p.currency@ + " "@ + p.key@ + ": "@ + coverage_text(p.coverage)),
        " | "@,
    );
    if warnings.len() > 0 {
        parts + (if parts.len() > 0 {
            "\n\n"@
        } else {
            Seq::empty()
        }) + "Warnings:\n"@ + crate::forecast_view::warning_lines(warnings, warnings.len() as int)
    } else {
        parts
    }
}

pub fn summary_footer(result: &SummaryResult) -> (r: String)
    requires
        periods_shown_ok(result.periods@),
    ensures
        r@ == summary_footer_spec(result.periods@, views(result.warnings@)),
{
    let ps = &result.periods;
    let mut parts: Vec<String> = Vec::new();
    let mut i: usize = 0;
    while i < ps.len()
        invariant
            i <= ps@.len(),
            periods_shown_ok(ps@),
            views(parts@) == ps@.map_values(
                |p: PeriodSummary| p.currency@ + " "@ + p.key@ + ": "@ + coverage_text(p.coverage),
            ).take(i as int),
        decreases ps.len() - i,
    {
        let p = &ps[i];
        assert(percentage_defined(ps@[i as int].coverage));
        let mut s = concat(p.currency.as_str(), " ");
        push_str(&mut s, p.key.as_str());
        push_str(&mut s, ": ");
        push_str(&mut s, p.coverage.display().as_str());
        let ghost before = parts@;
        parts.push(s);
        assert(views(parts@) =~= views(before).push(s@));
        assert(ps@.map_values(|p: PeriodSummary| p.currency@ + " "@ + p.key@ + ": "@ + coverage_text(p.coverage)).take(
            i + 1,
        ) =~= ps@.map_values(|p: PeriodSummary| p.currency@ + " "@ + p.key@ + ": "@ + coverage_text(p.coverage)).take(
            i as int,
        ).push(ps@[i as int].currency@ + " "@ + ps@[i as int].key@ + ": "@ + coverage_text(ps@[i as int].coverage)));
        i = i + 1;
    }
    assert(ps@.map_values(|p: PeriodSummary| p.currency@ + " "@ + p.key@ + ": "@ + coverage_text(p.coverage)).take(
        ps@.len() as int,
    ) =~= ps@.map_values(|p: PeriodSummary| p.currency@ + " "@ + p.key@ + ": "@ + coverage_text(p.coverage)));
    let mut footer = join(&parts, " | ");
    let ws = &result.warnings;
    if ws.len() > 0 {
        if !footer.as_str().is_empty() {
            push_str(&mut footer, "\n\n");
        }
        push_str(&mut footer, "Warnings:\n");
        let ghost head = footer@;
        let mut j: usize = 0;
        while j < ws.len()
            invariant
                j <= ws@.len(),
                footer@ == head + crate::forecast_view::warning_lines(views(ws@), j as int),
            decreases ws.len() - j,
        {
            push_str(&mut footer, "  - ");
            push_str(&mut footer, ws[j].as_str());
            push_str(&mut footer, "\n");
            j = j + 1;
        }
    }
    footer
}

// ---------------------------------------------------------------------------
// The dates a summary covers
// ---------------------------------------------------------------------------

/// The first day of the month before the month of `d`.
pub open spec fn month_before(d: Date) -> Date {
    if d.month == 1 {
        Date { year: (d.year - 1) as i32, month: 12, day: 1 }
    } else {
        Date { year: d.year, month: (d.month - 1) as u32, day: 1 }
    }
}

/// The first day a summary covers by default: the start of the current
/// month, week (Monday) or day, one period earlier when it compares.
pub open spec fn default_from_date(period: Period, compare: bool, today: Date) -> Date {
    match period {
        Period::Month => {
            let first = Date { year: today.year, month: today.month, day: 1 };
            if compare {
                month_before(first)
            } else {
                first
            }
        },
        Period::Week => {
            let back = weekday_index(today) + if compare {
                7int
            } else {
                0int
            };
            date_plus_days(today, -back)->Some_0
        },
        Period::Day => if compare {
            date_plus_days(today, -1)->Some_0
        } else {
            today
        },
    }
}

/// The range a summary covers: the dates given, else the defaults (up to
/// today).
pub open spec fn date_range_spec(period: Period, from: Option<Seq<char>>, to: Option<Seq<char>>, compare: bool, today: Date) -> (
    Seq<char>,
    Seq<char>,
) {
    (
        match from {
            Some(f) => f,
            None => ymd_text(default_from_date(period, compare, today)),
        },
        match to {
            Some(t) => t,
            None => ymd_text(today),
        },
    )
}

pub open spec fn opt_str(o: Option<&str>) -> Option<Seq<char>> {
    match o {
        Some(s) => Some(s@),
        None => None,
    }
}

/// The first and last dates (`YYYY-MM-DD`) a summary covers.
pub fn compute_date_range(period: Period, from: Option<&str>, to: Option<&str>, compare: bool, today: Date) -> (r: (
    String,
    String,
))
    requires
        valid_date(today),
        min_year() + 1 < today.year < max_year() - 1,
    ensures
        (r.0@, r.1@) == date_range_spec(period, opt_str(from), opt_str(to), compare, today),
{
    let to_date = match to {
        Some(t) => copy_str(t),
        None => format_ymd(today),
    };
    let from_date = match from {
        Some(f) => copy_str(f),
        None => {
            let start = match period {
                Period::Month => {
                    let first = Date { year: today.year, month: today.month, day: 1 };
                    if compare {
                        if today.month == 1 {
                            Date { year: today.year - 1, month: 12, day: 1 }
                        } else {
                            Date { year: today.year, month: today.month - 1, day: 1 }
                        }
                    } else {
                        first
                    }
                },
                Period::Week => {
                    let wd = days_from_monday(today);
                    let back: i64 = if compare {
                        wd as i64 + 7
                    } else {
                        wd as i64
                    };
                    match add_days(today, -back) {
                        Some(d) => d,
                        None => today,
                    }
                },
                Period::Day => if compare {
                    match add_days(today, -1) {
                        Some(d) => d,
                        None => today,
                    }
                } else {
                    today
                },
            };
            proof {
                assert(start == default_from_date(period, compare, today));
                assert(valid_date(start));
            }
            format_ymd(start)
        },
    };
    (from_date, to_date)
}

} // verus!
