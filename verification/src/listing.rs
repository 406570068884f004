use vstd::prelude::*;

use crate::models::{
    TransactionRecord, best_date_spec, is_pending_spec, sort_by_display, insert_by_display,
    sort_positions_by_display, lemma_insert_len_members, display_sorted, lemma_sort_sorted, not_after,
};
use crate::text::{
    concat, join, join_spec, str_eq, to_lower, to_upper, unicode_lower, unicode_upper,
    contains_str, has_sub, eq_ignore_ascii_case, eq_ignore_ascii_case_spec, copy_str,
};

verus! {

// ---------------------------------------------------------------------------
// Positions of a sequence of transactions
// ---------------------------------------------------------------------------

/// The positions `0..n` of `all` whose transaction satisfies `f`, in order.
pub open spec fn positions_where(
    all: Seq<TransactionRecord>,
    f: spec_fn(TransactionRecord) -> bool,
    n: nat,
) -> Seq<usize>
    decreases n,
{
    if n == 0 {
        Seq::<usize>::empty()
    } else {
        let p = positions_where(all, f, (n - 1) as nat);
        if f(all[n - 1]) {
            p.push((n - 1) as usize)
        } else {
            p
        }
    }
}

/// The positions of `ps` whose transaction satisfies `f`, in order.
pub open spec fn select_positions(
    all: Seq<TransactionRecord>,
    ps: Seq<usize>,
    f: spec_fn(TransactionRecord) -> bool,
) -> Seq<usize>
    decreases ps.len(),
{
    if ps.len() == 0 {
        Seq::<usize>::empty()
    } else {
        let p = select_positions(all, ps.drop_last(), f);
        if f(all[ps.last() as int]) {
            p.push(ps.last())
        } else {
            p
        }
    }
}

/// The transactions at the positions `ps`.
pub open spec fn at_positions(all: Seq<TransactionRecord>, ps: Seq<usize>) -> Seq<TransactionRecord> {
    ps.map_values(|p: usize| all[p as int])
}

pub proof fn lemma_positions_where(all: Seq<TransactionRecord>, f: spec_fn(TransactionRecord) -> bool, n: nat)
    requires
        n <= all.len(),
        n <= usize::MAX,
    ensures
        forall|k: int| 0 <= k < positions_where(all, f, n).len() ==> #[trigger] positions_where(all, f, n)[k] < n,
        forall|k: int, l: int| 0 <= k < l < positions_where(all, f, n).len() ==> positions_where(all, f, n)[k] < positions_where(all, f, n)[l],
        positions_where(all, f, n).len() <= n,
    decreases n,
{
    if n > 0 {
        lemma_positions_where(all, f, (n - 1) as nat);
        let p = positions_where(all, f, (n - 1) as nat);
        let q = positions_where(all, f, n);
        assert forall|k: int, l: int| 0 <= k < l < q.len() implies q[k] < q[l] by {
            if f(all[n - 1]) {
                assert(q == p.push((n - 1) as usize));
                assert(q[k] == p[k]);
                if l == p.len() {
                    assert(p[k] < n - 1);
                } else {
                    assert(q[l] == p[l]);
                }
            } else {
                assert(q == p);
            }
        }
    }
}

pub proof fn lemma_select_subset(all: Seq<TransactionRecord>, ps: Seq<usize>, f: spec_fn(TransactionRecord) -> bool)
    ensures
        forall|k: int| 0 <= k < select_positions(all, ps, f).len() ==> ps.contains(#[trigger] select_positions(all, ps, f)[k]),
        select_positions(all, ps, f).len() <= ps.len(),
    decreases ps.len(),
{
    if ps.len() > 0 {
        lemma_select_subset(all, ps.drop_last(), f);
        let s = select_positions(all, ps, f);
        let q = select_positions(all, ps.drop_last(), f);
        assert forall|k: int| 0 <= k < s.len() implies ps.contains(#[trigger] s[k]) by {
            if k < q.len() {
                let w = choose|w: int| 0 <= w < ps.drop_last().len() && ps.drop_last()[w] == q[k];
                assert(ps[w] == q[k]);
            } else {
                assert(ps[ps.len() - 1] == s[k]);
            }
        }
    }
}

// ---------------------------------------------------------------------------
// CLI transaction listing
// ---------------------------------------------------------------------------

/// Best date for display: booking_date, value_date, or transaction_date (first non-empty).
pub fn best_transaction_date(t: &TransactionRecord) -> (r: &str)
    ensures
        r@ == best_date_spec(*t),
{
    t.best_date()
}

/// The indicator a `--direction` value selects: `credit`/`crdt` and
/// `debit`/`dbit` in any case name the two indicators; anything else is
/// compared upper-cased.
pub open spec fn direction_indicator(dir: Seq<char>) -> Seq<char> {
    let l = unicode_lower(dir);
    if l == "credit"@ || l == "crdt"@ {
        "CRDT"@
    } else if l == "debit"@ || l == "dbit"@ {
        "DBIT"@
    } else {
        unicode_upper(l)
    }
}

/// A transaction the CLI lists: booked, in the chosen direction and category.
pub open spec fn listed(t: TransactionRecord, dir: Option<Seq<char>>, cat: Option<Seq<char>>) -> bool {
    &&& !is_pending_spec(t)
    &&& dir matches Some(d) ==> t.credit_debit_indicator@ == direction_indicator(d)
    &&& cat matches Some(c) ==> unicode_lower(t.category@) == unicode_lower(c)
}

/// How many of `n` listed transactions are shown for a `--limit`.
pub open spec fn limited_len(n: nat, limit: Option<i32>) -> nat {
    match limit {
        Some(l) => if l > 0 && l < n {
            l as nat
        } else {
            n
        },
        None => n,
    }
}

/// The positions the CLI lists, newest first, before the limit.
pub open spec fn listed_positions(
    all: Seq<TransactionRecord>,
    dir: Option<Seq<char>>,
    cat: Option<Seq<char>>,
) -> Seq<usize> {
    sort_by_display(all, positions_where(all, |t: TransactionRecord| listed(t, dir, cat), all.len()))
}

pub open spec fn opt_view(o: Option<&str>) -> Option<Seq<char>> {
    match o {
        Some(s) => Some(s@),
        None => None,
    }
}

fn normalize_direction(dir: &str) -> (r: String)
    ensures
        r@ == direction_indicator(dir@),
{
    let l = to_lower(dir);
    if str_eq(l.as_str(), "credit") || str_eq(l.as_str(), "crdt") {
        copy_str("CRDT")
    } else if str_eq(l.as_str(), "debit") || str_eq(l.as_str(), "dbit") {
        copy_str("DBIT")
    } else {
        to_upper(l.as_str())
    }
}

fn is_listed(t: &TransactionRecord, dir: &Option<String>, cat_lower: &Option<String>, dir_in: Ghost<Option<Seq<char>>>, cat_in: Ghost<Option<Seq<char>>>) -> (r: bool)
    requires
        dir_in@ matches Some(d) ==> dir matches Some(x) && x@ == direction_indicator(d),
        dir_in@ is None ==> dir is None,
        cat_in@ matches Some(c) ==> cat_lower matches Some(x) && x@ == unicode_lower(c),
        cat_in@ is None ==> cat_lower is None,
    ensures
        r == listed(*t, dir_in@, cat_in@),
{
    if t.is_pending() {
        return false;
    }
    match dir {
        Some(d) => {
            if !str_eq(t.credit_debit_indicator.as_str(), d.as_str()) {
                return false;
            }
        },
        None => {},
    }
    match cat_lower {
        Some(c) => {
            let l = to_lower(t.category.as_str());
            if !str_eq(l.as_str(), c.as_str()) {
                return false;
            }
        },
        None => {},
    }
    true
}

pub proof fn lemma_insert_no_dup(all: Seq<TransactionRecord>, x: usize, s: Seq<usize>)
    requires
        s.no_duplicates(),
        !s.contains(x),
    ensures
        insert_by_display(all, x, s).no_duplicates(),
        forall|y: usize| #[trigger] insert_by_display(all, x, s).contains(y) <==> (y == x || s.contains(y)),
    decreases s.len(),
{
    lemma_insert_len_members(all, x, s);
    let r = insert_by_display(all, x, s);
    if s.len() > 0 && crate::models::shown_before(all[x as int], all[s.last() as int]) {
        let d = s.drop_last();
        assert(d.no_duplicates());
        assert(!d.contains(x)) by {
            if d.contains(x) {
                let w = choose|w: int| 0 <= w < d.len() && d[w] == x;
                assert(s[w] == x);
            }
        }
        lemma_insert_no_dup(all, x, d);
        let q = insert_by_display(all, x, d);
        assert(!q.contains(s.last())) by {
            if q.contains(s.last()) {
                if s.last() == x {
                    assert(s.contains(x));
                } else {
                    let w = choose|w: int| 0 <= w < d.len() && d[w] == s.last();
                    assert(s[w] == s[s.len() - 1]);
                }
            }
        }
        assert forall|y: usize| #[trigger] r.contains(y) <==> (y == x || s.contains(y)) by {
            if r.contains(y) {
                let w = choose|w: int| 0 <= w < r.len() && r[w] == y;
                if w < q.len() {
                    assert(q.contains(y));
                    if y != x {
                        let v = choose|v: int| 0 <= v < d.len() && d[v] == y;
                        assert(s[v] == y);
                    }
                } else {
                    assert(s[s.len() - 1] == y);
                }
            }
            if y == x {
                assert(q.contains(x));
                let w = choose|w: int| 0 <= w < q.len() && q[w] == x;
                assert(r[w] == x);
            } else if s.contains(y) {
                let w = choose|w: int| 0 <= w < s.len() && s[w] == y;
                if w == s.len() - 1 {
                    assert(r[r.len() - 1] == y);
                } else {
                    assert(d[w] == y);
                    assert(q.contains(y));
                    let v = choose|v: int| 0 <= v < q.len() && q[v] == y;
                    assert(r[v] == y);
                }
            }
        }
    } else if s.len() > 0 {
        assert forall|y: usize| #[trigger] r.contains(y) <==> (y == x || s.contains(y)) by {
            if r.contains(y) {
                let w = choose|w: int| 0 <= w < r.len() && r[w] == y;
                if w < s.len() {
                    assert(s[w] == y);
                }
            }
            if y == x {
                assert(r[r.len() - 1] == x);
            } else if s.contains(y) {
                let w = choose|w: int| 0 <= w < s.len() && s[w] == y;
                assert(r[w] == y);
            }
        }
    } else {
        assert forall|y: usize| #[trigger] r.contains(y) <==> (y == x || s.contains(y)) by {
            if y == x {
                assert(r[0] == x);
            }
        }
    }
}

/// Sorting display positions neither loses nor repeats a position.
pub proof fn lemma_sort_no_dup(all: Seq<TransactionRecord>, idx: Seq<usize>)
    requires
        idx.no_duplicates(),
    ensures
        sort_by_display(all, idx).no_duplicates(),
        forall|y: usize| #[trigger] sort_by_display(all, idx).contains(y) <==> idx.contains(y),
        sort_by_display(all, idx).len() == idx.len(),
    decreases idx.len(),
{
    if idx.len() > 0 {
        let d = idx.drop_last();
        assert(d.no_duplicates());
        lemma_sort_no_dup(all, d);
        assert(!d.contains(idx.last())) by {
            if d.contains(idx.last()) {
                let w = choose|w: int| 0 <= w < d.len() && d[w] == idx.last();
                assert(idx[w] == idx[idx.len() - 1]);
            }
        }
        lemma_insert_no_dup(all, idx.last(), sort_by_display(all, d));
        lemma_insert_len_members(all, idx.last(), sort_by_display(all, d));
        assert forall|y: usize| #[trigger] sort_by_display(all, idx).contains(y) <==> idx.contains(y) by {
            if d.contains(y) {
                let w = choose|w: int| 0 <= w < d.len() && d[w] == y;
                assert(idx[w] == y);
            }
            if idx.contains(y) && y != idx.last() {
                let w = choose|w: int| 0 <= w < idx.len() && idx[w] == y;
                assert(w != idx.len() - 1);
                assert(d[w] == y);
            }
        }
    }
}

/// Applies direction/category filters, drops pending transactions, then sorts
/// newest first and keeps at most `limit` transactions (a non-positive or
/// absent limit keeps them all).
pub fn prepare_transaction_output(
    txns: &mut Vec<TransactionRecord>,
    direction: Option<&str>,
    category: Option<&str>,
    limit: Option<i32>,
)
    ensures
        final(txns)@ == at_positions(
            old(txns)@,
            listed_positions(old(txns)@, opt_view(direction), opt_view(category)).take(
                limited_len(
                    listed_positions(old(txns)@, opt_view(direction), opt_view(category)).len(),
                    limit,
                ) as int,
            ),
        ),
{
    let ghost all = old(txns)@;
    let ghost dir_in = opt_view(direction);
    let ghost cat_in = opt_view(category);
    let mut src: Vec<TransactionRecord> = Vec::new();
    std::mem::swap(txns, &mut src);
    let dir: Option<String> = match direction {
        Some(d) => Some(normalize_direction(d)),
        None => None,
    };
    let cat_lower: Option<String> = match category {
        Some(c) => Some(to_lower(c)),
        None => None,
    };
    let ghost f = |t: TransactionRecord| listed(t, dir_in, cat_in);
    let mut kept: Vec<usize> = Vec::new();
    let mut i: usize = 0;
    while i < src.len()
        invariant
            i <= src.len(),
            src@ == all,
            dir_in == opt_view(direction),
            cat_in == opt_view(category),
            dir_in matches Some(d) ==> dir matches Some(x) && x@ == direction_indicator(d),
            dir_in is None ==> dir is None,
            cat_in matches Some(c) ==> cat_lower matches Some(x) && x@ == unicode_lower(c),
            cat_in is None ==> cat_lower is None,
            f == (|t: TransactionRecord| listed(t, dir_in, cat_in)),
            kept@ == positions_where(all, f, i as nat),
        decreases src.len() - i,
    {
        if is_listed(&src[i], &dir, &cat_lower, Ghost(dir_in), Ghost(cat_in)) {
            kept.push(i);
        }
        i = i + 1;
    }
    proof {
        lemma_positions_where(all, f, all.len());
        assert(kept@.no_duplicates());
    }
    let mut sorted = sort_positions_by_display(src.as_slice(), &kept);
    proof {
        lemma_sort_no_dup(all, kept@);
        assert forall|k: int| 0 <= k < sorted@.len() implies #[trigger] sorted@[k] < all.len() by {
            assert(sorted@.contains(sorted@[k]));
            assert(kept@.contains(sorted@[k]));
        }
    }
    let ghost full = sorted@;
    let n = sorted.len();
    let keep_n: usize = match limit {
        Some(l) => if l > 0 && (l as usize) < n {
            l as usize
        } else {
            n
        },
        None => n,
    };
    sorted.truncate(keep_n);
    assert(sorted@ =~= full.take(keep_n as int));
    // Move the records out, in the sorted order.
    let mut slots: Vec<Option<TransactionRecord>> = Vec::new();
    let ghost total = src@.len();
    while src.len() > 0
        invariant
            slots@.len() + src@.len() == total,
            total == all.len(),
            forall|k: int| 0 <= k < slots@.len() ==> #[trigger] slots@[k] == Some(all[k]),
            forall|k: int| 0 <= k < src@.len() ==> #[trigger] src@[k] == all[slots@.len() + k],
        decreases src.len(),
    {
        let t = src.remove(0);
        slots.push(Some(t));
    }
    let mut out: Vec<TransactionRecord> = Vec::new();
    let mut j: usize = 0;
    while j < sorted.len()
        invariant
            j <= sorted.len(),
            slots@.len() == all.len(),
            sorted@ == full.take(keep_n as int),
            keep_n <= full.len(),
            full.no_duplicates(),
            forall|k: int| 0 <= k < full.len() ==> #[trigger] full[k] < all.len(),
            forall|q: int| 0 <= q < all.len() ==> (#[trigger] slots@[q] == Some(all[q]) || exists|k: int| 0 <= k < j && full[k] == q),
            out@ == at_positions(all, sorted@.take(j as int)),
        decreases sorted.len() - j,
    {
        let p = sorted[j];
        assert(slots@[p as int] == Some(all[p as int])) by {
            if slots@[p as int] != Some(all[p as int]) {
                let k = choose|k: int| 0 <= k < j && full[k] == p;
                assert(full[j as int] == p);
            }
        }
        let t = slots[p].take();
        match t {
            Some(rec) => {
                out.push(rec);
            },
            None => {},
        }
        proof {
            assert(at_positions(all, sorted@.take(j + 1)) =~= at_positions(all, sorted@.take(j as int)).push(all[p as int]));
        }
        j = j + 1;
    }
    assert(sorted@.take(sorted@.len() as int) =~= sorted@);
    *txns = out;
}


// ---------------------------------------------------------------------------
// TUI transaction view
// ---------------------------------------------------------------------------

/// The filters of the TUI transaction list.
#[derive(Debug, Clone, Default)]
pub struct TxnFilter {
    pub category: Option<String>,
    pub direction: Option<String>,
    pub active: bool,
    pub search: String,
}

/// The remittance lines joined by spaces, else the creditor, else the debtor.
pub open spec fn description_spec(t: TransactionRecord) -> Seq<char> {
    if t.remittance_info@.len() > 0 {
        join_spec(crate::text::views(t.remittance_info@), " "@)
    } else if t.creditor_name@.len() > 0 {
        t.creditor_name@
    } else {
        t.debtor_name@
    }
}

/// The text a search looks in: date, amount, currency, description, category,
/// creditor, debtor and note, separated by spaces.
pub open spec fn searchable_spec(t: TransactionRecord) -> Seq<char> {
    t.booking_date@ + " "@ + t.amount@ + " "@ + t.currency@ + " "@ + description_spec(t) + " "@
        + t.category@ + " "@ + t.creditor_name@ + " "@ + t.debtor_name@ + " "@ + t.note@
}

/// A booked transaction passes the filter: when it is active, the chosen
/// category (any ASCII case) and direction; and any search text, compared
/// lower-cased.
pub open spec fn passes_filter(t: TransactionRecord, f: TxnFilter) -> bool {
    &&& f.active ==> (f.category matches Some(c) ==> eq_ignore_ascii_case_spec(t.category@, c@))
    &&& f.active ==> (f.direction matches Some(d) ==> t.credit_debit_indicator@ == d@)
    &&& f.search@.len() > 0 ==> has_sub(unicode_lower(searchable_spec(t)), unicode_lower(f.search@))
}

/// The booked transactions, newest first (the CLI order).
pub open spec fn booked_positions(all: Seq<TransactionRecord>) -> Seq<usize> {
    sort_by_display(all, positions_where(all, |t: TransactionRecord| !is_pending_spec(t), all.len()))
}

/// The positions the TUI shows for a filter.
pub open spec fn visible_positions(all: Seq<TransactionRecord>, f: TxnFilter) -> Seq<usize> {
    select_positions(all, booked_positions(all), |t: TransactionRecord| passes_filter(t, f))
}

/// The description shown for a transaction, without its note.
pub fn description_without_note(tx: &TransactionRecord) -> (r: String)
    ensures
        r@ == description_spec(*tx),
{
    if tx.remittance_info.len() > 0 {
        join(&tx.remittance_info, " ")
    } else if !tx.creditor_name.as_str().is_empty() {
        copy_str(tx.creditor_name.as_str())
    } else {
        copy_str(tx.debtor_name.as_str())
    }
}

/// The text that a search of the transaction list looks in.
pub fn searchable_text(tx: &TransactionRecord) -> (r: String)
    ensures
        r@ == searchable_spec(*tx),
{
    let desc = description_without_note(tx);
    let mut r = copy_str(tx.booking_date.as_str());
    crate::text::push_str(&mut r, " ");
    crate::text::push_str(&mut r, tx.amount.as_str());
    crate::text::push_str(&mut r, " ");
    crate::text::push_str(&mut r, tx.currency.as_str());
    crate::text::push_str(&mut r, " ");
    crate::text::push_str(&mut r, desc.as_str());
    crate::text::push_str(&mut r, " ");
    crate::text::push_str(&mut r, tx.category.as_str());
    crate::text::push_str(&mut r, " ");
    crate::text::push_str(&mut r, tx.creditor_name.as_str());
    crate::text::push_str(&mut r, " ");
    crate::text::push_str(&mut r, tx.debtor_name.as_str());
    crate::text::push_str(&mut r, " ");
    crate::text::push_str(&mut r, tx.note.as_str());
    r
}

fn passes(t: &TransactionRecord, f: &TxnFilter, q: &String) -> (r: bool)
    requires
        f.search@.len() > 0 ==> q@ == unicode_lower(f.search@),
    ensures
        r == passes_filter(*t, *f),
{
    if f.active {
        match &f.category {
            Some(c) => {
                if !eq_ignore_ascii_case(t.category.as_str(), c.as_str()) {
                    return false;
                }
            },
            None => {},
        }
        match &f.direction {
            Some(d) => {
                if !str_eq(t.credit_debit_indicator.as_str(), d.as_str()) {
                    return false;
                }
            },
            None => {},
        }
    }
    if !f.search.as_str().is_empty() {
        let text = searchable_text(t);
        let lower = to_lower(text.as_str());
        if !contains_str(lower.as_str(), q.as_str()) {
            return false;
        }
    }
    true
}

/// The booked transactions the TUI list shows for a filter, newest first.
pub fn visible_transactions<'a>(all: &'a [TransactionRecord], filter: &TxnFilter) -> (r: Vec<
    &'a TransactionRecord,
>)
    ensures
        r@.len() == visible_positions(all@, *filter).len(),
        forall|k: int|
            0 <= k < r@.len() ==> *#[trigger] r@[k] == all@[visible_positions(all@, *filter)[k] as int],
{
    let ghost f = |t: TransactionRecord| !is_pending_spec(t);
    let mut booked: Vec<usize> = Vec::new();
    let mut i: usize = 0;
    while i < all.len()
        invariant
            i <= all.len(),
            f == (|t: TransactionRecord| !is_pending_spec(t)),
            booked@ == positions_where(all@, f, i as nat),
        decreases all.len() - i,
    {
        if !all[i].is_pending() {
            booked.push(i);
        }
        i = i + 1;
    }
    proof {
        lemma_positions_where(all@, f, all@.len());
    }
    let sorted = sort_positions_by_display(all, &booked);
    proof {
        lemma_sort_no_dup(all@, booked@);
        assert forall|k: int| 0 <= k < sorted@.len() implies #[trigger] sorted@[k] < all@.len() by {
            assert(sorted@.contains(sorted@[k]));
            assert(booked@.contains(sorted@[k]));
        }
    }
    let q = if filter.search.as_str().is_empty() {
        String::new()
    } else {
        to_lower(filter.search.as_str())
    };
    let ghost g = |t: TransactionRecord| passes_filter(t, *filter);
    let mut r: Vec<&'a TransactionRecord> = Vec::new();
    let mut sel: Ghost<Seq<usize>> = Ghost(Seq::empty());
    let mut j: usize = 0;
    while j < sorted.len()
        invariant
            j <= sorted.len(),
            sorted@ == booked_positions(all@),
            forall|k: int| 0 <= k < sorted@.len() ==> #[trigger] sorted@[k] < all@.len(),
            filter.search@.len() > 0 ==> q@ == unicode_lower(filter.search@),
            g == (|t: TransactionRecord| passes_filter(t, *filter)),
            sel@ == select_positions(all@, sorted@.take(j as int), g),
            r@.len() == sel@.len(),
            forall|k: int| 0 <= k < r@.len() ==> *#[trigger] r@[k] == all@[sel@[k] as int],
        decreases sorted.len() - j,
    {
        proof {
            let t = sorted@.take(j + 1);
            assert(t.drop_last() =~= sorted@.take(j as int));
        }
        let p = sorted[j];
        if passes(&all[p], filter, &q) {
            r.push(&all[p]);
            proof {
                sel@ = sel@.push(p);
            }
        }
        j = j + 1;
    }
    assert(sorted@.take(sorted@.len() as int) =~= sorted@);
    r
}

/// The transaction under the cursor of the TUI list, if any.
pub fn selected_transaction<'a>(
    all: &'a [TransactionRecord],
    filter: &TxnFilter,
    cursor: usize,
) -> (r: Option<&'a TransactionRecord>)
    ensures
        cursor < visible_positions(all@, *filter).len() ==> (r matches Some(t) && *t == all@[visible_positions(all@, *filter)[cursor as int] as int]),
        cursor >= visible_positions(all@, *filter).len() ==> r is None,
{
    let v = visible_transactions(all, filter);
    if cursor < v.len() {
        Some(v[cursor])
    } else {
        None
    }
}

// ---------------------------------------------------------------------------
// Laws of the listings
// ---------------------------------------------------------------------------

proof fn lemma_positions_sat(all: Seq<TransactionRecord>, f: spec_fn(TransactionRecord) -> bool, n: nat)
    requires
        n <= all.len(),
        n <= usize::MAX,
    ensures
        forall|k: int| 0 <= k < positions_where(all, f, n).len() ==> f(all[#[trigger] positions_where(all, f, n)[k] as int]),
    decreases n,
{
    if n > 0 {
        lemma_positions_sat(all, f, (n - 1) as nat);
        let p = positions_where(all, f, (n - 1) as nat);
        let q = positions_where(all, f, n);
        assert forall|k: int| 0 <= k < q.len() implies f(all[#[trigger] q[k] as int]) by {
            if f(all[n - 1]) {
                assert(q == p.push((n - 1) as usize));
                if k < p.len() {
                    assert(q[k] == p[k]);
                } else {
                    assert(q[k] == (n - 1) as usize);
                    assert(q[k] as int == n - 1);
                }
            } else {
                assert(q == p);
            }
        }
    }
}

proof fn lemma_positions_no_dup(all: Seq<TransactionRecord>, f: spec_fn(TransactionRecord) -> bool, n: nat)
    requires
        n <= all.len(),
        n <= usize::MAX,
    ensures
        positions_where(all, f, n).no_duplicates(),
{
    lemma_positions_where(all, f, n);
    let q = positions_where(all, f, n);
    assert forall|k: int, l: int| 0 <= k < q.len() && 0 <= l < q.len() && k != l implies q[k] != q[l] by {
        if k < l {
            assert(q[k] < q[l]);
        } else {
            assert(q[l] < q[k]);
        }
    }
}

proof fn lemma_select_sorted(all: Seq<TransactionRecord>, ps: Seq<usize>, f: spec_fn(TransactionRecord) -> bool)
    requires
        display_sorted(all, ps),
    ensures
        display_sorted(all, select_positions(all, ps, f)),
        forall|k: int| 0 <= k < select_positions(all, ps, f).len() ==> f(all[#[trigger] select_positions(all, ps, f)[k] as int]),
    decreases ps.len(),
{
    if ps.len() > 0 {
        let d = ps.drop_last();
        assert forall|i: int, j: int| 0 <= i < j < d.len() implies not_after(all[#[trigger] d[i] as int], all[#[trigger] d[j] as int]) by {
            assert(d[i] == ps[i] && d[j] == ps[j]);
        }
        lemma_select_sorted(all, d, f);
        lemma_select_subset(all, d, f);
        let q = select_positions(all, d, f);
        let r = select_positions(all, ps, f);
        if f(all[ps.last() as int]) {
            assert(r == q.push(ps.last()));
            assert forall|i: int, j: int| 0 <= i < j < r.len() implies not_after(all[#[trigger] r[i] as int], all[#[trigger] r[j] as int]) by {
                assert(r[i] == q[i]);
                if j < q.len() {
                    assert(r[j] == q[j]);
                } else {
                    assert(d.contains(q[i]));
                    let w = choose|w: int| 0 <= w < d.len() && d[w] == q[i];
                    assert(ps[w] == q[i]);
                    assert(r[j] == ps[ps.len() - 1]);
                }
            }
            assert forall|k: int| 0 <= k < r.len() implies f(all[#[trigger] r[k] as int]) by {
                if k < q.len() {
                    assert(r[k] == q[k]);
                }
            }
        }
    }
}

/// What `prepare_transaction_output` keeps is booked and matches the
/// filters, comes newest first, and holds no more than a positive limit.
pub proof fn law_prepared_output(
    all: Seq<TransactionRecord>,
    dir: Option<Seq<char>>,
    cat: Option<Seq<char>>,
    limit: Option<i32>,
)
    requires
        all.len() <= usize::MAX,
    ensures
        ({
            let ps = listed_positions(all, dir, cat);
            let out = at_positions(all, ps.take(limited_len(ps.len(), limit) as int));
            &&& forall|i: int| 0 <= i < out.len() ==> listed(#[trigger] out[i], dir, cat) && !is_pending_spec(out[i])
            &&& forall|i: int, j: int| 0 <= i < j < out.len() ==> not_after(#[trigger] out[i], #[trigger] out[j])
            &&& (limit is Some && limit.unwrap() > 0 ==> out.len() <= limit.unwrap())
            &&& out.len() <= all.len()
        }),
{
    let f = |t: TransactionRecord| listed(t, dir, cat);
    let pw = positions_where(all, f, all.len());
    lemma_positions_where(all, f, all.len());
    lemma_positions_sat(all, f, all.len());
    lemma_positions_no_dup(all, f, all.len());
    crate::listing::lemma_sort_no_dup(all, pw);
    lemma_sort_sorted(all, pw);
    let ps = listed_positions(all, dir, cat);
    assert(ps == sort_by_display(all, pw));
    let t = ps.take(limited_len(ps.len(), limit) as int);
    let out = at_positions(all, t);
    assert forall|i: int| 0 <= i < out.len() implies listed(#[trigger] out[i], dir, cat) && !is_pending_spec(out[i]) by {
        assert(out[i] == all[t[i] as int]);
        assert(t[i] == ps[i]);
        assert(ps.contains(ps[i]));
        assert(pw.contains(ps[i]));
        let w = choose|w: int| 0 <= w < pw.len() && pw[w] == ps[i];
        assert(f(all[pw[w] as int]));
    }
    assert forall|i: int, j: int| 0 <= i < j < out.len() implies not_after(#[trigger] out[i], #[trigger] out[j]) by {
        assert(out[i] == all[ps[i] as int]);
        assert(out[j] == all[ps[j] as int]);
    }
}

/// The TUI list shows only booked transactions that pass the filter, newest
/// first.
pub proof fn law_visible_booked_and_ordered(all: Seq<TransactionRecord>, filter: TxnFilter)
    requires
        all.len() <= usize::MAX,
    ensures
        ({
            let vs = visible_positions(all, filter);
            &&& forall|i: int| 0 <= i < vs.len() ==> !is_pending_spec(all[#[trigger] vs[i] as int])
                && passes_filter(all[vs[i] as int], filter)
            &&& display_sorted(all, vs)
        }),
{
    let f = |t: TransactionRecord| !is_pending_spec(t);
    let pw = positions_where(all, f, all.len());
    lemma_positions_where(all, f, all.len());
    lemma_positions_sat(all, f, all.len());
    lemma_positions_no_dup(all, f, all.len());
    crate::listing::lemma_sort_no_dup(all, pw);
    lemma_sort_sorted(all, pw);
    let bp = booked_positions(all);
    let g = |t: TransactionRecord| passes_filter(t, filter);
    lemma_select_sorted(all, bp, g);
    lemma_select_subset(all, bp, g);
    let vs = visible_positions(all, filter);
    assert forall|i: int| 0 <= i < vs.len() implies !is_pending_spec(all[#[trigger] vs[i] as int]) && passes_filter(all[vs[i] as int], filter) by {
        assert(bp.contains(vs[i]));
        assert(pw.contains(vs[i]));
        let w = choose|w: int| 0 <= w < pw.len() && pw[w] == vs[i];
        assert(f(all[pw[w] as int]));
        assert(g(all[vs[i] as int]));
    }
}

proof fn lemma_positions_complete(all: Seq<TransactionRecord>, f: spec_fn(TransactionRecord) -> bool, n: nat, p: int)
    requires
        n <= all.len(),
        n <= usize::MAX,
        0 <= p < n,
        f(all[p]),
    ensures
        positions_where(all, f, n).contains(p as usize),
    decreases n,
{
    let q = positions_where(all, f, (n - 1) as nat);
    if p < n - 1 {
        lemma_positions_complete(all, f, (n - 1) as nat, p);
        let w = choose|w: int| 0 <= w < q.len() && q[w] == p as usize;
        assert(positions_where(all, f, n)[w] == p as usize);
    } else {
        assert(positions_where(all, f, n)[q.len() as int] == p as usize);
    }
}

proof fn lemma_select_complete(all: Seq<TransactionRecord>, ps: Seq<usize>, f: spec_fn(TransactionRecord) -> bool, x: usize)
    requires
        ps.contains(x),
        f(all[x as int]),
    ensures
        select_positions(all, ps, f).contains(x),
    decreases ps.len(),
{
    let d = ps.drop_last();
    let q = select_positions(all, d, f);
    if ps.last() == x {
        assert(select_positions(all, ps, f)[q.len() as int] == x);
    } else {
        let w = choose|w: int| 0 <= w < ps.len() && ps[w] == x;
        assert(d[w] == x);
        lemma_select_complete(all, d, f, x);
        let v = choose|v: int| 0 <= v < q.len() && q[v] == x;
        assert(select_positions(all, ps, f)[v] == x);
    }
}

/// The TUI list shows every booked transaction whose category and direction
/// are the chosen ones (when the filter is active) and whose searchable text,
/// lower-cased, holds the lower-cased search text.
pub proof fn law_visible_includes_matches(all: Seq<TransactionRecord>, filter: TxnFilter, p: int)
    requires
        all.len() <= usize::MAX,
        0 <= p < all.len(),
        !is_pending_spec(all[p]),
        filter.active ==> (filter.category matches Some(c) ==> eq_ignore_ascii_case_spec(all[p].category@, c@)),
        filter.active ==> (filter.direction matches Some(d) ==> all[p].credit_debit_indicator@ == d@),
        filter.search@.len() > 0 ==> has_sub(unicode_lower(searchable_spec(all[p])), unicode_lower(filter.search@)),
    ensures
        visible_positions(all, filter).contains(p as usize),
{
    let f = |t: TransactionRecord| !is_pending_spec(t);
    let pw = positions_where(all, f, all.len());
    lemma_positions_complete(all, f, all.len(), p);
    lemma_positions_no_dup(all, f, all.len());
    crate::listing::lemma_sort_no_dup(all, pw);
    let g = |t: TransactionRecord| passes_filter(t, filter);
    assert(g(all[p]));
    lemma_select_complete(all, booked_positions(all), g, p as usize);
}

/// Every transaction the TUI list shows under a search text has that text,
/// lower-cased, in its lower-cased searchable text.
pub proof fn law_visible_search_matches(all: Seq<TransactionRecord>, filter: TxnFilter, i: int)
    requires
        all.len() <= usize::MAX,
        0 <= i < visible_positions(all, filter).len(),
        filter.search@.len() > 0,
    ensures
        has_sub(
            unicode_lower(searchable_spec(all[visible_positions(all, filter)[i] as int])),
            unicode_lower(filter.search@),
        ),
{
    law_visible_booked_and_ordered(all, filter);
    assert(passes_filter(all[visible_positions(all, filter)[i] as int], filter));
}

/// Search ignores case: two transactions with the same category and
/// direction whose searchable texts agree once lower-cased are shown or
/// hidden together.
pub proof fn law_search_ignores_case(t1: TransactionRecord, t2: TransactionRecord, filter: TxnFilter)
    requires
        t1.category@ == t2.category@,
        t1.credit_debit_indicator@ == t2.credit_debit_indicator@,
        unicode_lower(searchable_spec(t1)) == unicode_lower(searchable_spec(t2)),
    ensures
        passes_filter(t1, filter) == passes_filter(t2, filter),
{
}

/// The CLI lists every booked transaction in the chosen direction whose
/// category equals the chosen one once both are lower-cased.
pub proof fn law_listed_includes_matches(
    all: Seq<TransactionRecord>,
    dir: Option<Seq<char>>,
    cat: Option<Seq<char>>,
    p: int,
)
    requires
        all.len() <= usize::MAX,
        0 <= p < all.len(),
        !is_pending_spec(all[p]),
        dir matches Some(d) ==> all[p].credit_debit_indicator@ == direction_indicator(d),
        cat matches Some(c) ==> unicode_lower(all[p].category@) == unicode_lower(c),
    ensures
        listed_positions(all, dir, cat).contains(p as usize),
{
    let f = |t: TransactionRecord| listed(t, dir, cat);
    let pw = positions_where(all, f, all.len());
    assert(f(all[p]));
    lemma_positions_complete(all, f, all.len(), p);
    lemma_positions_no_dup(all, f, all.len());
    crate::listing::lemma_sort_no_dup(all, pw);
}

} // verus!
