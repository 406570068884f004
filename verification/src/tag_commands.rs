use vstd::prelude::*;
use vstd::utf8::{encode_utf8_decode_utf8, is_char_boundary};

use crate::models::{CategoryUpdate, TransactionRecord};
use crate::output::{byte_count, byte_slice, bytes_of};
use crate::refresh::rule_category;
use crate::tagger::{match_category, normalize, normalize_spec, CategoryRule};
use crate::text::{concat, copy_str, debug_quoted, debug_str, push_str, str_eq};

verus! {

// ---------------------------------------------------------------------------
// Applying the rules to every transaction
// ---------------------------------------------------------------------------

/// How many transactions went to one category.
#[derive(Debug, Clone)]
pub struct CategoryCount {
    pub category: String,
    pub count: usize,
}

/// What applying the tag rules does: one automatic update per transaction
/// not tagged by hand, how many were tagged and skipped, and how many went
/// to each category.
#[derive(Debug, Clone)]
pub struct TagPlan {
    pub updates: Vec<CategoryUpdate>,
    pub tagged: usize,
    pub skipped_manual: usize,
    pub by_category: Vec<CategoryCount>,
}

pub open spec fn is_manual(t: TransactionRecord) -> bool {
    t.category_source@ == "manual"@
}

/// The positions of the first `n` transactions not tagged by hand.
pub open spec fn auto_positions(txns: Seq<TransactionRecord>, n: int) -> Seq<int>
    decreases n,
{
    if n <= 0 {
        Seq::<int>::empty()
    } else if !is_manual(txns[n - 1]) {
        auto_positions(txns, n - 1).push(n - 1)
    } else {
        auto_positions(txns, n - 1)
    }
}

/// How many of the first `n` transactions were tagged by hand.
pub open spec fn manual_count(txns: Seq<TransactionRecord>, n: int) -> nat
    decreases n,
{
    if n <= 0 {
        0
    } else {
        manual_count(txns, n - 1) + if is_manual(txns[n - 1]) {
            1nat
        } else {
            0nat
        }
    }
}

/// How many of the first `n` transactions the rules put in `cat` (those
/// tagged by hand do not count).
pub open spec fn category_count(txns: Seq<TransactionRecord>, rules: Seq<CategoryRule>, cat: Seq<char>, n: int) -> nat
    decreases n,
{
    if n <= 0 {
        0
    } else {
        category_count(txns, rules, cat, n - 1) + if !is_manual(txns[n - 1]) && rule_category(txns[n - 1], rules)
            == cat {
            1nat
        } else {
            0nat
        }
    }
}

/// The breakdown by category after `n` transactions: distinct categories,
/// each with its count, every category the rules gave present.
pub open spec fn breakdown_ok(
    txns: Seq<TransactionRecord>,
    rules: Seq<CategoryRule>,
    by: Seq<CategoryCount>,
    n: int,
) -> bool {
    &&& forall|a: int, b: int| 0 <= a < b < by.len() ==> (#[trigger] by[a]).category@ != (#[trigger] by[b]).category@
    &&& forall|a: int|
        0 <= a < by.len() ==> (#[trigger] by[a]).count == category_count(txns, rules, by[a].category@, n) && by[a].count
            > 0
    &&& forall|q: int|
        0 <= q < n && !is_manual(#[trigger] txns[q]) ==> exists|a: int|
            0 <= a < by.len() && (#[trigger] by[a]).category@ == rule_category(txns[q], rules)
}

/// The update applying the rules makes to a transaction.
pub open spec fn rule_update(u: CategoryUpdate, t: TransactionRecord, rules: Seq<CategoryRule>) -> bool {
    &&& u.account_uid@ == t.account_uid@
    &&& u.transaction_id@ == t.transaction_id@
    &&& u.category@ == rule_category(t, rules)
    &&& u.source@ == "auto"@
}

proof fn lemma_count_positive(txns: Seq<TransactionRecord>, rules: Seq<CategoryRule>, cat: Seq<char>, n: int, q: int)
    requires
        0 <= q < n <= txns.len(),
        !is_manual(txns[q]),
        rule_category(txns[q], rules) == cat,
    ensures
        category_count(txns, rules, cat, n) > 0,
    decreases n,
{
    if q < n - 1 {
        lemma_count_positive(txns, rules, cat, n - 1, q);
    }
}

proof fn lemma_count_bound(txns: Seq<TransactionRecord>, rules: Seq<CategoryRule>, cat: Seq<char>, n: int)
    requires
        0 <= n,
    ensures
        category_count(txns, rules, cat, n) <= n,
        manual_count(txns, n) <= n,
        auto_positions(txns, n).len() + manual_count(txns, n) == n,
    decreases n,
{
    if n > 0 {
        lemma_count_bound(txns, rules, cat, n - 1);
    }
}

/// Applies the rules to the transactions (what `tag apply` writes and
/// reports).
pub fn plan_tagging(txns: &[TransactionRecord], rules: &[CategoryRule]) -> (r: TagPlan)
    ensures
        r.updates@.len() == auto_positions(txns@, txns@.len() as int).len(),
        forall|k: int|
            0 <= k < r.updates@.len() ==> rule_update(
                #[trigger] r.updates@[k],
                txns@[auto_positions(txns@, txns@.len() as int)[k]],
                rules@,
            ),
        r.tagged == r.updates@.len(),
        r.skipped_manual == manual_count(txns@, txns@.len() as int),
        breakdown_ok(txns@, rules@, r.by_category@, txns@.len() as int),
{
    let mut updates: Vec<CategoryUpdate> = Vec::new();
    let mut skipped: usize = 0;
    let mut by: Vec<CategoryCount> = Vec::new();
    let mut i: usize = 0;
    while i < txns.len()
        invariant
            i <= txns@.len(),
            updates@.len() == auto_positions(txns@, i as int).len(),
            forall|k: int|
                0 <= k < updates@.len() ==> rule_update(
                    #[trigger] updates@[k],
                    txns@[auto_positions(txns@, i as int)[k]],
                    rules@,
                ),
            skipped == manual_count(txns@, i as int),
            breakdown_ok(txns@, rules@, by@, i as int),
        decreases txns.len() - i,
    {
        proof {
            lemma_count_bound(txns@, rules@, Seq::<char>::empty(), i as int);
        }
        let t = &txns[i];
        if str_eq(t.category_source.as_str(), "manual") {
            skipped = skipped + 1;
            proof {
                lemma_breakdown_skip(txns@, rules@, by@, i as int);
            }
        } else {
            let norm = normalize(&t.remittance_info, t.creditor_name.as_str(), t.debtor_name.as_str(), t.note.as_str());
            let cat = match_category(norm.as_str(), rules);
            let ghost before = updates@;
            updates.push(CategoryUpdate {
                account_uid: copy_str(t.account_uid.as_str()),
                transaction_id: copy_str(t.transaction_id.as_str()),
                category: copy_str(cat.as_str()),
                source: copy_str("auto"),
            });
            proof {
                assert forall|k: int| 0 <= k < updates@.len() implies rule_update(
                    #[trigger] updates@[k],
                    txns@[auto_positions(txns@, i + 1)[k]],
                    rules@,
                ) by {
                    if k < before.len() {
                        assert(updates@[k] == before[k]);
                    }
                }
            }
            count_category(&mut by, txns, rules, i, cat);
        }
        i = i + 1;
    }
    let tagged = updates.len();
    TagPlan { updates, tagged, skipped_manual: skipped, by_category: by }
}

proof fn lemma_breakdown_skip(txns: Seq<TransactionRecord>, rules: Seq<CategoryRule>, by: Seq<CategoryCount>, i: int)
    requires
        0 <= i < txns.len(),
        is_manual(txns[i]),
        breakdown_ok(txns, rules, by, i),
    ensures
        breakdown_ok(txns, rules, by, i + 1),
{
}

/// Counts transaction `i`, which the rules put in `cat`.
fn count_category(by: &mut Vec<CategoryCount>, txns: &[TransactionRecord], rules: &[CategoryRule], i: usize, cat: String)
    requires
        i < txns@.len(),
        !is_manual(txns@[i as int]),
        cat@ == rule_category(txns@[i as int], rules@),
        breakdown_ok(txns@, rules@, old(by)@, i as int),
    ensures
        breakdown_ok(txns@, rules@, final(by)@, i + 1),
{
    let ghost before = by@;
    let ghost c = cat@;
    let len = txns.len();
    let mut a: usize = 0;
    while a < by.len()
        invariant
            a <= by@.len(),
            by@ == before,
            c == cat@,
            len == txns@.len(),
            i < txns@.len(),
            !is_manual(txns@[i as int]),
            c == rule_category(txns@[i as int], rules@),
            breakdown_ok(txns@, rules@, before, i as int),
            forall|b: int| 0 <= b < a ==> (#[trigger] by@[b]).category@ != c,
        decreases by.len() - a,
    {
        if str_eq(by[a].category.as_str(), cat.as_str()) {
            proof {
                lemma_count_bound(txns@, rules@, c, i as int);
            }
            let n = by[a].count + 1;
            let name = copy_str(by[a].category.as_str());
            by.set(a, CategoryCount { category: name, count: n });
            proof {
                assert forall|x: int| 0 <= x < by@.len() implies (#[trigger] by@[x]).count == category_count(
                    txns@,
                    rules@,
                    by@[x].category@,
                    i + 1,
                ) && by@[x].count > 0 by {
                    if x != a {
                        assert(by@[x] == before[x]);
                        assert(before[x].category@ != before[a as int].category@);
                    }
                }
                assert forall|q: int| 0 <= q < i + 1 && !is_manual(#[trigger] txns@[q]) implies exists|x: int|
                    0 <= x < by@.len() && (#[trigger] by@[x]).category@ == rule_category(txns@[q], rules@) by {
                    if q < i {
                        let x = choose|x: int|
                            0 <= x < before.len() && (#[trigger] before[x]).category@ == rule_category(txns@[q], rules@);
                        assert(by@[x].category@ == before[x].category@);
                    } else {
                        assert(by@[a as int].category@ == c);
                    }
                }
                assert forall|x: int, y: int| 0 <= x < y < by@.len() implies (#[trigger] by@[x]).category@
                    != (#[trigger] by@[y]).category@ by {
                    assert(by@[x].category@ == before[x].category@ && by@[y].category@ == before[y].category@);
                }
            }
            return;
        }
        a = a + 1;
    }
    by.push(CategoryCount { category: cat, count: 1 });
    proof {
        assert(category_count(txns@, rules@, c, i as int) == 0) by {
            if category_count(txns@, rules@, c, i as int) > 0 {
                lemma_count_witness(txns@, rules@, c, i as int);
                let q = choose|q: int| 0 <= q < i && !is_manual(#[trigger] txns@[q]) && rule_category(txns@[q], rules@) == c;
                let x = choose|x: int| 0 <= x < before.len() && (#[trigger] before[x]).category@ == rule_category(txns@[q], rules@);
            }
        }
        assert forall|x: int| 0 <= x < by@.len() implies (#[trigger] by@[x]).count == category_count(
            txns@,
            rules@,
            by@[x].category@,
            i + 1,
        ) && by@[x].count > 0 by {
            if x < before.len() {
                assert(by@[x] == before[x]);
                assert(before[x].category@ != c);
            }
        }
        assert forall|q: int| 0 <= q < i + 1 && !is_manual(#[trigger] txns@[q]) implies exists|x: int|
            0 <= x < by@.len() && (#[trigger] by@[x]).category@ == rule_category(txns@[q], rules@) by {
            if q < i {
                let x = choose|x: int|
                    0 <= x < before.len() && (#[trigger] before[x]).category@ == rule_category(txns@[q], rules@);
                assert(by@[x] == before[x]);
            } else {
                assert(by@[before.len() as int].category@ == c);
            }
        }
        assert forall|x: int, y: int| 0 <= x < y < by@.len() implies (#[trigger] by@[x]).category@
            != (#[trigger] by@[y]).category@ by {
            if y < before.len() {
                assert(by@[x] == before[x] && by@[y] == before[y]);
            } else {
                assert(by@[x] == before[x]);
            }
        }
    }
}

proof fn lemma_count_witness(txns: Seq<TransactionRecord>, rules: Seq<CategoryRule>, cat: Seq<char>, n: int)
    requires
        0 <= n <= txns.len(),
        category_count(txns, rules, cat, n) > 0,
    ensures
        exists|q: int| 0 <= q < n && !is_manual(#[trigger] txns[q]) && rule_category(txns[q], rules) == cat,
    decreases n,
{
    if !(!is_manual(txns[n - 1]) && rule_category(txns[n - 1], rules) == cat) {
        lemma_count_witness(txns, rules, cat, n - 1);
        let q = choose|q: int| 0 <= q < n - 1 && !is_manual(#[trigger] txns[q]) && rule_category(txns[q], rules) == cat;
        assert(0 <= q < n && !is_manual(txns[q]));
    } else {
        assert(0 <= n - 1 < n && !is_manual(txns[n - 1]));
    }
}

// ---------------------------------------------------------------------------
// The breakdown, largest first
// ---------------------------------------------------------------------------

/// Inserts `x` after every entry with at least its count.
pub open spec fn insert_by_count(x: CategoryCount, s: Seq<CategoryCount>) -> Seq<CategoryCount>
    decreases s.len(),
{
    if s.len() > 0 && s.last().count < x.count {
        insert_by_count(x, s.drop_last()).push(s.last())
    } else {
        s.push(x)
    }
}

/// The entries ordered by count, largest first; equal counts keep their
/// order.
pub open spec fn sort_by_count(s: Seq<CategoryCount>) -> Seq<CategoryCount>
    decreases s.len(),
{
    if s.len() == 0 {
        s
    } else {
        insert_by_count(s.last(), sort_by_count(s.drop_last()))
    }
}

pub open spec fn counts_descending(s: Seq<CategoryCount>) -> bool {
    forall|i: int, j: int| 0 <= i < j < s.len() ==> (#[trigger] s[i]).count >= (#[trigger] s[j]).count
}

proof fn lemma_insert_sorted(x: CategoryCount, s: Seq<CategoryCount>)
    requires
        counts_descending(s),
    ensures
        counts_descending(insert_by_count(x, s)),
        insert_by_count(x, s).len() == s.len() + 1,
        forall|k: int|
            0 <= k < insert_by_count(x, s).len() ==> #[trigger] insert_by_count(x, s)[k] == x || s.contains(
                insert_by_count(x, s)[k],
            ),
    decreases s.len(),
{
    let r = insert_by_count(x, s);
    if s.len() > 0 && s.last().count < x.count {
        let t = s.drop_last();
        assert forall|i: int, j: int| 0 <= i < j < t.len() implies (#[trigger] t[i]).count >= (#[trigger] t[j]).count by {
            assert(t[i] == s[i] && t[j] == s[j]);
        }
        lemma_insert_sorted(x, t);
        let q = insert_by_count(x, t);
        lemma_insert_min(x, t, s.last().count);
        assert forall|i: int, j: int| 0 <= i < j < r.len() implies (#[trigger] r[i]).count >= (#[trigger] r[j]).count by {
            if j < q.len() {
                assert(r[i] == q[i] && r[j] == q[j]);
            } else {
                assert(r[j] == s.last());
                assert(r[i] == q[i]);
            }
        }
        assert forall|k: int| 0 <= k < r.len() implies #[trigger] r[k] == x || s.contains(r[k]) by {
            if k < q.len() {
                if q[k] != x {
                    let w = choose|w: int| 0 <= w < t.len() && t[w] == q[k];
                    assert(s[w] == q[k]);
                }
            } else {
                assert(s[s.len() - 1] == r[k]);
            }
        }
    } else {
        assert forall|i: int, j: int| 0 <= i < j < r.len() implies (#[trigger] r[i]).count >= (#[trigger] r[j]).count by {
            if j < s.len() {
                assert(r[i] == s[i] && r[j] == s[j]);
            } else {
                assert(r[i] == s[i]);
                if s.len() > 0 {
                    assert(s[i].count >= s.last().count || i == s.len() - 1);
                }
            }
        }
        assert forall|k: int| 0 <= k < r.len() implies #[trigger] r[k] == x || s.contains(r[k]) by {
            if k < s.len() {
                assert(s[k] == r[k]);
            }
        }
    }
}

/// Every entry of an insertion into entries of count at least `m` has count
/// at least `m` when `x` has.
proof fn lemma_insert_min(x: CategoryCount, s: Seq<CategoryCount>, m: usize)
    requires
        x.count >= m,
        forall|k: int| 0 <= k < s.len() ==> (#[trigger] s[k]).count >= m,
    ensures
        forall|k: int| 0 <= k < insert_by_count(x, s).len() ==> (#[trigger] insert_by_count(x, s)[k]).count >= m,
    decreases s.len(),
{
    if s.len() > 0 && s.last().count < x.count {
        let t = s.drop_last();
        assert forall|k: int| 0 <= k < t.len() implies (#[trigger] t[k]).count >= m by {
            assert(t[k] == s[k]);
        }
        lemma_insert_min(x, t, m);
        lemma_insert_len(x, t);
    }
}

proof fn lemma_insert_len(x: CategoryCount, s: Seq<CategoryCount>)
    ensures
        insert_by_count(x, s).len() == s.len() + 1,
    decreases s.len(),
{
    if s.len() > 0 && s.last().count < x.count {
        lemma_insert_len(x, s.drop_last());
    }
}

/// The breakdown ordered by count, largest first.
pub proof fn law_breakdown_sorted(s: Seq<CategoryCount>)
    ensures
        counts_descending(sort_by_count(s)),
        sort_by_count(s).len() == s.len(),
    decreases s.len(),
{
    if s.len() > 0 {
        law_breakdown_sorted(s.drop_last());
        lemma_insert_sorted(s.last(), sort_by_count(s.drop_last()));
    }
}

fn insert_count(s: &mut Vec<CategoryCount>, x: CategoryCount)
    ensures
        final(s)@ == insert_by_count(x, old(s)@),
{
    let mut j: usize = s.len();
    while j > 0 && s[j - 1].count < x.count
        invariant
            j <= s@.len(),
            s@ == old(s)@,
            forall|k: int| j <= k < s@.len() ==> (#[trigger] s@[k]).count < x.count,
        decreases j,
    {
        j = j - 1;
    }
    proof {
        lemma_insert_split(x, s@, j as int);
    }
    s.insert(j, x);
}

proof fn lemma_insert_split(x: CategoryCount, s: Seq<CategoryCount>, j: int)
    requires
        0 <= j <= s.len(),
        forall|k: int| j <= k < s.len() ==> (#[trigger] s[k]).count < x.count,
        j > 0 ==> s[j - 1].count >= x.count,
    ensures
        insert_by_count(x, s) == s.insert(j, x),
    decreases s.len(),
{
    if j < s.len() {
        lemma_insert_split(x, s.drop_last(), j);
        assert(s.drop_last().insert(j, x).push(s.last()) =~= s.insert(j, x));
    } else {
        assert(s.push(x) =~= s.insert(j, x));
    }
}

/// The breakdown ordered by count, largest first (equal counts keep their
/// order).
pub fn sort_breakdown(v: Vec<CategoryCount>) -> (r: Vec<CategoryCount>)
    ensures
        r@ == sort_by_count(v@),
{
    let ghost orig = v@;
    let mut rest = v;
    let mut r: Vec<CategoryCount> = Vec::new();
    let ghost mut i: int = 0;
    while rest.len() > 0
        invariant
            0 <= i <= orig.len(),
            rest@ == orig.skip(i),
            r@ == sort_by_count(orig.take(i)),
        decreases rest.len(),
    {
        assert(orig.take(i + 1).drop_last() =~= orig.take(i));
        assert(orig.take(i + 1).last() == orig[i]);
        let x = rest.remove(0);
        assert(rest@ =~= orig.skip(i + 1));
        insert_count(&mut r, x);
        proof {
            i = i + 1;
        }
    }
    assert(orig.take(orig.len() as int) =~= orig);
    r
}

// ---------------------------------------------------------------------------
// Previewing the rules
// ---------------------------------------------------------------------------

/// A change the rules would make.
#[derive(Debug, Clone)]
pub struct PreviewChange {
    pub transaction_id: String,
    pub booking_date: String,
    pub description: String,
    pub current_category: String,
    pub new_category: String,
}

pub open spec fn normalized_of(t: TransactionRecord) -> Seq<char> {
    normalize_spec(t.remittance_info@, t.creditor_name@, t.debtor_name@, t.note@)
}

/// A transaction the rules would move: not tagged by hand, and the rules
/// give it another category.
pub open spec fn would_change(t: TransactionRecord, rules: Seq<CategoryRule>) -> bool {
    !is_manual(t) && rule_category(t, rules) != t.category@
}

/// A long normalized text is cut to its first 37 bytes and `...`.
pub open spec fn short_description(norm: Seq<char>) -> Seq<char> {
    if bytes_of(norm).len() > 40 {
        byte_slice(norm, 0, 37) + "..."@
    } else {
        norm
    }
}

/// The cut falls on a character boundary for every text that is cut.
pub open spec fn preview_defined(txns: Seq<TransactionRecord>, rules: Seq<CategoryRule>) -> bool {
    forall|i: int|
        0 <= i < txns.len() && would_change(#[trigger] txns[i], rules) && bytes_of(normalized_of(txns[i])).len() > 40
            ==> is_char_boundary(bytes_of(normalized_of(txns[i])), 37)
}

pub open spec fn change_positions(txns: Seq<TransactionRecord>, rules: Seq<CategoryRule>, n: int) -> Seq<int>
    decreases n,
{
    if n <= 0 {
        Seq::<int>::empty()
    } else if would_change(txns[n - 1], rules) {
        change_positions(txns, rules, n - 1).push(n - 1)
    } else {
        change_positions(txns, rules, n - 1)
    }
}

pub open spec fn is_change(c: PreviewChange, t: TransactionRecord, rules: Seq<CategoryRule>) -> bool {
    &&& c.transaction_id@ == t.transaction_id@
    &&& c.booking_date@ == t.booking_date@
    &&& c.description@ == short_description(normalized_of(t))
    &&& c.current_category@ == t.category@
    &&& c.new_category@ == rule_category(t, rules)
}

fn shorten(norm: &str) -> (r: String)
    requires
        bytes_of(norm@).len() > 40 ==> is_char_boundary(bytes_of(norm@), 37),
    ensures
        r@ == short_description(norm@),
{
    if byte_count(norm) > 40 {
        let (head, _) = norm.split_at(37);
        proof {
            encode_utf8_decode_utf8(head@);
        }
        concat(head, "...")
    } else {
        copy_str(norm)
    }
}

/// The changes applying the rules would make, in order (`tag preview`).
pub fn preview_changes(txns: &[TransactionRecord], rules: &[CategoryRule]) -> (r: Vec<PreviewChange>)
    requires
        preview_defined(txns@, rules@),
    ensures
        r@.len() == change_positions(txns@, rules@, txns@.len() as int).len(),
        forall|k: int|
            0 <= k < r@.len() ==> is_change(
                #[trigger] r@[k],
                txns@[change_positions(txns@, rules@, txns@.len() as int)[k]],
                rules@,
            ),
{
    let mut out: Vec<PreviewChange> = Vec::new();
    let mut i: usize = 0;
    while i < txns.len()
        invariant
            i <= txns@.len(),
            preview_defined(txns@, rules@),
            out@.len() == change_positions(txns@, rules@, i as int).len(),
            forall|k: int|
                0 <= k < out@.len() ==> is_change(
                    #[trigger] out@[k],
                    txns@[change_positions(txns@, rules@, i as int)[k]],
                    rules@,
                ),
        decreases txns.len() - i,
    {
        let t = &txns[i];
        if !str_eq(t.category_source.as_str(), "manual") {
            let norm = normalize(&t.remittance_info, t.creditor_name.as_str(), t.debtor_name.as_str(), t.note.as_str());
            let cat = match_category(norm.as_str(), rules);
            if !str_eq(cat.as_str(), t.category.as_str()) {
                assert(would_change(txns@[i as int], rules@));
                let ghost before = out@;
                out.push(PreviewChange {
                    transaction_id: copy_str(t.transaction_id.as_str()),
                    booking_date: copy_str(t.booking_date.as_str()),
                    description: shorten(norm.as_str()),
                    current_category: copy_str(t.category.as_str()),
                    new_category: cat,
                });
                proof {
                    assert forall|k: int| 0 <= k < out@.len() implies is_change(
                        #[trigger] out@[k],
                        txns@[change_positions(txns@, rules@, i + 1)[k]],
                        rules@,
                    ) by {
                        if k < before.len() {
                            assert(out@[k] == before[k]);
                        }
                    }
                }
            }
        }
        i = i + 1;
    }
    out
}

/// Whether the preview's cuts fall on character boundaries
/// (`preview_defined`).
pub fn preview_accepts(txns: &[TransactionRecord], rules: &[CategoryRule]) -> (r: bool)
    ensures
        r == preview_defined(txns@, rules@),
{
    let mut i: usize = 0;
    while i < txns.len()
        invariant
            i <= txns@.len(),
            forall|j: int|
                0 <= j < i && would_change(#[trigger] txns@[j], rules@) && bytes_of(normalized_of(txns@[j])).len() > 40
                    ==> is_char_boundary(bytes_of(normalized_of(txns@[j])), 37),
        decreases txns.len() - i,
    {
        let t = &txns[i];
        if !str_eq(t.category_source.as_str(), "manual") {
            let norm = normalize(&t.remittance_info, t.creditor_name.as_str(), t.debtor_name.as_str(), t.note.as_str());
            let cat = match_category(norm.as_str(), rules);
            if !str_eq(cat.as_str(), t.category.as_str()) && byte_count(norm.as_str()) > 40
                && !norm.as_str().is_char_boundary(37) {
                assert(would_change(txns@[i as int], rules@));
                return false;
            }
        }
        i = i + 1;
    }
    true
}

// ---------------------------------------------------------------------------
// Overriding a category by hand
// ---------------------------------------------------------------------------

/// The account of the first transaction with this id, or the error of
/// `tag override` when there is none.
pub open spec fn override_target_spec(txns: Seq<TransactionRecord>, id: Seq<char>) -> Result<Seq<char>, Seq<char>> {
    match crate::text::first_index(txns, |t: TransactionRecord| t.transaction_id@ == id) {
        Some(i) => Ok(txns[i].account_uid@),
        None => Err("transaction "@ + debug_quoted(id) + " not found"@),
    }
}

pub fn override_target(txns: &[TransactionRecord], id: &str) -> (r: Result<String, String>)
    ensures
        crate::summary::res_view(r) == override_target_spec(txns@, id@),
{
    let ghost p = |t: TransactionRecord| t.transaction_id@ == id@;
    let mut i: usize = 0;
    while i < txns.len()
        invariant
            i <= txns@.len(),
            p == (|t: TransactionRecord| t.transaction_id@ == id@),
            forall|k: int| 0 <= k < i ==> !p(#[trigger] txns@[k]),
        decreases txns.len() - i,
    {
        if str_eq(txns[i].transaction_id.as_str(), id) {
            proof {
                crate::text::lemma_first_index(txns@, p, i as int);
            }
            return Ok(copy_str(txns[i].account_uid.as_str()));
        }
        i = i + 1;
    }
    proof {
        crate::text::lemma_first_index(txns@, p, i as int);
    }
    let mut e = concat("transaction ", debug_str(id).as_str());
    push_str(&mut e, " not found");
    Err(e)
}

proof fn lemma_auto_positions(txns: Seq<TransactionRecord>, n: int)
    requires
        0 <= n <= txns.len(),
    ensures
        forall|q: int| #[trigger] auto_positions(txns, n).contains(q) <==> (0 <= q < n && !is_manual(txns[q])),
        auto_positions(txns, n).len() + manual_count(txns, n) == n,
    decreases n,
{
    if n > 0 {
        lemma_auto_positions(txns, n - 1);
        let prev = auto_positions(txns, n - 1);
        let cur = auto_positions(txns, n);
        assert forall|q: int| #[trigger] cur.contains(q) <==> (0 <= q < n && !is_manual(txns[q])) by {
            if !is_manual(txns[n - 1]) {
                assert(cur == prev.push(n - 1));
                if cur.contains(q) && q != n - 1 {
                    let w = choose|w: int| 0 <= w < cur.len() && cur[w] == q;
                    assert(w < prev.len());
                    assert(prev[w] == q);
                    assert(prev.contains(q));
                }
                if 0 <= q < n && !is_manual(txns[q]) {
                    if q == n - 1 {
                        assert(cur[prev.len() as int] == q);
                    } else {
                        assert(prev.contains(q));
                        let w = choose|w: int| 0 <= w < prev.len() && prev[w] == q;
                        assert(cur[w] == q);
                    }
                }
            } else {
                assert(cur == prev);
                assert(cur.contains(q) == prev.contains(q));
            }
        }
    }
}

/// Tagging updates every transaction whose category was not set by hand
/// (its category source is not `manual`) and none of the others, and the
/// updated and skipped transactions add up to all of them.
pub proof fn law_tagging_spares_exactly_manual(txns: Seq<TransactionRecord>, q: int)
    requires
        0 <= q < txns.len(),
    ensures
        auto_positions(txns, txns.len() as int).contains(q) <==> txns[q].category_source@ != "manual"@,
        auto_positions(txns, txns.len() as int).len() + manual_count(txns, txns.len() as int) == txns.len(),
{
    lemma_auto_positions(txns, txns.len() as int);
}

} // verus!
