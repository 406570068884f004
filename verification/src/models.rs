use vstd::prelude::*;

use crate::text::{
    copy_str, eq_ignore_ascii_case, eq_ignore_ascii_case_spec, lemma_lex_antisym, lemma_lex_trans,
    lemma_lex_zero, lex_order, str_order,
};

verus! {

/// A locally stored bank account.
#[derive(Debug, Clone, Default)]
pub struct AccountRecord {
    pub uid: String,
    pub bank_name: String,
    pub iban: String,
    pub name: String,
    pub currency: String,
    pub details: String,
    pub usage_type: String,
    pub account_type: String,
    pub alias: String,
}

/// A locally stored account balance snapshot.
#[derive(Debug, Clone, Default)]
pub struct BalanceRecord {
    pub balance_type: String,
    pub amount: String,
    pub currency: String,
    pub reference_date: String,
}

/// A locally stored transaction.
#[derive(Debug, Clone)]
pub struct TransactionRecord {
    pub account_uid: String,
    pub transaction_id: String,
    pub entry_reference: String,
    pub amount: String,
    pub currency: String,
    pub booking_date: String,
    pub value_date: String,
    pub transaction_date: String,
    pub remittance_info: Vec<String>,
    pub creditor_name: String,
    pub debtor_name: String,
    pub status: String,
    pub credit_debit_indicator: String,
    pub note: String,
    pub category: String,
    pub category_source: String,
}

/// A category update for a single transaction.
#[derive(Debug, Clone)]
pub struct CategoryUpdate {
    pub account_uid: String,
    pub transaction_id: String,
    pub category: String,
    pub source: String,
}

/// Optional filters and pagination for transaction queries.
#[derive(Debug, Clone, Default)]
pub struct QueryOpts {
    pub date_from: Option<String>,
    pub date_to: Option<String>,
    pub limit: Option<i32>,
    pub status: Option<String>,
}

impl Default for TransactionRecord {
    /// Every field empty, but the category, which is `uncategorized`.
    fn default() -> (r: Self)
        ensures
            r.account_uid@.len() == 0,
            r.transaction_id@.len() == 0,
            r.entry_reference@.len() == 0,
            r.amount@.len() == 0,
            r.currency@.len() == 0,
            r.booking_date@.len() == 0,
            r.value_date@.len() == 0,
            r.transaction_date@.len() == 0,
            r.remittance_info@.len() == 0,
            r.creditor_name@.len() == 0,
            r.debtor_name@.len() == 0,
            r.status@.len() == 0,
            r.credit_debit_indicator@.len() == 0,
            r.note@.len() == 0,
            r.category@ == "uncategorized"@,
            r.category_source@.len() == 0,
    {
        TransactionRecord {
            account_uid: String::new(),
            transaction_id: String::new(),
            entry_reference: String::new(),
            amount: String::new(),
            currency: String::new(),
            booking_date: String::new(),
            value_date: String::new(),
            transaction_date: String::new(),
            remittance_info: Vec::new(),
            creditor_name: String::new(),
            debtor_name: String::new(),
            status: String::new(),
            credit_debit_indicator: String::new(),
            note: String::new(),
            category: copy_str("uncategorized"),
            category_source: String::new(),
        }
    }
}

/// The status that marks a pending transaction, in any ASCII case.
pub open spec fn is_pending_spec(t: TransactionRecord) -> bool {
    eq_ignore_ascii_case_spec(t.status@, "PDNG"@)
}

/// The first non-empty of booking date, value date and transaction date.
pub open spec fn best_date_spec(t: TransactionRecord) -> Seq<char> {
    if t.booking_date@.len() > 0 {
        t.booking_date@
    } else if t.value_date@.len() > 0 {
        t.value_date@
    } else {
        t.transaction_date@
    }
}

/// The key by which transactions are displayed, compared component-wise.
pub open spec fn display_key(t: TransactionRecord) -> Seq<Seq<char>> {
    seq![
        best_date_spec(t),
        t.booking_date@,
        t.value_date@,
        t.transaction_date@,
        t.transaction_id@,
        t.account_uid@,
    ]
}

/// Lexicographic order of two sequences of texts (-1, 0, 1).
pub open spec fn key_order(a: Seq<Seq<char>>, b: Seq<Seq<char>>) -> int
    decreases a.len(),
{
    if a.len() == 0 || b.len() == 0 {
        0
    } else if lex_order(a[0], b[0]) != 0 {
        lex_order(a[0], b[0])
    } else {
        key_order(a.drop_first(), b.drop_first())
    }
}

/// `a` is shown before `b`: its display key is greater (newest first).
pub open spec fn shown_before(a: TransactionRecord, b: TransactionRecord) -> bool {
    key_order(display_key(a), display_key(b)) > 0
}

impl TransactionRecord {
    /// Check if this transaction has a pending status (case-insensitive).
    pub fn is_pending(&self) -> (r: bool)
        ensures
            r == is_pending_spec(*self),
    {
        eq_ignore_ascii_case(self.status.as_str(), "PDNG")
    }

    /// Best date for display: booking_date, value_date, or transaction_date (first non-empty).
    pub fn best_date(&self) -> (r: &str)
        ensures
            r@ == best_date_spec(*self),
    {
        if !self.booking_date.as_str().is_empty() {
            self.booking_date.as_str()
        } else if !self.value_date.as_str().is_empty() {
            self.value_date.as_str()
        } else {
            self.transaction_date.as_str()
        }
    }
}

proof fn lemma_key_order_step(a: Seq<Seq<char>>, b: Seq<Seq<char>>, i: int)
    requires
        0 <= i < a.len(),
        i < b.len(),
        lex_order(a[i], b[i]) == 0,
    ensures
        key_order(a.skip(i), b.skip(i)) == key_order(a.skip(i + 1), b.skip(i + 1)),
{
    assert(a.skip(i).drop_first() =~= a.skip(i + 1));
    assert(b.skip(i).drop_first() =~= b.skip(i + 1));
}

/// Order of two transactions' display keys: -1, 0 or 1.
pub fn display_key_order(a: &TransactionRecord, b: &TransactionRecord) -> (r: i8)
    ensures
        r == key_order(display_key(*a), display_key(*b)),
{
    let ghost ka = display_key(*a);
    let ghost kb = display_key(*b);
    assert(ka.skip(0) =~= ka);
    assert(kb.skip(0) =~= kb);
    let c = str_order(a.best_date(), b.best_date());
    if c != 0 {
        return c;
    }
    proof {
        lemma_key_order_step(ka, kb, 0);
    }
    let c = str_order(a.booking_date.as_str(), b.booking_date.as_str());
    if c != 0 {
        return c;
    }
    proof {
        lemma_key_order_step(ka, kb, 1);
    }
    let c = str_order(a.value_date.as_str(), b.value_date.as_str());
    if c != 0 {
        return c;
    }
    proof {
        lemma_key_order_step(ka, kb, 2);
    }
    let c = str_order(a.transaction_date.as_str(), b.transaction_date.as_str());
    if c != 0 {
        return c;
    }
    proof {
        lemma_key_order_step(ka, kb, 3);
    }
    let c = str_order(a.transaction_id.as_str(), b.transaction_id.as_str());
    if c != 0 {
        return c;
    }
    proof {
        lemma_key_order_step(ka, kb, 4);
    }
    let c = str_order(a.account_uid.as_str(), b.account_uid.as_str());
    if c != 0 {
        return c;
    }
    proof {
        lemma_key_order_step(ka, kb, 5);
        assert(ka.skip(6).len() == 0);
    }
    0
}

/// Compare two transactions using the same display ordering as the CLI output.
/// Sort is: best_date DESC, booking_date DESC, value_date DESC, transaction_date DESC,
/// transaction_id DESC, account_uid DESC.
pub fn compare_transactions_for_display(
    a: &TransactionRecord,
    b: &TransactionRecord,
) -> (r: std::cmp::Ordering)
    ensures
        (r == std::cmp::Ordering::Less) == (key_order(display_key(*b), display_key(*a)) < 0),
        (r == std::cmp::Ordering::Equal) == (key_order(display_key(*b), display_key(*a)) == 0),
        (r == std::cmp::Ordering::Greater) == (key_order(display_key(*b), display_key(*a)) > 0),
{
    let c = display_key_order(b, a);
    if c < 0 {
        std::cmp::Ordering::Less
    } else if c == 0 {
        std::cmp::Ordering::Equal
    } else {
        std::cmp::Ordering::Greater
    }
}

// ---------------------------------------------------------------------------
// Stable display sort (over positions into a sequence of transactions)
// ---------------------------------------------------------------------------

/// Insert position `x` into the display-sorted positions `s`, after every
/// position that is not shown after it (so equal keys keep their order).
pub open spec fn insert_by_display(all: Seq<TransactionRecord>, x: usize, s: Seq<usize>) -> Seq<
    usize,
>
    decreases s.len(),
{
    if s.len() == 0 {
        seq![x]
    } else if shown_before(all[x as int], all[s.last() as int]) {
        insert_by_display(all, x, s.drop_last()).push(s.last())
    } else {
        s.push(x)
    }
}

/// The stable sort of the positions `idx` by display order (newest first):
/// what `sort_by(compare_transactions_for_display)` makes of them.
pub open spec fn sort_by_display(all: Seq<TransactionRecord>, idx: Seq<usize>) -> Seq<usize>
    decreases idx.len(),
{
    if idx.len() == 0 {
        Seq::<usize>::empty()
    } else {
        insert_by_display(all, idx.last(), sort_by_display(all, idx.drop_last()))
    }
}

proof fn lemma_insert_split(all: Seq<TransactionRecord>, x: usize, s: Seq<usize>, j: int)
    requires
        0 <= j <= s.len(),
        forall|k: int| j <= k < s.len() ==> shown_before(all[x as int], all[#[trigger] s[k] as int]),
    ensures
        insert_by_display(all, x, s) == insert_by_display(all, x, s.take(j)) + s.skip(j),
    decreases s.len() - j,
{
    if j < s.len() {
        lemma_insert_split(all, x, s, j + 1);
        let t = s.take(j + 1);
        assert(t.drop_last() =~= s.take(j));
        assert(t.last() == s[j]);
        assert(insert_by_display(all, x, t) == insert_by_display(all, x, s.take(j)).push(s[j]));
        assert(insert_by_display(all, x, s.take(j)).push(s[j]) + s.skip(j + 1) =~= insert_by_display(
            all,
            x,
            s.take(j),
        ) + s.skip(j));
    } else {
        assert(s.take(j) =~= s);
        assert(s.skip(j) =~= Seq::<usize>::empty());
        assert(insert_by_display(all, x, s) + Seq::<usize>::empty() =~= insert_by_display(
            all,
            x,
            s,
        ));
    }
}

/// Insert `x` into the sorted positions `s` (a stable insertion step).
fn insert_position(all: &[TransactionRecord], x: usize, s: &mut Vec<usize>)
    requires
        x < all@.len(),
        forall|k: int| 0 <= k < old(s)@.len() ==> #[trigger] old(s)@[k] < all@.len(),
    ensures
        final(s)@ == insert_by_display(all@, x, old(s)@),
{
    let mut j: usize = s.len();
    while j > 0 && display_key_order(&all[x], &all[s[j - 1]]) > 0
        invariant
            j <= s.len(),
            s@ == old(s)@,
            x < all@.len(),
            forall|k: int| 0 <= k < s@.len() ==> #[trigger] s@[k] < all@.len(),
            forall|k: int| j <= k < s@.len() ==> shown_before(all@[x as int], all@[#[trigger] s@[k] as int]),
        decreases j,
    {
        j = j - 1;
    }
    proof {
        lemma_insert_split(all@, x, s@, j as int);
        let t = s@.take(j as int);
        if j > 0 {
            assert(t.last() == s@[j - 1]);
            assert(!shown_before(all@[x as int], all@[t.last() as int]));
            assert(insert_by_display(all@, x, t) == t.push(x));
        } else {
            assert(t.len() == 0);
        }
        assert(t.push(x) + s@.skip(j as int) =~= s@.insert(j as int, x));
    }
    s.insert(j, x);
}

/// Stable sort of the positions `idx` into `all` by display order.
pub fn sort_positions_by_display(all: &[TransactionRecord], idx: &Vec<usize>) -> (r: Vec<usize>)
    requires
        forall|k: int| 0 <= k < idx@.len() ==> #[trigger] idx@[k] < all@.len(),
    ensures
        r@ == sort_by_display(all@, idx@),
        r@.len() == idx@.len(),
{
    let mut r: Vec<usize> = Vec::new();
    let mut i: usize = 0;
    while i < idx.len()
        invariant
            i <= idx.len(),
            forall|k: int| 0 <= k < idx@.len() ==> #[trigger] idx@[k] < all@.len(),
            r@ == sort_by_display(all@, idx@.take(i as int)),
            forall|k: int| 0 <= k < r@.len() ==> #[trigger] r@[k] < all@.len(),
            r@.len() == i,
        decreases idx.len() - i,
    {
        let ghost prev = r@;
        proof {
            let t = idx@.take(i + 1);
            assert(t.drop_last() =~= idx@.take(i as int));
            assert(t.last() == idx@[i as int]);
        }
        insert_position(all, idx[i], &mut r);
        proof {
            lemma_insert_len_members(all@, idx@[i as int], prev);
        }
        i = i + 1;
    }
    assert(idx@.take(idx.len() as int) =~= idx@);
    r
}

pub proof fn lemma_insert_len_members(all: Seq<TransactionRecord>, x: usize, s: Seq<usize>)
    ensures
        insert_by_display(all, x, s).len() == s.len() + 1,
        forall|k: int|
            0 <= k < insert_by_display(all, x, s).len() ==> #[trigger] insert_by_display(
                all,
                x,
                s,
            )[k] == x || s.contains(insert_by_display(all, x, s)[k]),
    decreases s.len(),
{
    if s.len() > 0 && shown_before(all[x as int], all[s.last() as int]) {
        lemma_insert_len_members(all, x, s.drop_last());
        let r = insert_by_display(all, x, s);
        let q = insert_by_display(all, x, s.drop_last());
        assert forall|k: int| 0 <= k < r.len() implies #[trigger] r[k] == x || s.contains(r[k]) by {
            if k < q.len() {
                if q[k] != x {
                    let w = choose|w: int| 0 <= w < s.drop_last().len() && s.drop_last()[w] == q[k];
                    assert(s[w] == q[k]);
                }
            } else {
                assert(s[s.len() - 1] == r[k]);
            }
        }
    } else if s.len() > 0 {
        let r = insert_by_display(all, x, s);
        assert forall|k: int| 0 <= k < r.len() implies #[trigger] r[k] == x || s.contains(r[k]) by {
            if k < s.len() {
                assert(s[k] == r[k]);
            }
        }
    }
}

// ---------------------------------------------------------------------------
// The display order
// ---------------------------------------------------------------------------

/// Comparing keys is antisymmetric: swapping them negates the result.
pub proof fn lemma_key_order_antisym(a: Seq<Seq<char>>, b: Seq<Seq<char>>)
    ensures
        key_order(a, b) == -key_order(b, a),
    decreases a.len(),
{
    if a.len() > 0 && b.len() > 0 {
        lemma_lex_antisym(a[0], b[0]);
        lemma_key_order_antisym(a.drop_first(), b.drop_first());
    }
}

/// Keys of equal length compare equal exactly when they are equal.
pub proof fn lemma_key_order_zero(a: Seq<Seq<char>>, b: Seq<Seq<char>>)
    requires
        a.len() == b.len(),
    ensures
        key_order(a, b) == 0 <==> a == b,
    decreases a.len(),
{
    if a.len() > 0 {
        lemma_lex_zero(a[0], b[0]);
        lemma_key_order_zero(a.drop_first(), b.drop_first());
        if a[0] == b[0] && a.drop_first() == b.drop_first() {
            assert(a =~= seq![a[0]] + a.drop_first());
            assert(b =~= seq![b[0]] + b.drop_first());
        }
        if a == b {
            assert(a.drop_first() =~= b.drop_first());
        }
    } else {
        assert(a =~= b);
    }
}

/// Comparing keys is transitive.
pub proof fn lemma_key_order_trans(a: Seq<Seq<char>>, b: Seq<Seq<char>>, c: Seq<Seq<char>>)
    requires
        key_order(a, b) > 0,
        key_order(b, c) > 0,
    ensures
        key_order(a, c) > 0,
    decreases a.len(),
{
    lemma_lex_antisym(a[0], b[0]);
    lemma_lex_antisym(b[0], c[0]);
    lemma_lex_antisym(a[0], c[0]);
    lemma_lex_zero(a[0], b[0]);
    lemma_lex_zero(b[0], c[0]);
    if lex_order(a[0], b[0]) != 0 && lex_order(b[0], c[0]) != 0 {
        lemma_lex_trans(c[0], b[0], a[0]);
    } else if lex_order(a[0], b[0]) == 0 && lex_order(b[0], c[0]) == 0 {
        lemma_key_order_trans(a.drop_first(), b.drop_first(), c.drop_first());
    }
}

/// Transactions are shown in a strict order: never each before the other,
/// and transitively.
pub proof fn law_display_order_strict(a: TransactionRecord, b: TransactionRecord, c: TransactionRecord)
    ensures
        !(shown_before(a, b) && shown_before(b, a)),
        shown_before(a, b) && shown_before(b, c) ==> shown_before(a, c),
        !shown_before(a, b) && !shown_before(b, a) ==> display_key(a) == display_key(b),
{
    lemma_key_order_antisym(display_key(a), display_key(b));
    lemma_key_order_zero(display_key(a), display_key(b));
    if shown_before(a, b) && shown_before(b, c) {
        lemma_key_order_trans(display_key(a), display_key(b), display_key(c));
    }
}

/// `compare_transactions_for_display` orders by `shown_before`: `Less` for a
/// transaction shown first, `Greater` for one shown after, `Equal` only for
/// equal keys; swapping the arguments reverses the answer.
pub proof fn law_compare_antisymmetric(a: TransactionRecord, b: TransactionRecord)
    ensures
        shown_before(a, b) <==> key_order(display_key(b), display_key(a)) < 0,
        key_order(display_key(a), display_key(b)) == 0 <==> display_key(a) == display_key(b),
{
    lemma_key_order_antisym(display_key(a), display_key(b));
    lemma_key_order_zero(display_key(a), display_key(b));
}

/// Not shown after: `a` comes no later than `b`.
pub open spec fn not_after(a: TransactionRecord, b: TransactionRecord) -> bool {
    !shown_before(b, a)
}

proof fn lemma_not_after_trans(a: TransactionRecord, b: TransactionRecord, c: TransactionRecord)
    requires
        not_after(a, b),
        not_after(b, c),
    ensures
        not_after(a, c),
{
    let (ka, kb, kc) = (display_key(a), display_key(b), display_key(c));
    lemma_key_order_antisym(ka, kb);
    lemma_key_order_antisym(kb, kc);
    lemma_key_order_antisym(ka, kc);
    lemma_key_order_zero(ka, kb);
    lemma_key_order_zero(kb, kc);
    if key_order(kc, ka) > 0 {
        if key_order(ka, kb) > 0 {
            lemma_key_order_trans(kc, ka, kb);
        } else {
            assert(ka == kb);
        }
    }
}

/// The positions `s` are in display order: no position is shown before an
/// earlier one.
pub open spec fn display_sorted(all: Seq<TransactionRecord>, s: Seq<usize>) -> bool {
    forall|i: int, j: int| 0 <= i < j < s.len() ==> not_after(all[#[trigger] s[i] as int], all[#[trigger] s[j] as int])
}

proof fn lemma_insert_sorted(all: Seq<TransactionRecord>, x: usize, s: Seq<usize>)
    requires
        display_sorted(all, s),
    ensures
        display_sorted(all, insert_by_display(all, x, s)),
    decreases s.len(),
{
    let r = insert_by_display(all, x, s);
    lemma_insert_len_members(all, x, s);
    if s.len() == 0 {
    } else if shown_before(all[x as int], all[s.last() as int]) {
        let d = s.drop_last();
        assert forall|i: int, j: int| 0 <= i < j < d.len() implies not_after(all[#[trigger] d[i] as int], all[#[trigger] d[j] as int]) by {
            assert(d[i] == s[i] && d[j] == s[j]);
        }
        lemma_insert_sorted(all, x, d);
        let q = insert_by_display(all, x, d);
        lemma_insert_len_members(all, x, d);
        let last = s.last();
        assert(r == q.push(last));
        assert forall|i: int, j: int| 0 <= i < j < r.len() implies not_after(all[#[trigger] r[i] as int], all[#[trigger] r[j] as int]) by {
            if j < q.len() {
                assert(r[i] == q[i] && r[j] == q[j]);
            } else {
                assert(r[j] == last);
                assert(r[i] == q[i]);
                if q[i] == x {
                    lemma_key_order_antisym(display_key(all[x as int]), display_key(all[last as int]));
                } else {
                    assert(d.contains(q[i]));
                    let w = choose|w: int| 0 <= w < d.len() && d[w] == q[i];
                    assert(s[w] == d[w]);
                    assert(s[s.len() - 1] == last);
                    assert(not_after(all[s[w] as int], all[s[s.len() - 1] as int]));
                }
            }
        }
    } else {
        assert(r == s.push(x));
        assert forall|i: int, j: int| 0 <= i < j < r.len() implies not_after(all[#[trigger] r[i] as int], all[#[trigger] r[j] as int]) by {
            if j < s.len() {
                assert(r[i] == s[i] && r[j] == s[j]);
            } else {
                assert(r[j] == x);
                assert(r[i] == s[i]);
                let n = s.len() - 1;
                lemma_key_order_antisym(display_key(all[x as int]), display_key(all[s[n] as int]));
                assert(not_after(all[s[n] as int], all[x as int]));
                if i < n {
                    assert(not_after(all[s[i] as int], all[s[n] as int]));
                    lemma_not_after_trans(all[s[i] as int], all[s[n] as int], all[x as int]);
                }
            }
        }
    }
}

/// The display sort orders its positions: no position is shown before an
/// earlier one.
pub proof fn lemma_sort_sorted(all: Seq<TransactionRecord>, idx: Seq<usize>)
    ensures
        display_sorted(all, sort_by_display(all, idx)),
    decreases idx.len(),
{
    if idx.len() > 0 {
        lemma_sort_sorted(all, idx.drop_last());
        lemma_insert_sorted(all, idx.last(), sort_by_display(all, idx.drop_last()));
    }
}

} // verus!
