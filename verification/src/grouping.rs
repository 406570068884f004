use vstd::prelude::*;

use crate::tagger::{suggest_pattern, suggest_pattern_spec};
use crate::text::{copy_str, str_eq, to_upper, trim, trim_spec, unicode_upper};

verus! {

/// A pre-normalized transaction for grouping.
#[derive(Debug, Clone)]
pub struct NormalizedTransaction {
    pub description: String,
    pub amount: String,
    pub currency: String,
    pub booking_date: String,
    pub credit_debit_indicator: String,
    pub creditor_name: String,
    pub debtor_name: String,
}

/// Display info for a sample transaction of a group.
#[derive(Debug, Clone)]
pub struct TransactionSample {
    pub description: String,
    pub amount: String,
    pub currency: String,
    pub booking_date: String,
    pub credit_debit_indicator: String,
    pub creditor_name: String,
    pub debtor_name: String,
}

/// A group of transactions with the same description key: how many there
/// are, the first three as samples, the pattern suggested for the key, and
/// the positions of all of them (from which a caller adds up amounts).
#[derive(Debug, Clone)]
pub struct TransactionGroup {
    pub key: String,
    pub count: usize,
    pub samples: Vec<TransactionSample>,
    pub suggested_pattern: String,
    pub members: Vec<usize>,
}

/// The key a transaction is grouped under: its description trimmed and
/// upper-cased, `UNKNOWN` when nothing is left.
pub open spec fn group_key(t: NormalizedTransaction) -> Seq<char> {
    let k = unicode_upper(trim_spec(t.description@));
    if k.len() == 0 {
        "UNKNOWN"@
    } else {
        k
    }
}

pub open spec fn keys_of(txns: Seq<NormalizedTransaction>) -> Seq<Seq<char>> {
    txns.map_values(|t: NormalizedTransaction| group_key(t))
}

/// The distinct keys among the first `n`, in the order they first appear.
pub open spec fn first_keys(ks: Seq<Seq<char>>, n: int) -> Seq<Seq<char>>
    decreases n,
{
    if n <= 0 {
        Seq::empty()
    } else {
        let prev = first_keys(ks, n - 1);
        if prev.contains(ks[n - 1]) {
            prev
        } else {
            prev.push(ks[n - 1])
        }
    }
}

/// The positions among the first `n` whose key is `k`, in order.
pub open spec fn members_of(ks: Seq<Seq<char>>, k: Seq<char>, n: int) -> Seq<int>
    decreases n,
{
    if n <= 0 {
        Seq::empty()
    } else if ks[n - 1] == k {
        members_of(ks, k, n - 1).push(n - 1)
    } else {
        members_of(ks, k, n - 1)
    }
}

pub open spec fn sample_of(s: TransactionSample, t: NormalizedTransaction) -> bool {
    &&& s.description@ == t.description@
    &&& s.amount@ == t.amount@
    &&& s.currency@ == t.currency@
    &&& s.booking_date@ == t.booking_date@
    &&& s.credit_debit_indicator@ == t.credit_debit_indicator@
    &&& s.creditor_name@ == t.creditor_name@
    &&& s.debtor_name@ == t.debtor_name@
}

pub open spec fn min3(n: int) -> int {
    if n < 3 {
        n
    } else {
        3
    }
}

/// What the group of key `k` holds.
pub open spec fn group_ok(g: TransactionGroup, k: Seq<char>, txns: Seq<NormalizedTransaction>) -> bool {
    let ms = members_of(keys_of(txns), k, txns.len() as int);
    &&& g.key@ == k
    &&& g.count == ms.len()
    &&& g.members@.len() == ms.len()
    &&& forall|i: int| 0 <= i < ms.len() ==> g.members@[i] as int == #[trigger] ms[i]
    &&& g.samples@.len() == min3(ms.len() as int)
    &&& forall|i: int| 0 <= i < g.samples@.len() ==> sample_of(#[trigger] g.samples@[i], txns[ms[i]])
    &&& g.suggested_pattern@ == suggest_pattern_spec(k)
}

/// `r` holds one group per key, most frequent first, keys of equal
/// frequency in the order they first appear: `rank` gives each group's key
/// as a position among the first appearances.
pub open spec fn arranged_by(r: Seq<TransactionGroup>, rank: Seq<int>, txns: Seq<NormalizedTransaction>) -> bool {
    let order = first_keys(keys_of(txns), txns.len() as int);
    &&& rank.len() == r.len()
    &&& forall|i: int|
        0 <= i < r.len() ==> 0 <= #[trigger] rank[i] < order.len() && group_ok(r[i], order[rank[i]], txns)
    &&& forall|i: int, j: int|
        0 <= i < j < r.len() ==> (#[trigger] r[i]).count > (#[trigger] r[j]).count || (r[i].count == r[j].count
            && rank[i] < rank[j])
}

proof fn lemma_members(ks: Seq<Seq<char>>, k: Seq<char>, n: int)
    requires
        0 <= n <= ks.len(),
    ensures
        members_of(ks, k, n).len() <= n,
        forall|i: int|
            0 <= i < members_of(ks, k, n).len() ==> 0 <= #[trigger] members_of(ks, k, n)[i] < n && ks[members_of(
                ks,
                k,
                n,
            )[i]] == k,
        n > 0 && ks[n - 1] == k ==> members_of(ks, k, n).len() > 0,
        n > 0 ==> members_of(ks, k, n - 1).len() <= members_of(ks, k, n).len(),
    decreases n,
{
    if n > 0 {
        lemma_members(ks, k, n - 1);
    }
}

fn key_of(t: &NormalizedTransaction) -> (r: String)
    ensures
        r@ == group_key(*t),
{
    let trimmed = trim(t.description.as_str());
    let k = to_upper(trimmed.as_str());
    if k.as_str().is_empty() {
        copy_str("UNKNOWN")
    } else {
        k
    }
}

fn sample(t: &NormalizedTransaction) -> (r: TransactionSample)
    ensures
        sample_of(r, *t),
{
    TransactionSample {
        description: copy_str(t.description.as_str()),
        amount: copy_str(t.amount.as_str()),
        currency: copy_str(t.currency.as_str()),
        booking_date: copy_str(t.booking_date.as_str()),
        credit_debit_indicator: copy_str(t.credit_debit_indicator.as_str()),
        creditor_name: copy_str(t.creditor_name.as_str()),
        debtor_name: copy_str(t.debtor_name.as_str()),
    }
}

fn contains_key(order: &Vec<String>, k: &str) -> (r: bool)
    ensures
        r == crate::text::views(order@).contains(k@),
{
    let mut i: usize = 0;
    while i < order.len()
        invariant
            i <= order@.len(),
            forall|j: int| 0 <= j < i ==> order@[j]@ != k@,
        decreases order.len() - i,
    {
        if str_eq(order[i].as_str(), k) {
            assert(crate::text::views(order@)[i as int] == k@);
            return true;
        }
        i = i + 1;
    }
    assert(!crate::text::views(order@).contains(k@)) by {
        if crate::text::views(order@).contains(k@) {
            let j = choose|j: int| 0 <= j < crate::text::views(order@).len() && crate::text::views(order@)[j] == k@;
            assert(order@[j]@ == k@);
        }
    }
    false
}

/// The group of key `k`, collected over all transactions.
fn collect_group(txns: &[NormalizedTransaction], keys: &Vec<String>, k: &str) -> (r: TransactionGroup)
    requires
        crate::text::views(keys@) == keys_of(txns@),
    ensures
        group_ok(r, k@, txns@),
{
    let ghost ks = keys_of(txns@);
    assert(keys@.len() == crate::text::views(keys@).len());
    let mut members: Vec<usize> = Vec::new();
    let mut samples: Vec<TransactionSample> = Vec::new();
    let mut i: usize = 0;
    while i < txns.len()
        invariant
            i <= txns@.len(),
            keys@.len() == txns@.len(),
            ks == keys_of(txns@),
            crate::text::views(keys@) == ks,
            members@.len() == members_of(ks, k@, i as int).len(),
            forall|j: int| 0 <= j < members@.len() ==> members@[j] as int == #[trigger] members_of(ks, k@, i as int)[j],
            samples@.len() == min3(members@.len() as int),
            forall|j: int| 0 <= j < samples@.len() ==> sample_of(#[trigger] samples@[j], txns@[members_of(ks, k@, i as int)[j]]),
        decreases txns.len() - i,
    {
        proof {
            lemma_members(ks, k@, i as int + 1);
            assert(crate::text::views(keys@)[i as int] == keys@[i as int]@);
        }
        if str_eq(keys[i].as_str(), k) {
            if samples.len() < 3 {
                samples.push(sample(&txns[i]));
            }
            members.push(i);
        }
        i = i + 1;
    }
    let count = members.len();
    TransactionGroup { key: copy_str(k), count, samples, suggested_pattern: suggest_pattern(k), members }
}

/// Groups transactions by their description key; the largest groups come
/// first, and groups of equal size keep the order in which their keys first
/// appear.
pub fn group_by_description(txns: &[NormalizedTransaction]) -> (r: Vec<TransactionGroup>)
    ensures
        r@.len() == first_keys(keys_of(txns@), txns@.len() as int).len(),
        exists|rank: Seq<int>| arranged_by(r@, rank, txns@),
{
    let ghost ks = keys_of(txns@);
    let mut keys: Vec<String> = Vec::new();
    let mut i: usize = 0;
    while i < txns.len()
        invariant
            i <= txns@.len(),
            ks == keys_of(txns@),
            crate::text::views(keys@) == ks.take(i as int),
        decreases txns.len() - i,
    {
        let k = key_of(&txns[i]);
        let ghost before = keys@;
        keys.push(k);
        proof {
            assert(crate::text::views(keys@) =~= crate::text::views(before).push(k@));
            assert(ks.take(i + 1) =~= ks.take(i as int).push(ks[i as int]));
        }
        i = i + 1;
    }
    assert(ks.take(txns@.len() as int) =~= ks);
    let mut order: Vec<String> = Vec::new();
    let mut i: usize = 0;
    while i < keys.len()
        invariant
            i <= keys@.len(),
            keys@.len() == txns@.len(),
            ks == keys_of(txns@),
            crate::text::views(keys@) == ks,
            crate::text::views(order@) == first_keys(ks, i as int),
        decreases keys.len() - i,
    {
        assert(crate::text::views(keys@)[i as int] == keys@[i as int]@);
        if !contains_key(&order, keys[i].as_str()) {
            let ghost before = order@;
            order.push(copy_str(keys[i].as_str()));
            assert(crate::text::views(order@) =~= crate::text::views(before).push(ks[i as int]));
        }
        i = i + 1;
    }
    let ghost ord = first_keys(ks, txns@.len() as int);
    let mut result: Vec<TransactionGroup> = Vec::new();
    let ghost mut rank: Seq<int> = Seq::empty();
    let mut q: usize = 0;
    while q < order.len()
        invariant
            q <= order@.len(),
            ks == keys_of(txns@),
            crate::text::views(keys@) == ks,
            crate::text::views(order@) == ord,
            ord == first_keys(keys_of(txns@), txns@.len() as int),
            result@.len() == q,
            rank.len() == q,
            forall|a: int| 0 <= a < q ==> 0 <= #[trigger] rank[a] < q && group_ok(result@[a], ord[rank[a]], txns@),
            forall|a: int, b: int|
                0 <= a < b < q ==> (#[trigger] result@[a]).count > (#[trigger] result@[b]).count || (result@[a].count
                    == result@[b].count && rank[a] < rank[b]),
        decreases order.len() - q,
    {
        assert(crate::text::views(order@)[q as int] == order@[q as int]@);
        let g = collect_group(txns, &keys, order[q].as_str());
        let mut p: usize = 0;
        while p < result.len() && result[p].count >= g.count
            invariant
                p <= result@.len(),
                forall|a: int| 0 <= a < p ==> (#[trigger] result@[a]).count >= g.count,
            decreases result.len() - p,
        {
            p = p + 1;
        }
        proof {
            assert forall|a: int| p <= a < result@.len() implies (#[trigger] result@[a]).count < g.count by {
                assert(result@[p as int].count < g.count);
                if a > p {
                    assert(result@[p as int].count >= result@[a].count);
                }
            }
        }
        let ghost old_result = result@;
        let ghost old_rank = rank;
        result.insert(p, g);
        proof {
            rank = old_rank.insert(p as int, q as int);
            assert forall|a: int| 0 <= a < q + 1 implies 0 <= #[trigger] rank[a] < q + 1 && group_ok(
                result@[a],
                ord[rank[a]],
                txns@,
            ) by {
                if a < p {
                    assert(result@[a] == old_result[a]);
                    assert(rank[a] == old_rank[a]);
                } else if a == p {
                } else {
                    assert(result@[a] == old_result[a - 1]);
                    assert(rank[a] == old_rank[a - 1]);
                }
            }
            assert forall|a: int, b: int| 0 <= a < b < q + 1 implies (#[trigger] result@[a]).count > (
            #[trigger] result@[b]).count || (result@[a].count == result@[b].count && rank[a] < rank[b]) by {
                if b < p {
                    assert(result@[a] == old_result[a] && result@[b] == old_result[b]);
                } else if b == p {
                    assert(result@[a] == old_result[a]);
                    assert(old_rank[a] < q);
                } else if a < p {
                    assert(result@[a] == old_result[a] && result@[b] == old_result[b - 1]);
                    assert(old_result[b - 1].count < g.count);
                } else if a == p {
                    assert(result@[b] == old_result[b - 1]);
                } else {
                    assert(result@[a] == old_result[a - 1] && result@[b] == old_result[b - 1]);
                }
            }
        }
        q = q + 1;
    }
    assert(arranged_by(result@, rank, txns@));
    result
}

/// Every transaction a group lists is a transaction of the input whose
/// description, trimmed and upper-cased, is the group's key (`UNKNOWN` for
/// a blank description).
pub proof fn law_group_members_share_key(
    txns: Seq<NormalizedTransaction>,
    r: Seq<TransactionGroup>,
    rank: Seq<int>,
    i: int,
    m: int,
)
    requires
        arranged_by(r, rank, txns),
        0 <= i < r.len(),
        0 <= m < r[i].members@.len(),
    ensures
        r[i].members@[m] < txns.len(),
        r[i].key@ == (if unicode_upper(trim_spec(txns[r[i].members@[m] as int].description@)).len() == 0 {
            "UNKNOWN"@
        } else {
            unicode_upper(trim_spec(txns[r[i].members@[m] as int].description@))
        }),
{
    let order = first_keys(keys_of(txns), txns.len() as int);
    assert(0 <= rank[i] < order.len() && group_ok(r[i], order[rank[i]], txns));
    let k = order[rank[i]];
    let ks = keys_of(txns);
    lemma_members(ks, k, txns.len() as int);
    let ms = members_of(ks, k, txns.len() as int);
    assert(r[i].members@[m] as int == ms[m]);
    assert(ks[ms[m]] == k);
}

} // verus!
