use vstd::prelude::*;

use crate::alerter::{AlertResult, TransactionRecord as AlertTxn};
use crate::forecast::{AccountForecast, BalanceInput, TxnInput};
use crate::listing::{description_spec, description_without_note};
use crate::models::{AccountRecord, BalanceRecord, CategoryUpdate, TransactionRecord};
use crate::tagger::{match_category, match_category_spec, normalize, normalize_spec, CategoryRule};
use crate::text::{concat, copy_str, join, join_spec, nat_digits, push_str, str_eq, u64_to_string, views};

verus! {

// ---------------------------------------------------------------------------
// The refresh dialog
// ---------------------------------------------------------------------------

/// The state of one step of a refresh.
#[derive(Debug, Clone)]
pub enum RefreshStatus {
    Pending,
    Loading,
    Done,
    Error(String),
}

/// One step of a refresh, as the dialog shows it.
#[derive(Debug, Clone)]
pub struct RefreshStep {
    pub label: String,
    pub status: RefreshStatus,
}

/// The refresh dialog: whether it is shown, whether the refresh has ended,
/// and its steps.
#[derive(Debug, Clone)]
pub struct RefreshState {
    pub open: bool,
    pub done: bool,
    pub steps: Vec<RefreshStep>,
}

/// The steps of a refresh, in order.
pub open spec fn step_names() -> Seq<Seq<char>> {
    seq!["Accounts"@, "API Sync"@, "Balances"@, "Transactions"@, "Tagging"@, "Alerts"@]
}

fn pending_step(label: &str) -> (r: RefreshStep)
    ensures
        r.label@ == label@,
        r.status is Pending,
{
    RefreshStep { label: copy_str(label), status: RefreshStatus::Pending }
}

/// Opens the dialog with every step pending.
pub fn start_refresh(r: &mut RefreshState)
    ensures
        final(r).open,
        !final(r).done,
        final(r).steps@.len() == step_names().len(),
        forall|i: int|
            0 <= i < step_names().len() ==> #[trigger] final(r).steps@[i].label@ == step_names()[i]
                && final(r).steps@[i].status is Pending,
{
    let mut steps: Vec<RefreshStep> = Vec::new();
    steps.push(pending_step("Accounts"));
    steps.push(pending_step("API Sync"));
    steps.push(pending_step("Balances"));
    steps.push(pending_step("Transactions"));
    steps.push(pending_step("Tagging"));
    steps.push(pending_step("Alerts"));
    r.open = true;
    r.done = false;
    r.steps = steps;
}

/// Every step but `i` keeps its label and state; the dialog's flags stay.
pub open spec fn others_kept(o: RefreshState, n: RefreshState, i: int) -> bool {
    &&& n.open == o.open
    &&& n.steps@.len() == o.steps@.len()
    &&& forall|j: int| 0 <= j < o.steps@.len() && j != i ==> #[trigger] n.steps@[j] == o.steps@[j]
}

/// Marks step `i` as running (nothing happens for a step that is not there).
pub fn mark_loading(r: &mut RefreshState, i: usize)
    ensures
        others_kept(*old(r), *final(r), i as int),
        final(r).done == old(r).done,
        i < old(r).steps@.len() ==> final(r).steps@[i as int].status is Loading && final(r).steps@[i as int].label
            == old(r).steps@[i as int].label,
{
    if i < r.steps.len() {
        let label = r.steps[i].label.clone();
        r.steps.set(i, RefreshStep { label, status: RefreshStatus::Loading });
    }
}

/// Marks step `i` as done, under its closing label.
pub fn finish_step(r: &mut RefreshState, i: usize, label: String)
    ensures
        others_kept(*old(r), *final(r), i as int),
        final(r).done == old(r).done,
        i < old(r).steps@.len() ==> final(r).steps@[i as int].status is Done && final(r).steps@[i as int].label@
            == label@,
{
    if i < r.steps.len() {
        r.steps.set(i, RefreshStep { label, status: RefreshStatus::Done });
    }
}

/// Ends the refresh with an error shown at step `i`.
pub fn stop_refresh_with_error(r: &mut RefreshState, i: usize, message: &str)
    ensures
        others_kept(*old(r), *final(r), i as int),
        final(r).done,
        i < old(r).steps@.len() ==> final(r).steps@[i as int].label == old(r).steps@[i as int].label && (
        final(r).steps@[i as int].status matches RefreshStatus::Error(m) && m@ == message@),
{
    if i < r.steps.len() {
        let label = r.steps[i].label.clone();
        r.steps.set(i, RefreshStep { label, status: RefreshStatus::Error(copy_str(message)) });
    }
    r.done = true;
}

/// Shows an error at step `i` without ending the refresh (nothing happens
/// for a step that is not there).
pub fn mark_step_error(r: &mut RefreshState, i: usize, message: &str)
    ensures
        others_kept(*old(r), *final(r), i as int),
        final(r).done == old(r).done,
        i < old(r).steps@.len() ==> final(r).steps@[i as int].label == old(r).steps@[i as int].label && (
        final(r).steps@[i as int].status matches RefreshStatus::Error(m) && m@ == message@),
{
    if i < r.steps.len() {
        let label = r.steps[i].label.clone();
        r.steps.set(i, RefreshStep { label, status: RefreshStatus::Error(copy_str(message)) });
    }
}

/// Fetched transactions as a refresh stores them: their categories left
/// empty, everything else kept.
pub fn clear_categories(records: &mut Vec<TransactionRecord>)
    ensures
        final(records)@.len() == old(records)@.len(),
        forall|i: int|
            0 <= i < old(records)@.len() ==> (#[trigger] final(records)@[i]).category@.len() == 0 && final(records)@[i]
                == (TransactionRecord { category: final(records)@[i].category, ..old(records)@[i] }),
{
    let mut i: usize = 0;
    while i < records.len()
        invariant
            i <= records@.len(),
            records@.len() == old(records)@.len(),
            forall|k: int|
                0 <= k < i ==> (#[trigger] records@[k]).category@.len() == 0 && records@[k] == (TransactionRecord {
                    category: records@[k].category,
                    ..old(records)@[k]
                }),
            forall|k: int| i <= k < records@.len() ==> #[trigger] records@[k] == old(records)@[k],
        decreases records.len() - i,
    {
        records[i].category = String::new();
        i = i + 1;
    }
}

// ---------------------------------------------------------------------------
// Step labels
// ---------------------------------------------------------------------------

fn count_label(head: &str, n: usize, tail: &str) -> (r: String)
    ensures
        r@ == head@ + nat_digits(n as nat) + tail@,
{
    let mut s = concat(head, u64_to_string(n as u64).as_str());
    push_str(&mut s, tail);
    s
}

/// The closing label of the accounts step.
pub fn accounts_step_label(count: usize) -> (r: String)
    ensures
        r@ == "Accounts: "@ + nat_digits(count as nat) + " loaded"@,
{
    count_label("Accounts: ", count, " loaded")
}

/// The closing label of the bank synchronisation step.
pub fn api_sync_step_label(fetched: usize) -> (r: String)
    ensures
        r@ == "API Sync: "@ + nat_digits(fetched as nat) + " accounts fetched"@,
{
    count_label("API Sync: ", fetched, " accounts fetched")
}

/// The closing label of the balances step.
pub fn balances_step_label(updated: usize) -> (r: String)
    ensures
        r@ == "Balances: "@ + nat_digits(updated as nat) + " accounts updated"@,
{
    count_label("Balances: ", updated, " accounts updated")
}

/// The closing label of the tagging step.
pub fn tagging_step_label(tagged: usize) -> (r: String)
    ensures
        r@ == "Tagging: "@ + nat_digits(tagged as nat) + " transactions auto-tagged"@,
{
    count_label("Tagging: ", tagged, " transactions auto-tagged")
}

/// The closing label of the alerts step.
pub fn alerts_step_label(triggered: usize, rules: usize) -> (r: String)
    ensures
        r@ == "Alerts: "@ + nat_digits(triggered as nat) + " triggered across "@ + nat_digits(rules as nat)
            + " rules"@,
{
    let mut s = count_label("Alerts: ", triggered, " triggered across ");
    let n = u64_to_string(rules as u64);
    push_str(&mut s, n.as_str());
    push_str(&mut s, " rules");
    s
}

/// The closing label of the transactions step: the total, then one line per
/// account with new transactions, or a note that none is new.
pub fn transactions_step_label(total: usize, details: &Vec<String>) -> (r: String)
    ensures
        r@ == if details@.len() == 0 {
            "Transactions: "@ + nat_digits(total as nat) + " total (no new)"@
        } else {
            "Transactions: "@ + nat_digits(total as nat) + " total\n"@ + join_spec(views(details@), "\n"@)
        },
{
    if details.len() == 0 {
        count_label("Transactions: ", total, " total (no new)")
    } else {
        let mut s = count_label("Transactions: ", total, " total\n");
        let d = join(details, "\n");
        push_str(&mut s, d.as_str());
        s
    }
}

/// The line for an account whose transaction count grew: its alias (else its
/// name) and how many are new. `None` when none is.
pub open spec fn new_transactions_line(acct: AccountRecord, old_count: nat, new_count: nat) -> Option<Seq<char>> {
    if new_count > old_count {
        let name = if acct.alias@.len() > 0 {
            acct.alias@
        } else {
            acct.name@
        };
        Some("  "@ + name + ": +"@ + nat_digits((new_count - old_count) as nat) + " new"@)
    } else {
        None
    }
}

pub fn new_transactions_detail(acct: &AccountRecord, old_count: usize, new_count: usize) -> (r: Option<String>)
    ensures
        match r {
            Some(s) => new_transactions_line(*acct, old_count as nat, new_count as nat) == Some(s@),
            None => new_transactions_line(*acct, old_count as nat, new_count as nat) is None,
        },
{
    if new_count > old_count {
        let name = if !acct.alias.as_str().is_empty() {
            acct.alias.as_str()
        } else {
            acct.name.as_str()
        };
        let mut s = concat("  ", name);
        let tail = count_label(": +", new_count - old_count, " new");
        push_str(&mut s, tail.as_str());
        proof {
            let nm = if acct.alias@.len() > 0 { acct.alias@ } else { acct.name@ };
            assert(s@ =~= "  "@ + nm + ": +"@ + nat_digits((new_count - old_count) as nat) + " new"@);
        }
        Some(s)
    } else {
        None
    }
}

// ---------------------------------------------------------------------------
// Automatic tagging of an account
// ---------------------------------------------------------------------------

/// The category the rules give a transaction.
pub open spec fn rule_category(tx: TransactionRecord, rules: Seq<CategoryRule>) -> Seq<char> {
    match_category_spec(normalize_spec(tx.remittance_info@, tx.creditor_name@, tx.debtor_name@, tx.note@), rules)
}

/// A transaction that automatic tagging re-categorizes: not tagged by hand,
/// and the rules give it another category than it has.
pub open spec fn retagged(tx: TransactionRecord, rules: Seq<CategoryRule>) -> bool {
    tx.category_source@ != "manual"@ && rule_category(tx, rules) != tx.category@
}

/// The positions, in order, of the first `n` transactions that automatic
/// tagging re-categorizes.
pub open spec fn retag_positions(txns: Seq<TransactionRecord>, rules: Seq<CategoryRule>, n: int) -> Seq<int>
    decreases n,
{
    if n <= 0 {
        Seq::<int>::empty()
    } else {
        let p = retag_positions(txns, rules, n - 1);
        if retagged(txns[n - 1], rules) {
            p.push(n - 1)
        } else {
            p
        }
    }
}

/// The positions are in range, increasing, and each is re-categorized.
pub proof fn lemma_retag_positions(txns: Seq<TransactionRecord>, rules: Seq<CategoryRule>, n: int)
    requires
        0 <= n <= txns.len(),
    ensures
        forall|k: int|
            0 <= k < retag_positions(txns, rules, n).len() ==> {
                let p = #[trigger] retag_positions(txns, rules, n)[k];
                0 <= p < n && retagged(txns[p], rules)
            },
        forall|k: int, l: int|
            0 <= k < l < retag_positions(txns, rules, n).len() ==> #[trigger] retag_positions(txns, rules, n)[k]
                < #[trigger] retag_positions(txns, rules, n)[l],
    decreases n,
{
    if n > 0 {
        lemma_retag_positions(txns, rules, n - 1);
        let prev = retag_positions(txns, rules, n - 1);
        let cur = retag_positions(txns, rules, n);
        if retagged(txns[n - 1], rules) {
            assert(cur == prev.push(n - 1));
            assert forall|k: int| 0 <= k < prev.len() implies cur[k] == prev[k] by {}
            assert forall|k: int, l: int| 0 <= k < l < cur.len() implies #[trigger] cur[k] < #[trigger] cur[l] by {
                if l < prev.len() {
                    assert(cur[k] == prev[k] && cur[l] == prev[l]);
                } else {
                    assert(cur[k] == prev[k]);
                }
            }
            assert forall|k: int| 0 <= k < cur.len() implies {
                let p = #[trigger] cur[k];
                0 <= p < n && retagged(txns[p], rules)
            } by {
                if k < prev.len() {
                    assert(cur[k] == prev[k]);
                }
            }
        } else {
            assert(cur == prev);
        }
    }
}

/// Automatic tagging spares what was tagged by hand: every update it makes
/// is for a transaction whose category did not come from the user, and gives
/// it a category other than the one it has.
pub proof fn law_auto_tag_spares_manual(txns: Seq<TransactionRecord>, rules: Seq<CategoryRule>)
    ensures
        forall|k: int|
            0 <= k < retag_positions(txns, rules, txns.len() as int).len() ==> {
                let t = txns[#[trigger] retag_positions(txns, rules, txns.len() as int)[k]];
                t.category_source@ != "manual"@ && rule_category(t, rules) != t.category@
            },
{
    lemma_retag_positions(txns, rules, txns.len() as int);
}

/// The update automatic tagging makes of a transaction of account `uid`.
pub open spec fn auto_update(u: CategoryUpdate, uid: Seq<char>, tx: TransactionRecord, rules: Seq<CategoryRule>) -> bool {
    &&& u.account_uid@ == uid
    &&& u.transaction_id@ == tx.transaction_id@
    &&& u.category@ == rule_category(tx, rules)
    &&& u.source@ == "auto"@
}

/// The updates of automatic tagging for the transactions of account `uid`:
/// one per re-categorized transaction, in order.
pub fn auto_tag_updates(uid: &str, txns: &[TransactionRecord], rules: &[CategoryRule]) -> (r: Vec<CategoryUpdate>)
    ensures
        r@.len() == retag_positions(txns@, rules@, txns@.len() as int).len(),
        forall|k: int|
            0 <= k < r@.len() ==> auto_update(
                #[trigger] r@[k],
                uid@,
                txns@[retag_positions(txns@, rules@, txns@.len() as int)[k]],
                rules@,
            ),
{
    let mut out: Vec<CategoryUpdate> = Vec::new();
    let mut i: usize = 0;
    while i < txns.len()
        invariant
            i <= txns@.len(),
            out@.len() == retag_positions(txns@, rules@, i as int).len(),
            forall|k: int|
                0 <= k < out@.len() ==> auto_update(
                    #[trigger] out@[k],
                    uid@,
                    txns@[retag_positions(txns@, rules@, i as int)[k]],
                    rules@,
                ),
        decreases txns.len() - i,
    {
        let tx = &txns[i];
        if !str_eq(tx.category_source.as_str(), "manual") {
            let norm = normalize(&tx.remittance_info, tx.creditor_name.as_str(), tx.debtor_name.as_str(), tx.note.as_str());
            let cat = match_category(norm.as_str(), rules);
            if !str_eq(cat.as_str(), tx.category.as_str()) {
                let ghost before = out@;
                out.push(CategoryUpdate {
                    account_uid: copy_str(uid),
                    transaction_id: copy_str(tx.transaction_id.as_str()),
                    category: cat,
                    source: copy_str("auto"),
                });
                proof {
                    assert forall|k: int| 0 <= k < out@.len() implies auto_update(
                        #[trigger] out@[k],
                        uid@,
                        txns@[retag_positions(txns@, rules@, i + 1)[k]],
                        rules@,
                    ) by {
                        if k < before.len() {
                            assert(out@[k] == before[k]);
                        }
                    }
                }
            }
        }
        i = i + 1;
    }
    out
}

// ---------------------------------------------------------------------------
// Forecast inputs of an account
// ---------------------------------------------------------------------------

/// The stored balances as forecast inputs.
pub fn balance_inputs(bals: &[BalanceRecord]) -> (r: Vec<BalanceInput>)
    ensures
        r@.len() == bals@.len(),
        forall|i: int|
            0 <= i < bals@.len() ==> {
                &&& (#[trigger] r@[i]).balance_type@ == bals@[i].balance_type@
                &&& r@[i].amount@ == bals@[i].amount@
                &&& r@[i].currency@ == bals@[i].currency@
            },
{
    let mut out: Vec<BalanceInput> = Vec::new();
    let mut i: usize = 0;
    while i < bals.len()
        invariant
            i <= bals@.len(),
            out@.len() == i,
            forall|j: int|
                0 <= j < i ==> {
                    &&& (#[trigger] out@[j]).balance_type@ == bals@[j].balance_type@
                    &&& out@[j].amount@ == bals@[j].amount@
                    &&& out@[j].currency@ == bals@[j].currency@
                },
        decreases bals.len() - i,
    {
        let b = &bals[i];
        out.push(BalanceInput {
            balance_type: copy_str(b.balance_type.as_str()),
            amount: copy_str(b.amount.as_str()),
            currency: copy_str(b.currency.as_str()),
        });
        i = i + 1;
    }
    out
}

/// A stored transaction as a forecast input, described as the account view
/// describes it.
pub open spec fn is_pending_input(p: TxnInput, t: TransactionRecord) -> bool {
    &&& p.transaction_id@ == t.transaction_id@
    &&& p.amount@ == t.amount@
    &&& p.currency@ == t.currency@
    &&& p.credit_debit_indicator@ == t.credit_debit_indicator@
    &&& p.description@ == description_spec(t)
    &&& p.value_date@ == t.value_date@
}

/// The pending transactions as forecast inputs.
pub fn pending_inputs(txns: &[TransactionRecord]) -> (r: Vec<TxnInput>)
    ensures
        r@.len() == txns@.len(),
        forall|i: int| 0 <= i < txns@.len() ==> is_pending_input(#[trigger] r@[i], txns@[i]),
{
    let mut out: Vec<TxnInput> = Vec::new();
    let mut i: usize = 0;
    while i < txns.len()
        invariant
            i <= txns@.len(),
            out@.len() == i,
            forall|j: int| 0 <= j < i ==> is_pending_input(#[trigger] out@[j], txns@[j]),
        decreases txns.len() - i,
    {
        let t = &txns[i];
        out.push(TxnInput {
            transaction_id: copy_str(t.transaction_id.as_str()),
            amount: copy_str(t.amount.as_str()),
            currency: copy_str(t.currency.as_str()),
            credit_debit_indicator: copy_str(t.credit_debit_indicator.as_str()),
            description: description_without_note(t),
            value_date: copy_str(t.value_date.as_str()),
        });
        i = i + 1;
    }
    out
}

/// A forecast labelled with its account: uid, IBAN and bank, and the
/// account's currency where the balances gave none.
pub fn label_forecast(fc: AccountForecast, acct: &AccountRecord) -> (r: AccountForecast)
    ensures
        r.account_uid@ == acct.uid@,
        r.iban@ == acct.iban@,
        r.bank_name@ == acct.bank_name@,
        r.currency@ == (if fc.currency@.len() == 0 {
            acct.currency@
        } else {
            fc.currency@
        }),
        r.booked_balance == fc.booked_balance,
        r.booked_balance_type == fc.booked_balance_type,
        r.pending_delta == fc.pending_delta,
        r.projected_balance == fc.projected_balance,
        r.has_pending_data == fc.has_pending_data,
        r.pending_txns == fc.pending_txns,
        r.warnings == fc.warnings,
{
    let mut r = fc;
    r.account_uid = copy_str(acct.uid.as_str());
    r.iban = copy_str(acct.iban.as_str());
    r.bank_name = copy_str(acct.bank_name.as_str());
    if r.currency.as_str().is_empty() {
        r.currency = copy_str(acct.currency.as_str());
    }
    r
}

// ---------------------------------------------------------------------------
// Alerts of an account
// ---------------------------------------------------------------------------

/// A stored transaction as alert evaluation reads it.
pub open spec fn is_alert_txn(a: AlertTxn, t: TransactionRecord) -> bool {
    &&& a.account_uid@ == t.account_uid@
    &&& a.transaction_id@ == t.transaction_id@
    &&& a.amount@ == t.amount@
    &&& a.currency@ == t.currency@
    &&& a.booking_date@ == t.booking_date@
    &&& a.value_date@ == t.value_date@
    &&& a.transaction_date@ == t.transaction_date@
    &&& views(a.remittance_info@) == views(t.remittance_info@)
    &&& a.creditor_name@ == t.creditor_name@
    &&& a.debtor_name@ == t.debtor_name@
    &&& a.status@ == t.status@
    &&& a.credit_debit_indicator@ == t.credit_debit_indicator@
    &&& a.note@ == t.note@
    &&& a.category@ == t.category@
    &&& a.category_source@ == t.category_source@
}

fn copy_lines(v: &Vec<String>) -> (r: Vec<String>)
    ensures
        views(r@) == views(v@),
{
    let mut out: Vec<String> = Vec::new();
    let mut i: usize = 0;
    while i < v.len()
        invariant
            i <= v@.len(),
            views(out@) == views(v@).take(i as int),
        decreases v.len() - i,
    {
        let ghost before = out@;
        let c = copy_str(v[i].as_str());
        out.push(c);
        assert(views(out@) =~= views(before).push(c@));
        assert(views(v@).take(i + 1) =~= views(v@).take(i as int).push(v@[i as int]@));
        i = i + 1;
    }
    assert(views(v@).take(v@.len() as int) =~= views(v@));
    out
}

/// The stored transactions as alert evaluation reads them.
pub fn to_alert_transactions(txns: &[TransactionRecord]) -> (r: Vec<AlertTxn>)
    ensures
        r@.len() == txns@.len(),
        forall|i: int| 0 <= i < txns@.len() ==> is_alert_txn(#[trigger] r@[i], txns@[i]),
{
    let mut out: Vec<AlertTxn> = Vec::new();
    let mut i: usize = 0;
    while i < txns.len()
        invariant
            i <= txns@.len(),
            out@.len() == i,
            forall|j: int| 0 <= j < i ==> is_alert_txn(#[trigger] out@[j], txns@[j]),
        decreases txns.len() - i,
    {
        let t = &txns[i];
        out.push(AlertTxn {
            account_uid: copy_str(t.account_uid.as_str()),
            transaction_id: copy_str(t.transaction_id.as_str()),
            amount: copy_str(t.amount.as_str()),
            currency: copy_str(t.currency.as_str()),
            booking_date: copy_str(t.booking_date.as_str()),
            value_date: copy_str(t.value_date.as_str()),
            transaction_date: copy_str(t.transaction_date.as_str()),
            remittance_info: copy_lines(&t.remittance_info),
            creditor_name: copy_str(t.creditor_name.as_str()),
            debtor_name: copy_str(t.debtor_name.as_str()),
            status: copy_str(t.status.as_str()),
            credit_debit_indicator: copy_str(t.credit_debit_indicator.as_str()),
            note: copy_str(t.note.as_str()),
            category: copy_str(t.category.as_str()),
            category_source: copy_str(t.category_source.as_str()),
        });
        i = i + 1;
    }
    out
}

/// How many of the first `n` results triggered.
pub open spec fn triggered_in(results: Seq<AlertResult>, n: int) -> nat
    decreases n,
{
    if n <= 0 {
        0
    } else {
        triggered_in(results, n - 1) + if results[n - 1].status@ == "TRIGGERED"@ {
            1nat
        } else {
            0nat
        }
    }
}

/// How many alert results triggered.
pub fn count_triggered(results: &[AlertResult]) -> (r: usize)
    ensures
        r == triggered_in(results@, results@.len() as int),
{
    let mut n: usize = 0;
    let mut i: usize = 0;
    while i < results.len()
        invariant
            i <= results@.len(),
            n == triggered_in(results@, i as int),
            n <= i,
        decreases results.len() - i,
    {
        if str_eq(results[i].status.as_str(), "TRIGGERED") {
            n = n + 1;
        }
        i = i + 1;
    }
    n
}

} // verus!
