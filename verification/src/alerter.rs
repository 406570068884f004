use vstd::prelude::*;

use crate::dec::{
    Dec, abs_int, add_fits, add_fits_exec, dec_add, dec_display, dec_lt, dec_parse_exact, dec_round_dp,
    dec_sub, dec_zero, decimal_add, decimal_display, decimal_from_str_exact, decimal_round_dp, decimal_sub,
    sub_fits, sub_fits_exec, zero_spec,
};
use crate::tagger::{normalize, normalize_spec};
use crate::text::{
    concat, contains_str, copy_str, has_sub, join, join_spec, nat_digits, push_str, str_eq,
    to_upper, u64_to_string, unicode_upper,
};

verus! {

/// Local TransactionRecord with the fields needed by alert evaluators.
/// The CLI layer converts from the stored transaction into this type.
#[derive(Debug, Clone)]
pub struct TransactionRecord {
    pub account_uid: String,
    pub transaction_id: String,
    pub amount: String,
    pub currency: String,
    pub booking_date: String,
    pub value_date: String,
    pub transaction_date: String,
    pub remittance_info: Vec<String>,
    pub creditor_name: String,
    pub debtor_name: String,
    pub status: String,
    pub credit_debit_indicator: String,
    pub note: String,
    pub category: String,
    pub category_source: String,
}

/// AlertRule defines a single alert rule with its type and criteria.
#[derive(Debug, Clone)]
pub struct AlertRule {
    pub name: String,
    pub rule_type: String,
    pub transaction: Option<TransactionAlertCriteria>,
    pub category: Option<CategoryAlertCriteria>,
}

/// TransactionAlertCriteria holds criteria for transaction-based alerts.
#[derive(Debug, Clone)]
pub struct TransactionAlertCriteria {
    pub amount_gte: String,
    pub merchant_contains: String,
    pub direction: String,
}

/// CategoryAlertCriteria holds criteria for category-based spending alerts.
#[derive(Debug, Clone)]
pub struct CategoryAlertCriteria {
    pub category: String,
    pub threshold: String,
    pub period: String,
    pub bank: String,
}

/// MatchedTransaction holds details of a single transaction that matched an alert rule.
#[derive(Debug, Clone)]
pub struct MatchedTransaction {
    pub account_uid: String,
    pub date: String,
    pub amount: String,
    pub currency: String,
    pub description: String,
}

/// AlertResult represents the evaluation result of a single alert rule.
#[derive(Debug, Clone)]
pub struct AlertResult {
    pub rule: AlertRule,
    pub status: String,
    pub details: String,
    pub matched_transactions: Vec<MatchedTransaction>,
}

/// CheckOutput holds the full results of evaluating all alert rules.
#[derive(Debug, Clone)]
pub struct CheckOutput {
    pub results: Vec<AlertResult>,
    pub exit_code: i32,
}

// ---------------------------------------------------------------------------
// Copies
// ---------------------------------------------------------------------------

fn copy_string(s: &String) -> (r: String)
    ensures
        r == *s,
{
    s.clone()
}

fn copy_transaction_criteria(c: &TransactionAlertCriteria) -> (r: TransactionAlertCriteria)
    ensures
        r == *c,
{
    TransactionAlertCriteria {
        amount_gte: copy_string(&c.amount_gte),
        merchant_contains: copy_string(&c.merchant_contains),
        direction: copy_string(&c.direction),
    }
}

fn copy_category_criteria(c: &CategoryAlertCriteria) -> (r: CategoryAlertCriteria)
    ensures
        r == *c,
{
    CategoryAlertCriteria {
        category: copy_string(&c.category),
        threshold: copy_string(&c.threshold),
        period: copy_string(&c.period),
        bank: copy_string(&c.bank),
    }
}

/// A copy of an alert rule.
pub fn copy_rule(r: &AlertRule) -> (c: AlertRule)
    ensures
        c == *r,
{
    AlertRule {
        name: copy_string(&r.name),
        rule_type: copy_string(&r.rule_type),
        transaction: match &r.transaction {
            Some(t) => Some(copy_transaction_criteria(t)),
            None => None,
        },
        category: match &r.category {
            Some(t) => Some(copy_category_criteria(t)),
            None => None,
        },
    }
}

fn result_of(rule: &AlertRule, status: &str, details: String) -> (r: AlertResult)
    ensures
        r.rule == *rule,
        r.status@ == status@,
        r.details == details,
        r.matched_transactions@.len() == 0,
{
    AlertResult {
        rule: copy_rule(rule),
        status: copy_str(status),
        details,
        matched_transactions: Vec::new(),
    }
}

// ---------------------------------------------------------------------------
// Rule names
// ---------------------------------------------------------------------------

/// The name generated for a rule from its type and criteria.
pub open spec fn auto_name_spec(r: AlertRule) -> Seq<char> {
    if r.name@.len() > 0 {
        r.name@
    } else if r.rule_type@ == "transaction"@ {
        match r.transaction {
            None => "transaction-unknown"@,
            Some(t) => {
                let p0 = seq!["transaction"@];
                let p1 = if t.amount_gte@.len() > 0 {
                    p0.push(t.amount_gte@)
                } else {
                    p0
                };
                let p2 = if t.merchant_contains@.len() > 0 {
                    p1.push(unicode_upper(t.merchant_contains@))
                } else {
                    p1
                };
                join_spec(p2, "-"@)
            },
        }
    } else if r.rule_type@ == "category"@ {
        match r.category {
            None => "category-unknown"@,
            Some(c) => {
                let p0 = seq!["category"@, c.category@, c.threshold@];
                let p1 = if c.period@.len() > 0 {
                    p0.push(c.period@)
                } else {
                    p0
                };
                join_spec(p1, "-"@)
            },
        }
    } else {
        "unknown-"@ + r.rule_type@
    }
}

fn views_push(parts: &mut Vec<String>, s: String)
    ensures
        final(parts)@ == old(parts)@.push(s),
        crate::text::views(final(parts)@) == crate::text::views(old(parts)@).push(s@),
{
    parts.push(s);
    assert(crate::text::views(parts@) =~= crate::text::views(old(parts)@).push(s@));
}

impl AlertRule {
    /// Generates a default name for a rule based on its type and criteria.
    pub fn auto_name(&self) -> (r: String)
        ensures
            r@ == auto_name_spec(*self),
    {
        if !self.name.as_str().is_empty() {
            return copy_str(self.name.as_str());
        }
        if str_eq(self.rule_type.as_str(), "transaction") {
            match &self.transaction {
                None => copy_str("transaction-unknown"),
                Some(t) => {
                    let mut parts: Vec<String> = Vec::new();
                    assert(crate::text::views(parts@) =~= Seq::<Seq<char>>::empty());
                    views_push(&mut parts, copy_str("transaction"));
                    if !t.amount_gte.as_str().is_empty() {
                        views_push(&mut parts, copy_str(t.amount_gte.as_str()));
                    }
                    if !t.merchant_contains.as_str().is_empty() {
                        views_push(&mut parts, to_upper(t.merchant_contains.as_str()));
                    }
                    join(&parts, "-")
                },
            }
        } else if str_eq(self.rule_type.as_str(), "category") {
            match &self.category {
                None => copy_str("category-unknown"),
                Some(c) => {
                    let mut parts: Vec<String> = Vec::new();
                    assert(crate::text::views(parts@) =~= Seq::<Seq<char>>::empty());
                    views_push(&mut parts, copy_str("category"));
                    views_push(&mut parts, copy_str(c.category.as_str()));
                    views_push(&mut parts, copy_str(c.threshold.as_str()));
                    assert(crate::text::views(parts@) =~= seq!["category"@, c.category@, c.threshold@]);
                    if !c.period.as_str().is_empty() {
                        views_push(&mut parts, copy_str(c.period.as_str()));
                    }
                    join(&parts, "-")
                },
            }
        } else {
            concat("unknown-", self.rule_type.as_str())
        }
    }
}

// ---------------------------------------------------------------------------
// Transaction rules
// ---------------------------------------------------------------------------

/// The threshold of a transaction rule: zero when none is set.
pub open spec fn threshold_of(c: TransactionAlertCriteria) -> Option<Dec> {
    if c.amount_gte@.len() == 0 {
        Some(zero_spec())
    } else {
        decimal_from_str_exact(c.amount_gte@)
    }
}

/// The text a transaction's merchant criterion looks in.
pub open spec fn alert_normalized(t: TransactionRecord) -> Seq<char> {
    normalize_spec(t.remittance_info@, t.creditor_name@, t.debtor_name@, t.note@)
}

/// All criteria of a transaction rule hold of a transaction (AND-combined).
pub open spec fn criteria_hold(c: TransactionAlertCriteria, threshold: Dec, t: TransactionRecord) -> bool {
    &&& c.direction@.len() > 0 ==> t.credit_debit_indicator@ == c.direction@
    &&& c.amount_gte@.len() > 0 ==> (decimal_from_str_exact(t.amount@) matches Some(a) && !(a.v()
        < threshold.v()))
    &&& unicode_upper(c.merchant_contains@).len() > 0 ==> has_sub(
        alert_normalized(t),
        unicode_upper(c.merchant_contains@),
    )
}

/// The transactions that match all criteria, in order.
pub open spec fn matching_transactions(
    c: TransactionAlertCriteria,
    threshold: Dec,
    txns: Seq<TransactionRecord>,
) -> Seq<TransactionRecord>
    decreases txns.len(),
{
    if txns.len() == 0 {
        Seq::<TransactionRecord>::empty()
    } else {
        let m = matching_transactions(c, threshold, txns.drop_last());
        if criteria_hold(c, threshold, txns.last()) {
            m.push(txns.last())
        } else {
            m
        }
    }
}

/// The date reported for a match: the booking date, else the transaction date.
pub open spec fn match_date(t: TransactionRecord) -> Seq<char> {
    if t.booking_date@.len() > 0 {
        t.booking_date@
    } else {
        t.transaction_date@
    }
}

/// The description reported for a match: creditor, else debtor, else the first
/// remittance line, else nothing.
pub open spec fn match_description(t: TransactionRecord) -> Seq<char> {
    if t.creditor_name@.len() > 0 {
        t.creditor_name@
    } else if t.debtor_name@.len() > 0 {
        t.debtor_name@
    } else if t.remittance_info@.len() > 0 {
        t.remittance_info@[0]@
    } else {
        Seq::<char>::empty()
    }
}

/// `m` reports the transaction `t`.
pub open spec fn reports(m: MatchedTransaction, t: TransactionRecord) -> bool {
    &&& m.account_uid@ == t.account_uid@
    &&& m.date@ == match_date(t)
    &&& m.amount@ == t.amount@
    &&& m.currency@ == t.currency@
    &&& m.description@ == match_description(t)
}

/// The details of a triggered transaction rule.
pub open spec fn triggered_details(ms: Seq<TransactionRecord>) -> Seq<char> {
    nat_digits(ms.len()) + " transaction(s) matched: "@ + ms[0].amount@ + " "@ + ms[0].currency@
        + " "@ + match_description(ms[0])
}

fn report(t: &TransactionRecord) -> (m: MatchedTransaction)
    ensures
        reports(m, *t),
{
    let date = if !t.booking_date.as_str().is_empty() {
        copy_str(t.booking_date.as_str())
    } else {
        copy_str(t.transaction_date.as_str())
    };
    let desc = if !t.creditor_name.as_str().is_empty() {
        copy_str(t.creditor_name.as_str())
    } else if !t.debtor_name.as_str().is_empty() {
        copy_str(t.debtor_name.as_str())
    } else if t.remittance_info.len() > 0 {
        copy_str(t.remittance_info[0].as_str())
    } else {
        String::new()
    };
    MatchedTransaction {
        account_uid: copy_str(t.account_uid.as_str()),
        date,
        amount: copy_str(t.amount.as_str()),
        currency: copy_str(t.currency.as_str()),
        description: desc,
    }
}

fn holds(c: &TransactionAlertCriteria, threshold: Dec, merchant_upper: &String, t: &TransactionRecord) -> (r: bool)
    requires
        threshold.wf(),
        merchant_upper@ == unicode_upper(c.merchant_contains@),
    ensures
        r == criteria_hold(*c, threshold, *t),
{
    if !c.direction.as_str().is_empty() && !str_eq(t.credit_debit_indicator.as_str(), c.direction.as_str()) {
        return false;
    }
    if !c.amount_gte.as_str().is_empty() {
        match dec_parse_exact(t.amount.as_str()) {
            None => {
                return false;
            },
            Some(a) => {
                if dec_lt(a, threshold) {
                    return false;
                }
            },
        }
    }
    if !merchant_upper.as_str().is_empty() {
        let normalized = normalize(
            t.remittance_info.as_slice(),
            t.creditor_name.as_str(),
            t.debtor_name.as_str(),
            t.note.as_str(),
        );
        if !contains_str(normalized.as_str(), merchant_upper.as_str()) {
            return false;
        }
    }
    true
}

/// What evaluating a transaction rule gives.
pub open spec fn transaction_outcome(rule: AlertRule, txns: Seq<TransactionRecord>, r: AlertResult) -> bool {
    &&& r.rule == rule
    &&& rule.transaction is None ==> r.status@ == "OK"@ && r.details@ == "no transaction criteria"@
            && r.matched_transactions@.len() == 0
    &&& rule.transaction matches Some(c) ==> (threshold_of(c) is None ==> r.status@ == "OK"@
            && r.details@ == "invalid threshold: "@ + c.amount_gte@ && r.matched_transactions@.len()
            == 0)
    &&& rule.transaction matches Some(c) ==> (threshold_of(c) matches Some(thr) ==> {
            let ms = matching_transactions(c, thr, txns);
            &&& r.matched_transactions@.len() == ms.len()
            &&& forall|k: int| 0 <= k < ms.len() ==> reports(#[trigger] r.matched_transactions@[k], ms[k])
            &&& ms.len() > 0 ==> r.status@ == "TRIGGERED"@ && r.details@ == triggered_details(ms)
            &&& ms.len() == 0 ==> r.status@ == "OK"@ && r.details@ == "no matching transactions"@
        })
}

/// Evaluates a transaction alert rule against a set of transactions.
/// All criteria (amount, merchant, direction) are AND-combined.
/// Returns TRIGGERED if any transaction matches all criteria.
pub fn evaluate_transaction(rule: &AlertRule, txns: &[TransactionRecord]) -> (r: AlertResult)
    ensures
        transaction_outcome(*rule, txns@, r),
{
    let crit = match &rule.transaction {
        Some(c) => c,
        None => {
            return result_of(rule, "OK", copy_str("no transaction criteria"));
        },
    };
    let threshold = if crit.amount_gte.as_str().is_empty() {
        dec_zero()
    } else {
        match dec_parse_exact(crit.amount_gte.as_str()) {
            Some(d) => d,
            None => {
                return result_of(
                    rule,
                    "OK",
                    concat("invalid threshold: ", crit.amount_gte.as_str()),
                );
            },
        }
    };
    let merchant_upper = to_upper(crit.merchant_contains.as_str());
    let ghost thr = threshold;
    let mut matches: Vec<MatchedTransaction> = Vec::new();
    let mut first: Option<usize> = None;
    let ghost mut ms: Seq<TransactionRecord> = Seq::empty();
    let mut i: usize = 0;
    while i < txns.len()
        invariant
            i <= txns@.len(),
            rule.transaction == Some(*crit),
            threshold_of(*crit) == Some(thr),
            threshold == thr,
            thr.wf(),
            merchant_upper@ == unicode_upper(crit.merchant_contains@),
            ms == matching_transactions(*crit, thr, txns@.take(i as int)),
            matches@.len() == ms.len(),
            forall|k: int| 0 <= k < ms.len() ==> reports(#[trigger] matches@[k], ms[k]),
            ms.len() == 0 <==> first is None,
            first matches Some(f) ==> f < txns@.len() && ms[0] == txns@[f as int],
        decreases txns.len() - i,
    {
        proof {
            assert(txns@.take(i + 1).drop_last() =~= txns@.take(i as int));
        }
        if holds(crit, threshold, &merchant_upper, &txns[i]) {
            matches.push(report(&txns[i]));
            if first.is_none() {
                first = Some(i);
            }
            proof {
                ms = ms.push(txns@[i as int]);
            }
        }
        i = i + 1;
    }
    assert(txns@.take(txns@.len() as int) =~= txns@);
    match first {
        Some(f) => {
            let t = &txns[f];
            let mut details = u64_to_string(matches.len() as u64);
            push_str(&mut details, " transaction(s) matched: ");
            push_str(&mut details, t.amount.as_str());
            push_str(&mut details, " ");
            push_str(&mut details, t.currency.as_str());
            push_str(&mut details, " ");
            let m = report(t);
            push_str(&mut details, m.description.as_str());
            AlertResult {
                rule: copy_rule(rule),
                status: copy_str("TRIGGERED"),
                details,
                matched_transactions: matches,
            }
        },
        None => result_of(rule, "OK", copy_str("no matching transactions")),
    }
}

// ---------------------------------------------------------------------------
// Category rules
// ---------------------------------------------------------------------------

/// A transaction counts toward a category's spending: it is in the category
/// and its amount parses.
pub open spec fn counts_toward(cat: Seq<char>, t: TransactionRecord) -> bool {
    t.category@ == cat && decimal_from_str_exact(t.amount@) is Some
}

/// The running net spending (debits added, credits subtracted), as computed
/// with `Decimal` arithmetic.
pub open spec fn net_spending(cat: Seq<char>, txns: Seq<TransactionRecord>) -> Dec
    decreases txns.len(),
{
    if txns.len() == 0 {
        zero_spec()
    } else {
        let n = net_spending(cat, txns.drop_last());
        let t = txns.last();
        if counts_toward(cat, t) {
            let a = decimal_from_str_exact(t.amount@)->0;
            if t.credit_debit_indicator@ == "DBIT"@ {
                decimal_add(n, a)
            } else if t.credit_debit_indicator@ == "CRDT"@ {
                decimal_sub(n, a)
            } else {
                n
            }
        } else {
            n
        }
    }
}

/// Net spending as an exact value (times 10^28): the sum of debits minus the
/// sum of credits in the category.
pub open spec fn net_value(cat: Seq<char>, txns: Seq<TransactionRecord>) -> int
    decreases txns.len(),
{
    if txns.len() == 0 {
        0
    } else {
        let n = net_value(cat, txns.drop_last());
        let t = txns.last();
        if counts_toward(cat, t) {
            let a = decimal_from_str_exact(t.amount@)->0;
            if t.credit_debit_indicator@ == "DBIT"@ {
                n + a.v()
            } else if t.credit_debit_indicator@ == "CRDT"@ {
                n - a.v()
            } else {
                n
            }
        } else {
            n
        }
    }
}

/// The currency of the first counted transaction with a currency.
pub open spec fn net_currency(cat: Seq<char>, txns: Seq<TransactionRecord>) -> Seq<char>
    decreases txns.len(),
{
    if txns.len() == 0 {
        Seq::<char>::empty()
    } else {
        let c = net_currency(cat, txns.drop_last());
        if c.len() == 0 && counts_toward(cat, txns.last()) {
            txns.last().currency@
        } else {
            c
        }
    }
}

/// Adding up the category never overflows: every debit added to, and every
/// credit taken from, the running net is exact.
pub open spec fn category_amounts_ok(cat: Seq<char>, txns: Seq<TransactionRecord>) -> bool {
    forall|i: int|
        0 <= i < txns.len() && counts_toward(cat, #[trigger] txns[i]) ==> net_step_fits(
            net_spending(cat, txns.take(i)),
            txns[i],
        )
}

/// Adding the transaction's debit to, or taking its credit from, `net` is
/// exact.
pub open spec fn net_step_fits(net: Dec, t: TransactionRecord) -> bool {
    let a = decimal_from_str_exact(t.amount@)->0;
    &&& t.credit_debit_indicator@ == "DBIT"@ ==> add_fits(net, a)
    &&& t.credit_debit_indicator@ == "CRDT"@ ==> sub_fits(net, a)
}

/// The details of a category rule: category, net and threshold rounded to
/// two decimals, and currency.
pub open spec fn category_details(cat: Seq<char>, net: Dec, threshold: Dec, currency: Seq<char>) -> Seq<char> {
    cat + ": "@ + decimal_display(decimal_round_dp(net, 2)) + "/"@ + decimal_display(
        decimal_round_dp(threshold, 2),
    ) + " "@ + currency
}

/// What evaluating a category rule gives.
pub open spec fn category_outcome(rule: AlertRule, txns: Seq<TransactionRecord>, r: AlertResult) -> bool {
    &&& r.rule == rule
    &&& r.matched_transactions@.len() == 0
    &&& rule.category is None ==> r.status@ == "OK"@ && r.details@ == "no category criteria"@
    &&& rule.category matches Some(c) ==> (decimal_from_str_exact(c.threshold@) is None ==> r.status@
            == "OK"@ && r.details@ == "invalid threshold: "@ + c.threshold@)
    &&& rule.category matches Some(c) ==> (decimal_from_str_exact(c.threshold@) matches Some(thr) ==> {
            let net = net_spending(c.category@, txns);
            &&& net.v() == net_value(c.category@, txns)
            &&& r.status@ == (if net_value(c.category@, txns) >= thr.v() {
                "TRIGGERED"@
            } else {
                "OK"@
            })
            &&& r.details@ == category_details(c.category@, net, thr, net_currency(c.category@, txns))
        })
}

/// Evaluates a category spending alert rule against a set of transactions.
/// Net spending = sum of DBIT amounts - sum of CRDT amounts for the category.
/// Returns TRIGGERED if net spending >= threshold.
pub fn evaluate_category(rule: &AlertRule, txns: &[TransactionRecord]) -> (r: AlertResult)
    requires
        rule.category matches Some(c) ==> category_amounts_ok(c.category@, txns@),
    ensures
        category_outcome(*rule, txns@, r),
{
    let crit = match &rule.category {
        Some(c) => c,
        None => {
            return result_of(rule, "OK", copy_str("no category criteria"));
        },
    };
    let threshold = match dec_parse_exact(crit.threshold.as_str()) {
        Some(d) => d,
        None => {
            return result_of(rule, "OK", concat("invalid threshold: ", crit.threshold.as_str()));
        },
    };
    let ghost cat = crit.category@;
    let mut net = dec_zero();
    let mut currency = String::new();
    let mut i: usize = 0;
    while i < txns.len()
        invariant
            i <= txns@.len(),
            cat == crit.category@,
            category_amounts_ok(cat, txns@),
            net == net_spending(cat, txns@.take(i as int)),
            net.v() == net_value(cat, txns@.take(i as int)),
            net.wf(),
            currency@ == net_currency(cat, txns@.take(i as int)),
        decreases txns.len() - i,
    {
        proof {
            assert(txns@.take(i + 1).drop_last() =~= txns@.take(i as int));
        }
        let t = &txns[i];
        if str_eq(t.category.as_str(), crit.category.as_str()) {
            match dec_parse_exact(t.amount.as_str()) {
                None => {},
                Some(a) => {
                    proof {
                        assert(txns@[i as int].category@ == cat);
                        assert(counts_toward(cat, txns@[i as int]));
                        assert(net_step_fits(net_spending(cat, txns@.take(i as int)), txns@[i as int]));
                    }
                    if currency.as_str().is_empty() {
                        currency = copy_str(t.currency.as_str());
                    }
                    if str_eq(t.credit_debit_indicator.as_str(), "DBIT") {
                        net = dec_add(net, a);
                    } else if str_eq(t.credit_debit_indicator.as_str(), "CRDT") {
                        net = dec_sub(net, a);
                    }
                },
            }
        }
        i = i + 1;
    }
    assert(txns@.take(txns@.len() as int) =~= txns@);
    let mut details = copy_str(crit.category.as_str());
    push_str(&mut details, ": ");
    let n = dec_display(dec_round_dp(net, 2));
    push_str(&mut details, n.as_str());
    push_str(&mut details, "/");
    let t = dec_display(dec_round_dp(threshold, 2));
    push_str(&mut details, t.as_str());
    push_str(&mut details, " ");
    push_str(&mut details, currency.as_str());
    let status = if dec_lt(net, threshold) {
        "OK"
    } else {
        "TRIGGERED"
    };
    result_of(rule, status, details)
}

// ---------------------------------------------------------------------------
// All rules
// ---------------------------------------------------------------------------

/// No category rule's evaluation overflows.
pub open spec fn rules_amounts_ok(rules: Seq<AlertRule>, txns: Seq<TransactionRecord>) -> bool {
    forall|i: int|
        0 <= i < rules.len() && #[trigger] rules[i].rule_type@ == "category"@ ==> (
        rules[i].category matches Some(c) ==> category_amounts_ok(c.category@, txns))
}

/// The result a rule evaluates to.
pub open spec fn evaluates_to(rule: AlertRule, txns: Seq<TransactionRecord>, r: AlertResult) -> bool {
    if rule.rule_type@ == "transaction"@ {
        transaction_outcome(rule, txns, r)
    } else if rule.rule_type@ == "category"@ {
        category_outcome(rule, txns, r)
    } else {
        &&& r.rule == rule
        &&& r.status@ == "OK"@
        &&& r.details@ == "unknown rule type: "@ + rule.rule_type@
        &&& r.matched_transactions@.len() == 0
    }
}

/// Evaluates all alert rules against the provided transactions.
/// If session_valid is false, returns ExitCode 2 without evaluating rules.
/// ExitCode 1 if any rule is TRIGGERED, 0 if all OK.
pub fn check(rules: &[AlertRule], txns: &[TransactionRecord], session_valid: bool) -> (r: CheckOutput)
    requires
        session_valid ==> rules_amounts_ok(rules@, txns@),
    ensures
        !session_valid ==> r.results@.len() == 0 && r.exit_code == 2,
        session_valid ==> r.results@.len() == rules@.len(),
        session_valid ==> forall|i: int| 0 <= i < rules@.len() ==> evaluates_to(rules@[i], txns@, #[trigger] r.results@[i]),
        session_valid ==> r.exit_code == (if exists|i: int| 0 <= i < r.results@.len() && #[trigger] r.results@[i].status@ == "TRIGGERED"@ {
            1i32
        } else {
            0i32
        }),
{
    if !session_valid {
        return CheckOutput { results: Vec::new(), exit_code: 2 };
    }
    let mut results: Vec<AlertResult> = Vec::new();
    let mut triggered = false;
    let mut i: usize = 0;
    while i < rules.len()
        invariant
            i <= rules@.len(),
            rules_amounts_ok(rules@, txns@),
            results@.len() == i,
            forall|k: int| 0 <= k < i ==> evaluates_to(rules@[k], txns@, #[trigger] results@[k]),
            triggered == exists|k: int| 0 <= k < i && #[trigger] results@[k].status@ == "TRIGGERED"@,
        decreases rules.len() - i,
    {
        let rule = &rules[i];
        let result = if str_eq(rule.rule_type.as_str(), "transaction") {
            evaluate_transaction(rule, txns)
        } else if str_eq(rule.rule_type.as_str(), "category") {
            evaluate_category(rule, txns)
        } else {
            result_of(rule, "OK", concat("unknown rule type: ", rule.rule_type.as_str()))
        };
        let hit = str_eq(result.status.as_str(), "TRIGGERED");
        let ghost old_results = results@;
        let ghost old_triggered = triggered;
        if hit {
            triggered = true;
        }
        results.push(result);
        proof {
            assert(results@ == old_results.push(result));
            assert(results@[i as int] == result);
            assert forall|k: int| 0 <= k < i implies #[trigger] results@[k] == old_results[k] by {}
            if hit {
                assert(results@[i as int].status@ == "TRIGGERED"@);
            } else if old_triggered {
                let k = choose|k: int| 0 <= k < i && #[trigger] old_results[k].status@ == "TRIGGERED"@;
                assert(results@[k].status@ == "TRIGGERED"@);
            } else {
                assert forall|k: int| 0 <= k < i + 1 implies #[trigger] results@[k].status@ != "TRIGGERED"@ by {
                    if k < i {
                        assert(results@[k] == old_results[k]);
                    }
                }
            }
        }
        i = i + 1;
    }
    let exit_code = if triggered {
        1
    } else {
        0
    };
    CheckOutput { results, exit_code }
}

/// Whether adding up a category's amounts never overflows
/// (`category_amounts_ok`).
pub fn category_amounts_accepted(cat: &str, txns: &[TransactionRecord]) -> (r: bool)
    ensures
        r == category_amounts_ok(cat@, txns@),
{
    let mut net = dec_zero();
    let mut i: usize = 0;
    while i < txns.len()
        invariant
            i <= txns@.len(),
            net == net_spending(cat@, txns@.take(i as int)),
            net.wf(),
            forall|k: int|
                0 <= k < i && counts_toward(cat@, #[trigger] txns@[k]) ==> net_step_fits(
                    net_spending(cat@, txns@.take(k)),
                    txns@[k],
                ),
        decreases txns.len() - i,
    {
        proof {
            assert(txns@.take(i + 1).drop_last() =~= txns@.take(i as int));
        }
        let t = &txns[i];
        if str_eq(t.category.as_str(), cat) {
            match dec_parse_exact(t.amount.as_str()) {
                Some(a) => {
                    let ghost prev = net;
                    assert(txns@[i as int] == *t);
                    proof {
                        reveal_strlit("DBIT");
                        reveal_strlit("CRDT");
                        assert("DBIT"@[0] != "CRDT"@[0]);
                    }
                    if str_eq(t.credit_debit_indicator.as_str(), "DBIT") {
                        if !add_fits_exec(net, a) {
                            return false;
                        }
                        assert(a == decimal_from_str_exact(txns@[i as int].amount@)->0);
                        assert(net_step_fits(prev, txns@[i as int]));
                        net = dec_add(net, a);
                    } else if str_eq(t.credit_debit_indicator.as_str(), "CRDT") {
                        if !sub_fits_exec(net, a) {
                            return false;
                        }
                        assert(net_step_fits(prev, txns@[i as int]));
                        net = dec_sub(net, a);
                    } else {
                        assert(txns@[i as int].credit_debit_indicator@ != "DBIT"@);
                        assert(txns@[i as int].credit_debit_indicator@ != "CRDT"@);
                        assert(net_step_fits(prev, txns@[i as int]));
                    }
                },
                None => {},
            }
        }
        i = i + 1;
    }
    true
}

/// Whether no category rule's evaluation overflows (`rules_amounts_ok`).
pub fn rules_amounts_accepted(rules: &[AlertRule], txns: &[TransactionRecord]) -> (r: bool)
    ensures
        r == rules_amounts_ok(rules@, txns@),
{
    let mut i: usize = 0;
    while i < rules.len()
        invariant
            i <= rules@.len(),
            forall|k: int| 0 <= k < i && #[trigger] rules@[k].rule_type@ == "category"@ ==> (
            rules@[k].category matches Some(c) ==> category_amounts_ok(c.category@, txns@)),
        decreases rules.len() - i,
    {
        if str_eq(rules[i].rule_type.as_str(), "category") {
            match &rules[i].category {
                Some(c) => {
                    if !category_amounts_accepted(c.category.as_str(), txns) {
                        return false;
                    }
                },
                None => {},
            }
        }
        i = i + 1;
    }
    true
}

/// `check` on the inputs it accepts: `None` when a category rule meets a
/// sum that overflows (and the session is valid).
pub fn check_checked(rules: &[AlertRule], txns: &[TransactionRecord], session_valid: bool) -> (r: Option<CheckOutput>)
    ensures
        r is None <==> (session_valid && !rules_amounts_ok(rules@, txns@)),
        r matches Some(out) ==> {
            &&& !session_valid ==> out.results@.len() == 0 && out.exit_code == 2
            &&& session_valid ==> out.results@.len() == rules@.len()
            &&& session_valid ==> forall|i: int| 0 <= i < rules@.len() ==> evaluates_to(rules@[i], txns@, #[trigger] out.results@[i])
            &&& session_valid ==> out.exit_code == (if exists|i: int| 0 <= i < out.results@.len() && #[trigger] out.results@[i].status@ == "TRIGGERED"@ {
                1i32
            } else {
                0i32
            })
        },
{
    if !session_valid {
        return Some(CheckOutput { results: Vec::new(), exit_code: 2 });
    }
    if rules_amounts_accepted(rules, txns) {
        Some(check(rules, txns, session_valid))
    } else {
        None
    }
}

/// `evaluate_category` on the inputs it accepts: `None` when the category's
/// net overflows.
pub fn evaluate_category_checked(rule: &AlertRule, txns: &[TransactionRecord]) -> (r: Option<AlertResult>)
    ensures
        r is None <==> (rule.category matches Some(c) && !category_amounts_ok(c.category@, txns@)),
        r matches Some(res) ==> category_outcome(*rule, txns@, res),
{
    match &rule.category {
        Some(c) => {
            if !category_amounts_accepted(c.category.as_str(), txns) {
                return None;
            }
        },
        None => {},
    }
    Some(evaluate_category(rule, txns))
}

/// The transaction `t` meets the criteria `c` under threshold `thr`: its
/// direction is the one asked for, its exact amount is at least the
/// threshold, and the merchant text, upper-cased, occurs in the tagger's
/// normalization of its remittance lines, creditor, debtor and note.
#[verifier::opaque]
pub open spec fn meets_criteria(c: TransactionAlertCriteria, thr: Dec, t: TransactionRecord) -> bool {
    &&& c.direction@.len() > 0 ==> t.credit_debit_indicator@ == c.direction@
    &&& c.amount_gte@.len() > 0 ==> (decimal_from_str_exact(t.amount@) matches Some(a) && a.v() >= thr.v())
    &&& unicode_upper(c.merchant_contains@).len() > 0 ==> has_sub(
        normalize_spec(t.remittance_info@, t.creditor_name@, t.debtor_name@, t.note@),
        unicode_upper(c.merchant_contains@),
    )
}

proof fn lemma_matching_members(c: TransactionAlertCriteria, thr: Dec, txns: Seq<TransactionRecord>)
    ensures
        forall|i: int|
            0 <= i < txns.len() && criteria_hold(c, thr, #[trigger] txns[i]) ==> exists|k: int|
                0 <= k < matching_transactions(c, thr, txns).len() && matching_transactions(c, thr, txns)[k]
                    == txns[i],
        forall|k: int|
            0 <= k < matching_transactions(c, thr, txns).len() ==> criteria_hold(
                c,
                thr,
                #[trigger] matching_transactions(c, thr, txns)[k],
            ) && exists|i: int| 0 <= i < txns.len() && txns[i] == matching_transactions(c, thr, txns)[k],
    decreases txns.len(),
{
    if txns.len() > 0 {
        let d = txns.drop_last();
        lemma_matching_members(c, thr, d);
        let m = matching_transactions(c, thr, d);
        let ms = matching_transactions(c, thr, txns);
        assert forall|i: int| 0 <= i < txns.len() && criteria_hold(c, thr, #[trigger] txns[i]) implies exists|k: int|
            0 <= k < ms.len() && ms[k] == txns[i] by {
            if i < txns.len() - 1 {
                assert(d[i] == txns[i]);
                let k = choose|k: int| 0 <= k < m.len() && m[k] == d[i];
                assert(ms[k] == m[k]);
            } else {
                assert(ms[m.len() as int] == txns[i]);
            }
        }
        assert forall|k: int| 0 <= k < ms.len() implies criteria_hold(c, thr, #[trigger] ms[k]) && exists|i: int|
            0 <= i < txns.len() && txns[i] == ms[k] by {
            if k < m.len() {
                assert(ms[k] == m[k]);
                let i = choose|i: int| 0 <= i < d.len() && d[i] == m[k];
                assert(txns[i] == d[i]);
            } else {
                assert(ms[k] == txns[txns.len() - 1]);
            }
        }
    }
}

proof fn lemma_meets_criteria(c: TransactionAlertCriteria, thr: Dec, t: TransactionRecord)
    ensures
        meets_criteria(c, thr, t) == criteria_hold(c, thr, t),
{
    reveal(meets_criteria);
}

/// What a valid transaction rule's result holds: one report per matching
/// transaction, and TRIGGERED exactly when there is one.
proof fn lemma_outcome_shape(rule: AlertRule, txns: Seq<TransactionRecord>, r: AlertResult)
    requires
        transaction_outcome(rule, txns, r),
        rule.transaction is Some,
        threshold_of(rule.transaction->0) is Some,
    ensures
        ({
            let ms = matching_transactions(rule.transaction->0, threshold_of(rule.transaction->0)->0, txns);
            &&& r.matched_transactions@.len() == ms.len()
            &&& forall|k: int| 0 <= k < ms.len() ==> reports(#[trigger] r.matched_transactions@[k], ms[k])
            &&& (r.status@ == "TRIGGERED"@ <==> ms.len() > 0)
        }),
{
    reveal_strlit("TRIGGERED");
    reveal_strlit("OK");
    assert("TRIGGERED"@[0] != "OK"@[0]);
}

/// A transaction rule with a valid threshold is triggered by any transaction
/// that meets all its criteria, and that transaction is reported.
pub proof fn law_transaction_rule_matches(rule: AlertRule, txns: Seq<TransactionRecord>, r: AlertResult, i: int)
    requires
        transaction_outcome(rule, txns, r),
        rule.transaction is Some,
        threshold_of(rule.transaction->0) is Some,
        0 <= i < txns.len(),
        meets_criteria(rule.transaction->0, threshold_of(rule.transaction->0)->0, txns[i]),
    ensures
        r.status@ == "TRIGGERED"@,
        exists|k: int| 0 <= k < r.matched_transactions@.len() && reports(#[trigger] r.matched_transactions@[k], txns[i]),
{
    let c = rule.transaction->0;
    let thr = threshold_of(c)->0;
    let ms = matching_transactions(c, thr, txns);
    lemma_outcome_shape(rule, txns, r);
    lemma_matching_members(c, thr, txns);
    lemma_meets_criteria(c, thr, txns[i]);
    let k = choose|k: int| 0 <= k < ms.len() && ms[k] == txns[i];
    assert(reports(r.matched_transactions@[k], ms[k]));
}

/// Every transaction that a transaction rule reports is one of the inputs
/// that meets all its criteria; in particular a triggered rule has one.
pub proof fn law_transaction_rule_reports_matches(rule: AlertRule, txns: Seq<TransactionRecord>, r: AlertResult, k: int)
    requires
        transaction_outcome(rule, txns, r),
        rule.transaction is Some,
        threshold_of(rule.transaction->0) is Some,
        0 <= k < r.matched_transactions@.len(),
    ensures
        exists|i: int|
            0 <= i < txns.len() && meets_criteria(rule.transaction->0, threshold_of(rule.transaction->0)->0, #[trigger] txns[i])
                && reports(r.matched_transactions@[k], txns[i]),
{
    let c = rule.transaction->0;
    let thr = threshold_of(c)->0;
    let ms = matching_transactions(c, thr, txns);
    lemma_outcome_shape(rule, txns, r);
    lemma_matching_members(c, thr, txns);
    assert(reports(r.matched_transactions@[k], ms[k]));
    let i = choose|i: int| 0 <= i < txns.len() && txns[i] == ms[k];
    lemma_meets_criteria(c, thr, txns[i]);
}

/// A transaction rule with a valid threshold is TRIGGERED only when some
/// transaction meets all its criteria.
pub proof fn law_transaction_rule_triggered_by_match(rule: AlertRule, txns: Seq<TransactionRecord>, r: AlertResult)
    requires
        transaction_outcome(rule, txns, r),
        rule.transaction is Some,
        threshold_of(rule.transaction->0) is Some,
        r.status@ == "TRIGGERED"@,
    ensures
        exists|i: int|
            0 <= i < txns.len() && meets_criteria(rule.transaction->0, threshold_of(rule.transaction->0)->0, #[trigger] txns[i]),
{
    let c = rule.transaction->0;
    let thr = threshold_of(c)->0;
    let ms = matching_transactions(c, thr, txns);
    lemma_outcome_shape(rule, txns, r);
    lemma_matching_members(c, thr, txns);
    let i = choose|i: int| 0 <= i < txns.len() && txns[i] == ms[0];
    lemma_meets_criteria(c, thr, txns[i]);
}

/// A category's net spending over two runs of transactions is the sum of
/// their net spendings.
pub proof fn law_net_value_additive(cat: Seq<char>, a: Seq<TransactionRecord>, b: Seq<TransactionRecord>)
    ensures
        net_value(cat, a + b) == net_value(cat, a) + net_value(cat, b),
    decreases b.len(),
{
    if b.len() == 0 {
        assert(a + b =~= a);
    } else {
        law_net_value_additive(cat, a, b.drop_last());
        assert((a + b).drop_last() =~= a + b.drop_last());
        assert((a + b).last() == b.last());
    }
}

/// A single transaction adds its amount to its category's net spending when
/// it is a debit, takes it away when it is a credit, and leaves every other
/// category, and a transaction whose amount does not parse, at zero.
pub proof fn law_net_value_single(cat: Seq<char>, t: TransactionRecord)
    ensures
        net_value(cat, seq![t]) == (if t.category@ == cat && decimal_from_str_exact(t.amount@) is Some {
            if t.credit_debit_indicator@ == "DBIT"@ {
                decimal_from_str_exact(t.amount@)->0.v()
            } else if t.credit_debit_indicator@ == "CRDT"@ {
                -decimal_from_str_exact(t.amount@)->0.v()
            } else {
                0
            }
        } else {
            0
        }),
{
    assert(seq![t].drop_last() =~= Seq::<TransactionRecord>::empty());
    assert(seq![t].last() == t);
    assert(net_value(cat, seq![t].drop_last()) == 0);
}

} // verus!
