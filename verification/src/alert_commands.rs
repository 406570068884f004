use vstd::prelude::*;

use crate::alerter::{
    auto_name_spec, AlertResult, AlertRule, CategoryAlertCriteria, MatchedTransaction, TransactionAlertCriteria,
};
use crate::commands::{format_amount, format_amount_spec};
use crate::models::AccountRecord;
use crate::output::{account_display_name, display_name_defined, display_name_spec, iban_suffix, iban_suffix_defined, iban_suffix_spec};
use crate::tagger::CategoryRule;
use crate::text::{concat, copy_str, nat_digits, push_str, str_eq, u64_to_string, views};

verus! {

// ---------------------------------------------------------------------------
// Checking the rules
// ---------------------------------------------------------------------------

/// The table row of a result: the rule's name and type, the status and the
/// details.
pub open spec fn result_row(r: AlertResult) -> Seq<Seq<char>> {
    seq![r.rule.name@, r.rule.rule_type@, r.status@, r.details@]
}

fn row4(a: &str, b: &str, c: &str, d: &str) -> (r: Vec<String>)
    ensures
        views(r@) == seq![a@, b@, c@, d@],
{
    let mut v: Vec<String> = Vec::new();
    v.push(copy_str(a));
    v.push(copy_str(b));
    v.push(copy_str(c));
    v.push(copy_str(d));
    assert(views(v@) =~= seq![a@, b@, c@, d@]);
    v
}

/// One row per result, in order.
pub fn check_rows(results: &[AlertResult]) -> (rows: Vec<Vec<String>>)
    ensures
        rows@.len() == results@.len(),
        forall|i: int| 0 <= i < results@.len() ==> views((#[trigger] rows@[i])@) == result_row(results@[i]),
{
    let mut rows: Vec<Vec<String>> = Vec::new();
    let mut i: usize = 0;
    while i < results.len()
        invariant
            i <= results@.len(),
            rows@.len() == i,
            forall|j: int| 0 <= j < i ==> views((#[trigger] rows@[j])@) == result_row(results@[j]),
        decreases results.len() - i,
    {
        let r = &results[i];
        rows.push(row4(r.rule.name.as_str(), r.rule.rule_type.as_str(), r.status.as_str(), r.details.as_str()));
        i = i + 1;
    }
    rows
}

/// The line under the results: an expired session, else how many rules
/// triggered.
pub open spec fn check_footer_spec(exit_code: i32, triggered: nat, total: nat) -> Seq<char> {
    if exit_code == 2 {
        "Session expired \u{2014} run bank connect to refresh."@
    } else {
        nat_digits(triggered) + "/"@ + nat_digits(total) + " rules triggered"@
    }
}

pub fn check_footer(exit_code: i32, triggered: usize, total: usize) -> (r: String)
    ensures
        r@ == check_footer_spec(exit_code, triggered as nat, total as nat),
{
    if exit_code == 2 {
        copy_str("Session expired \u{2014} run bank connect to refresh.")
    } else {
        let mut s = u64_to_string(triggered as u64);
        push_str(&mut s, "/");
        push_str(&mut s, u64_to_string(total as u64).as_str());
        push_str(&mut s, " rules triggered");
        s
    }
}

/// A result whose matching transactions are listed: it triggered and
/// matched some.
pub open spec fn shows_matches_spec(r: AlertResult) -> bool {
    r.status@ == "TRIGGERED"@ && r.matched_transactions@.len() > 0
}

pub fn shows_matches(r: &AlertResult) -> (b: bool)
    ensures
        b == shows_matches_spec(*r),
{
    str_eq(r.status.as_str(), "TRIGGERED") && r.matched_transactions.len() > 0
}

/// The heading of a result's matching transactions.
pub fn section_title(r: &AlertResult) -> (t: String)
    ensures
        t@ == "-- "@ + r.rule.name@ + " --"@,
{
    let mut t = concat("-- ", r.rule.name.as_str());
    push_str(&mut t, " --");
    t
}

/// An account's uid with the name it is shown under.
#[derive(Debug, Clone)]
pub struct AccountLabel {
    pub uid: String,
    pub display: String,
}

/// Every account's name can be formed.
pub open spec fn labels_defined(accounts: Seq<AccountRecord>) -> bool {
    forall|i: int| 0 <= i < accounts.len() ==> display_name_defined(#[trigger] accounts[i].alias@, accounts[i].iban@)
}

/// The names the accounts are shown under, in order.
pub fn account_labels(accounts: &[AccountRecord]) -> (r: Vec<AccountLabel>)
    requires
        labels_defined(accounts@),
    ensures
        r@.len() == accounts@.len(),
        forall|i: int|
            0 <= i < accounts@.len() ==> (#[trigger] r@[i]).uid@ == accounts@[i].uid@ && r@[i].display@
                == display_name_spec(accounts@[i].alias@, accounts@[i].iban@),
{
    let mut out: Vec<AccountLabel> = Vec::new();
    let mut i: usize = 0;
    while i < accounts.len()
        invariant
            i <= accounts@.len(),
            labels_defined(accounts@),
            out@.len() == i,
            forall|j: int|
                0 <= j < i ==> (#[trigger] out@[j]).uid@ == accounts@[j].uid@ && out@[j].display@
                    == display_name_spec(accounts@[j].alias@, accounts@[j].iban@),
        decreases accounts.len() - i,
    {
        let a = &accounts[i];
        out.push(AccountLabel {
            uid: copy_str(a.uid.as_str()),
            display: account_display_name(a.alias.as_str(), a.iban.as_str()),
        });
        i = i + 1;
    }
    out
}

/// The name of account `uid`: that of its last label (a later account with
/// the same uid replaces an earlier one).
pub open spec fn label_for(labels: Seq<AccountLabel>, uid: Seq<char>) -> Option<Seq<char>>
    decreases labels.len(),
{
    if labels.len() == 0 {
        None
    } else if labels.last().uid@ == uid {
        Some(labels.last().display@)
    } else {
        label_for(labels.drop_last(), uid)
    }
}

fn find_label(labels: &[AccountLabel], uid: &str) -> (r: Option<String>)
    ensures
        match r {
            Some(d) => label_for(labels@, uid@) == Some(d@),
            None => label_for(labels@, uid@) is None,
        },
{
    let mut i: usize = labels.len();
    assert(labels@.take(labels@.len() as int) =~= labels@);
    while i > 0
        invariant
            i <= labels@.len(),
            label_for(labels@, uid@) == label_for(labels@.take(i as int), uid@),
        decreases i,
    {
        assert(labels@.take(i as int).last() == labels@[i - 1]);
        if str_eq(labels[i - 1].uid.as_str(), uid) {
            return Some(copy_str(labels[i - 1].display.as_str()));
        }
        assert(labels@.take(i as int).drop_last() =~= labels@.take(i - 1));
        i = i - 1;
    }
    None
}

/// A matching transaction's row: the account's name (else the end of its
/// uid), date, amount, currency and description.
pub open spec fn matched_row(m: MatchedTransaction, labels: Seq<AccountLabel>) -> Seq<Seq<char>> {
    seq![
        match label_for(labels, m.account_uid@) {
            Some(d) => d,
            None => iban_suffix_spec(m.account_uid@, 6),
        },
        m.date@,
        format_amount_spec(m.amount@),
        m.currency@,
        m.description@,
    ]
}

/// The uids of unnamed accounts can be cut for display.
pub open spec fn matched_defined(matched: Seq<MatchedTransaction>, labels: Seq<AccountLabel>) -> bool {
    forall|i: int|
        0 <= i < matched.len() && label_for(labels, (#[trigger] matched[i]).account_uid@) is None ==> iban_suffix_defined(
            matched[i].account_uid@,
            6,
        )
}

/// One row per matching transaction, in order.
pub fn matched_rows(matched: &[MatchedTransaction], labels: &[AccountLabel]) -> (rows: Vec<Vec<String>>)
    requires
        matched_defined(matched@, labels@),
    ensures
        rows@.len() == matched@.len(),
        forall|i: int| 0 <= i < matched@.len() ==> views((#[trigger] rows@[i])@) == matched_row(matched@[i], labels@),
{
    let mut rows: Vec<Vec<String>> = Vec::new();
    let mut i: usize = 0;
    while i < matched.len()
        invariant
            i <= matched@.len(),
            matched_defined(matched@, labels@),
            rows@.len() == i,
            forall|j: int| 0 <= j < i ==> views((#[trigger] rows@[j])@) == matched_row(matched@[j], labels@),
        decreases matched.len() - i,
    {
        let m = &matched[i];
        let name = match find_label(labels, m.account_uid.as_str()) {
            Some(d) => d,
            None => iban_suffix(m.account_uid.as_str(), 6),
        };
        let mut row: Vec<String> = Vec::new();
        row.push(name);
        row.push(copy_str(m.date.as_str()));
        row.push(format_amount(m.amount.as_str()));
        row.push(copy_str(m.currency.as_str()));
        row.push(copy_str(m.description.as_str()));
        assert(views(row@) =~= matched_row(matched@[i as int], labels@));
        rows.push(row);
        i = i + 1;
    }
    rows
}

// ---------------------------------------------------------------------------
// Adding and removing rules
// ---------------------------------------------------------------------------

pub open spec fn opt_text(o: Option<String>) -> Seq<char> {
    match o {
        Some(s) => s@,
        None => Seq::<char>::empty(),
    }
}

/// Some tag rule has this category.
pub open spec fn known_category(tag_rules: Seq<CategoryRule>, cat: Seq<char>) -> bool {
    exists|i: int| 0 <= i < tag_rules.len() && (#[trigger] tag_rules[i]).category@ == cat
}

/// What the options of `alert add` ask for.
#[derive(Debug, Clone)]
pub struct NewAlert {
    pub rule_type: String,
    pub name: Option<String>,
    pub amount_gte: Option<String>,
    pub merchant_contains: Option<String>,
    pub direction: Option<String>,
    pub category: Option<String>,
    pub threshold: Option<String>,
    pub period: Option<String>,
    pub bank: Option<String>,
}

/// The rule before it is named.
pub open spec fn unnamed_rule_ok(r: AlertRule, a: NewAlert) -> bool {
    &&& r.rule_type@ == a.rule_type@
    &&& a.rule_type@ == "transaction"@ ==> (r.transaction matches Some(t) && t.amount_gte@ == opt_text(a.amount_gte)
        && t.merchant_contains@ == opt_text(a.merchant_contains) && t.direction@ == opt_text(a.direction))
        && r.category is None
    &&& a.rule_type@ == "category"@ ==> (r.category matches Some(c) && c.category@ == opt_text(a.category)
        && c.threshold@ == opt_text(a.threshold) && c.period@ == opt_text(a.period) && c.bank@ == opt_text(a.bank))
        && r.transaction is None
}

/// The name a new rule gets: the one given, else the generated one.
pub open spec fn chosen_name(r: AlertRule, a: NewAlert) -> Seq<char> {
    match a.name {
        Some(n) => if n@.len() > 0 {
            n@
        } else {
            auto_name_spec(r)
        },
        None => auto_name_spec(r),
    }
}

pub open spec fn unknown_category_error(cat: Seq<char>) -> Seq<char> {
    "category '"@ + cat + "' not found in tag_rules; add it first or check spelling"@
}

pub open spec fn unknown_type_error(t: Seq<char>) -> Seq<char> {
    "unknown rule type: "@ + t + "; expected 'transaction' or 'category'"@
}

/// The category of a category rule is not among the tag rules.
pub open spec fn category_unknown(a: NewAlert, tag_rules: Seq<CategoryRule>) -> bool {
    a.rule_type@ == "category"@ && (a.category matches Some(c) && !known_category(tag_rules, c@))
}

/// The rule `alert add` makes, or why it refuses: a category rule's
/// category must be a tag category, the type must be `transaction` or
/// `category`, and the rule must end up with a name.
pub fn new_alert_rule(a: &NewAlert, tag_rules: &[CategoryRule]) -> (r: Result<AlertRule, String>)
    ensures
        category_unknown(*a, tag_rules@) ==> r is Err && r->Err_0@ == unknown_category_error(a.category->Some_0@),
        !category_unknown(*a, tag_rules@) && a.rule_type@ != "transaction"@ && a.rule_type@ != "category"@ ==> r is Err
            && r->Err_0@ == unknown_type_error(a.rule_type@),
        !category_unknown(*a, tag_rules@) && (a.rule_type@ == "transaction"@ || a.rule_type@ == "category"@) ==> (
        match r {
            Ok(rule) => exists|u: AlertRule|
                unnamed_rule_ok(u, *a) && u.name@.len() == 0 && rule.name@ == chosen_name(u, *a) && rule.name@.len()
                    > 0 && rule.rule_type == u.rule_type && rule.transaction == u.transaction && rule.category
                    == u.category,
            Err(e) => e@ == "could not auto-generate alert name; provide --name"@ && exists|u: AlertRule|
                unnamed_rule_ok(u, *a) && u.name@.len() == 0 && chosen_name(u, *a).len() == 0,
        }),
{
    if str_eq(a.rule_type.as_str(), "category") {
        match &a.category {
            Some(cat) => {
                let mut i: usize = 0;
                let mut found = false;
                while i < tag_rules.len()
                    invariant
                        i <= tag_rules@.len(),
                        found == exists|j: int| 0 <= j < i && (#[trigger] tag_rules@[j]).category@ == cat@,
                    decreases tag_rules.len() - i,
                {
                    if str_eq(tag_rules[i].category.as_str(), cat.as_str()) {
                        found = true;
                    }
                    i = i + 1;
                }
                if !found {
                    let mut e = concat("category '", cat.as_str());
                    push_str(&mut e, "' not found in tag_rules; add it first or check spelling");
                    return Err(e);
                }
            },
            None => {},
        }
    }
    let mut rule = if str_eq(a.rule_type.as_str(), "transaction") {
        AlertRule {
            name: String::new(),
            rule_type: copy_str("transaction"),
            transaction: Some(
                TransactionAlertCriteria {
                    amount_gte: text_or_empty(&a.amount_gte),
                    merchant_contains: text_or_empty(&a.merchant_contains),
                    direction: text_or_empty(&a.direction),
                },
            ),
            category: None,
        }
    } else if str_eq(a.rule_type.as_str(), "category") {
        AlertRule {
            name: String::new(),
            rule_type: copy_str("category"),
            transaction: None,
            category: Some(
                CategoryAlertCriteria {
                    category: text_or_empty(&a.category),
                    threshold: text_or_empty(&a.threshold),
                    period: text_or_empty(&a.period),
                    bank: text_or_empty(&a.bank),
                },
            ),
        }
    } else {
        let mut e = concat("unknown rule type: ", a.rule_type.as_str());
        push_str(&mut e, "; expected 'transaction' or 'category'");
        return Err(e);
    };
    let ghost unnamed = rule;
    proof {
        reveal_strlit("transaction");
        reveal_strlit("category");
        assert("transaction"@ != "category"@) by {
            assert("transaction"@[0] != "category"@[0]);
        }
    }
    assert(unnamed_rule_ok(unnamed, *a));
    let name = match &a.name {
        Some(n) => if !n.as_str().is_empty() {
            copy_str(n.as_str())
        } else {
            rule.auto_name()
        },
        None => rule.auto_name(),
    };
    if name.as_str().is_empty() {
        return Err(copy_str("could not auto-generate alert name; provide --name"));
    }
    rule.name = name;
    Ok(rule)
}

fn text_or_empty(o: &Option<String>) -> (r: String)
    ensures
        r@ == opt_text(*o),
{
    match o {
        Some(s) => copy_str(s.as_str()),
        None => String::new(),
    }
}

/// The rules without those named `name`, in order.
pub open spec fn rules_without(rules: Seq<AlertRule>, name: Seq<char>) -> Seq<AlertRule>
    decreases rules.len(),
{
    if rules.len() == 0 {
        Seq::empty()
    } else if rules.last().name@ == name {
        rules_without(rules.drop_last(), name)
    } else {
        rules_without(rules.drop_last(), name).push(rules.last())
    }
}

pub open spec fn has_rule_named(rules: Seq<AlertRule>, name: Seq<char>) -> bool {
    exists|i: int| 0 <= i < rules.len() && (#[trigger] rules[i]).name@ == name
}

proof fn lemma_without_absent(rules: Seq<AlertRule>, name: Seq<char>)
    requires
        !has_rule_named(rules, name),
    ensures
        rules_without(rules, name) == rules,
    decreases rules.len(),
{
    if rules.len() > 0 {
        let t = rules.drop_last();
        assert(!has_rule_named(t, name)) by {
            if has_rule_named(t, name) {
                let i = choose|i: int| 0 <= i < t.len() && (#[trigger] t[i]).name@ == name;
                assert(rules[i] == t[i]);
            }
        }
        assert(rules[rules.len() - 1].name@ != name);
        lemma_without_absent(t, name);
        assert(t.push(rules.last()) =~= rules);
    }
}

/// After removing the rules named `name`, none is left with that name.
pub proof fn law_remove_leaves_none_named(rules: Seq<AlertRule>, name: Seq<char>)
    ensures
        !has_rule_named(rules_without(rules, name), name),
    decreases rules.len(),
{
    if rules.len() > 0 {
        let t = rules.drop_last();
        law_remove_leaves_none_named(t, name);
        let w = rules_without(t, name);
        if rules.last().name@ != name {
            assert forall|i: int| 0 <= i < w.push(rules.last()).len() implies (#[trigger] w.push(rules.last())[i]).name@
                != name by {
                if i < w.len() {
                    assert(w.push(rules.last())[i] == w[i]);
                    assert(!(0 <= i < w.len() && w[i].name@ == name));
                }
            }
        }
    }
}

/// Removing by name undoes adding a rule under a new name.
pub proof fn law_remove_undoes_add(rules: Seq<AlertRule>, added: AlertRule)
    requires
        !has_rule_named(rules, added.name@),
    ensures
        rules_without(rules.push(added), added.name@) == rules,
{
    assert(rules.push(added).drop_last() =~= rules);
    lemma_without_absent(rules, added.name@);
}

/// Removes the rules named `name` (`alert remove`); refuses, changing
/// nothing, when there is none.
pub fn remove_alert_rule(rules: &mut Vec<AlertRule>, name: &str) -> (r: Result<(), String>)
    ensures
        r is Ok <==> has_rule_named(old(rules)@, name@),
        r matches Err(e) ==> e@ == "alert rule '"@ + name@ + "' not found"@,
        final(rules)@ == rules_without(old(rules)@, name@),
{
    let ghost start = rules@;
    let mut kept: Vec<AlertRule> = Vec::new();
    let mut removed = false;
    let mut i: usize = 0;
    while i < rules.len()
        invariant
            i <= rules@.len(),
            rules@ == start,
            kept@ == rules_without(start.take(i as int), name@),
            removed == has_rule_named(start.take(i as int), name@),
        decreases rules.len() - i,
    {
        assert(start.take(i + 1).drop_last() =~= start.take(i as int));
        assert(start.take(i + 1).last() == start[i as int]);
        if str_eq(rules[i].name.as_str(), name) {
            removed = true;
            assert(has_rule_named(start.take(i + 1), name@)) by {
                assert(start.take(i + 1)[i as int].name@ == name@);
            }
        } else {
            kept.push(crate::alerter::copy_rule(&rules[i]));
            assert(has_rule_named(start.take(i + 1), name@) == has_rule_named(start.take(i as int), name@)) by {
                if has_rule_named(start.take(i + 1), name@) {
                    let j = choose|j: int| 0 <= j < i + 1 && (#[trigger] start.take(i + 1)[j]).name@ == name@;
                    assert(start.take(i as int)[j] == start.take(i + 1)[j]);
                }
                if has_rule_named(start.take(i as int), name@) {
                    let j = choose|j: int| 0 <= j < i && (#[trigger] start.take(i as int)[j]).name@ == name@;
                    assert(start.take(i as int)[j] == start.take(i + 1)[j]);
                }
            }
        }
        i = i + 1;
    }
    assert(start.take(start.len() as int) =~= start);
    if !removed {
        proof {
            lemma_without_absent(start, name@);
        }
        let mut e = concat("alert rule '", name);
        push_str(&mut e, "' not found");
        return Err(e);
    }
    *rules = kept;
    Ok(())
}

} // verus!
