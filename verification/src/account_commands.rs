use vstd::prelude::*;

use crate::commands::{format_amount, format_amount_spec};
use crate::dec::{
    add_fits, add_fits_exec, dec_add, dec_display_2dp, dec_parse_exact, dec_round_dp, dec_sub, dec_zero,
    decimal_add, decimal_from_str_exact, decimal_sub, sub_fits, sub_fits_exec, zero_spec, Dec,
};
use crate::forecast_view::{cents, cli_description};
use crate::commands::StoredAccount;
use crate::models::{best_date_spec, AccountRecord, BalanceRecord, TransactionRecord};
use crate::output::{byte_count, bytes_of, iban_suffix, iban_suffix_defined, iban_suffix_spec};
use crate::text::{
    chars_of, concat, copy_str, first_index, join, join_spec, lemma_first_index, push_str, str_eq, views,
};

verus! {

// ---------------------------------------------------------------------------
// The transaction list of the command line
// ---------------------------------------------------------------------------

/// The direction column: `CR`, `DB`, or the indicator as it is.
pub open spec fn dir_text(cdi: Seq<char>) -> Seq<char> {
    if cdi == "CRDT"@ {
        "CR"@
    } else if cdi == "DBIT"@ {
        "DB"@
    } else {
        cdi
    }
}

pub open spec fn transaction_row(t: TransactionRecord) -> Seq<Seq<char>> {
    seq![best_date_spec(t), format_amount_spec(t.amount@), dir_text(t.credit_debit_indicator@), cli_description(t)]
}

/// One row per transaction: its date, amount, direction and description.
pub fn transaction_rows(txns: &[TransactionRecord]) -> (rows: Vec<Vec<String>>)
    ensures
        rows@.len() == txns@.len(),
        forall|i: int| 0 <= i < txns@.len() ==> views((#[trigger] rows@[i])@) == transaction_row(txns@[i]),
{
    let mut rows: Vec<Vec<String>> = Vec::new();
    let mut i: usize = 0;
    while i < txns.len()
        invariant
            i <= txns@.len(),
            rows@.len() == i,
            forall|j: int| 0 <= j < i ==> views((#[trigger] rows@[j])@) == transaction_row(txns@[j]),
        decreases txns.len() - i,
    {
        let t = &txns[i];
        let desc = if !t.creditor_name.as_str().is_empty() {
            copy_str(t.creditor_name.as_str())
        } else if !t.debtor_name.as_str().is_empty() {
            copy_str(t.debtor_name.as_str())
        } else if t.remittance_info.len() > 0 {
            copy_str(t.remittance_info[0].as_str())
        } else {
            String::new()
        };
        let dir = if str_eq(t.credit_debit_indicator.as_str(), "CRDT") {
            copy_str("CR")
        } else if str_eq(t.credit_debit_indicator.as_str(), "DBIT") {
            copy_str("DB")
        } else {
            copy_str(t.credit_debit_indicator.as_str())
        };
        let mut row: Vec<String> = Vec::new();
        row.push(copy_str(t.best_date()));
        row.push(format_amount(t.amount.as_str()));
        row.push(dir);
        row.push(desc);
        assert(views(row@) =~= transaction_row(txns@[i as int]));
        rows.push(row);
        i = i + 1;
    }
    rows
}

/// The exact amounts of the first `n` transactions in direction `dir`,
/// added in order from zero (amounts that do not parse exactly are left
/// out).
pub open spec fn direction_sum(txns: Seq<TransactionRecord>, dir: Seq<char>, n: int) -> Dec
    decreases n,
{
    if n <= 0 {
        zero_spec()
    } else {
        let acc = direction_sum(txns, dir, n - 1);
        let t = txns[n - 1];
        if t.credit_debit_indicator@ == dir {
            match decimal_from_str_exact(t.amount@) {
                Some(v) => decimal_add(acc, v),
                None => acc,
            }
        } else {
            acc
        }
    }
}

/// Adding the `i`-th transaction to the running sum of direction `dir` is
/// exact.
pub open spec fn listing_step_fits(txns: Seq<TransactionRecord>, dir: Seq<char>, i: int) -> bool {
    txns[i].credit_debit_indicator@ == dir ==> (decimal_from_str_exact(txns[i].amount@) matches Some(v) ==> add_fits(
        direction_sum(txns, dir, i),
        v,
    ))
}

/// Adding the `i`-th transaction to its direction's running sum is exact.
pub open spec fn listing_step_ok(txns: Seq<TransactionRecord>, i: int) -> bool {
    listing_step_fits(txns, "CRDT"@, i) && listing_step_fits(txns, "DBIT"@, i)
}

/// The list's amounts add up without overflow: no running sum of credits or
/// debits overflows, and neither does their difference.
pub open spec fn listing_amounts_ok(txns: Seq<TransactionRecord>) -> bool {
    &&& forall|i: int| 0 <= i < txns.len() ==> #[trigger] listing_step_ok(txns, i)
    &&& sub_fits(direction_sum(txns, "CRDT"@, txns.len() as int), direction_sum(txns, "DBIT"@, txns.len() as int))
}

/// The footer of the list: credits, debits and their difference, to cents.
pub open spec fn totals_footer_spec(txns: Seq<TransactionRecord>) -> Seq<char> {
    let c = direction_sum(txns, "CRDT"@, txns.len() as int);
    let d = direction_sum(txns, "DBIT"@, txns.len() as int);
    "Credits: "@ + cents(c) + " | Debits: "@ + cents(d) + " | Net: "@ + cents(decimal_sub(c, d))
}

fn sum_direction(txns: &[TransactionRecord], dir: &str) -> (r: Dec)
    requires
        listing_amounts_ok(txns@),
        dir@ == "CRDT"@ || dir@ == "DBIT"@,
    ensures
        r == direction_sum(txns@, dir@, txns@.len() as int),
        r.wf(),
{
    let mut acc = dec_zero();
    let mut i: usize = 0;
    while i < txns.len()
        invariant
            i <= txns@.len(),
            listing_amounts_ok(txns@),
            dir@ == "CRDT"@ || dir@ == "DBIT"@,
            acc == direction_sum(txns@, dir@, i as int),
            acc.wf(),
        decreases txns.len() - i,
    {
        let t = &txns[i];
        assert(txns@[i as int] == *t);
        assert(listing_step_ok(txns@, i as int));
        if str_eq(t.credit_debit_indicator.as_str(), dir) {
            match dec_parse_exact(t.amount.as_str()) {
                Some(v) => {
                    acc = dec_add(acc, v);
                },
                None => {},
            }
        }
        i = i + 1;
    }
    acc
}

/// The footer of the transaction list.
pub fn totals_footer(txns: &[TransactionRecord]) -> (r: String)
    requires
        listing_amounts_ok(txns@),
    ensures
        r@ == totals_footer_spec(txns@),
{
    let c = sum_direction(txns, "CRDT");
    let d = sum_direction(txns, "DBIT");
    let net = dec_sub(c, d);
    let mut s = concat("Credits: ", dec_display_2dp(dec_round_dp(c, 2)).as_str());
    push_str(&mut s, " | Debits: ");
    push_str(&mut s, dec_display_2dp(dec_round_dp(d, 2)).as_str());
    push_str(&mut s, " | Net: ");
    push_str(&mut s, dec_display_2dp(dec_round_dp(net, 2)).as_str());
    s
}

/// Whether the list's amounts can be added up (`listing_amounts_ok`).
pub fn listing_accepts(txns: &[TransactionRecord]) -> (r: bool)
    ensures
        r == listing_amounts_ok(txns@),
{
    let mut c = dec_zero();
    let mut d = dec_zero();
    let mut i: usize = 0;
    proof {
        reveal_strlit("CRDT");
        reveal_strlit("DBIT");
        assert("CRDT"@[0] != "DBIT"@[0]);
    }
    while i < txns.len()
        invariant
            i <= txns@.len(),
            c == direction_sum(txns@, "CRDT"@, i as int),
            d == direction_sum(txns@, "DBIT"@, i as int),
            c.wf(),
            d.wf(),
            "CRDT"@ != "DBIT"@,
            forall|j: int| 0 <= j < i ==> #[trigger] listing_step_ok(txns@, j),
        decreases txns.len() - i,
    {
        let t = &txns[i];
        assert(txns@[i as int] == *t);
        match dec_parse_exact(t.amount.as_str()) {
            Some(v) => {
                if str_eq(t.credit_debit_indicator.as_str(), "CRDT") {
                    if !add_fits_exec(c, v) {
                        assert(!listing_step_fits(txns@, "CRDT"@, i as int));
                        assert(!listing_step_ok(txns@, i as int));
                        return false;
                    }
                    c = dec_add(c, v);
                } else if str_eq(t.credit_debit_indicator.as_str(), "DBIT") {
                    if !add_fits_exec(d, v) {
                        assert(!listing_step_fits(txns@, "DBIT"@, i as int));
                        assert(!listing_step_ok(txns@, i as int));
                        return false;
                    }
                    d = dec_add(d, v);
                }
            },
            None => {},
        }
        assert(listing_step_fits(txns@, "CRDT"@, i as int));
        assert(listing_step_fits(txns@, "DBIT"@, i as int));
        assert(listing_step_ok(txns@, i as int));
        i = i + 1;
    }
    sub_fits_exec(c, d)
}

// ---------------------------------------------------------------------------
// The account list
// ---------------------------------------------------------------------------

/// An account with what the list shows of it: its alias, if any, and the
/// amount of its main balance, if any.
#[derive(Debug, Clone)]
pub struct AccountLine {
    pub account: AccountRecord,
    pub alias: Option<String>,
    pub booked: Option<String>,
}

/// The row of an account: its name (the alias and the end of the IBAN, or
/// the end alone), IBAN, currency and balance (`-` without one).
pub open spec fn account_row(l: AccountLine) -> Seq<Seq<char>> {
    let suffix = iban_suffix_spec(l.account.iban@, 6);
    seq![
        match l.alias {
            Some(a) => a@ + " ("@ + suffix + ")"@,
            None => suffix,
        },
        l.account.iban@,
        l.account.currency@,
        match l.booked {
            Some(b) => format_amount_spec(b@),
            None => "-"@,
        },
    ]
}

/// Adding the main balance of account `i` to those before it is exact.
pub open spec fn booked_step_fits(ls: Seq<AccountLine>, i: int) -> bool {
    ls[i].booked matches Some(b) ==> (decimal_from_str_exact(b@) matches Some(v) ==> add_fits(booked_sum(ls, i), v))
}

/// The account list can be shown (each IBAN's end can be cut) and its main
/// balances added up without overflow.
pub open spec fn lines_defined(ls: Seq<AccountLine>) -> bool {
    forall|i: int| 0 <= i < ls.len() ==> iban_suffix_defined((#[trigger] ls[i]).account.iban@, 6) && booked_step_fits(ls, i)
}

pub fn account_rows(ls: &[AccountLine]) -> (rows: Vec<Vec<String>>)
    requires
        forall|i: int| 0 <= i < ls@.len() ==> iban_suffix_defined((#[trigger] ls@[i]).account.iban@, 6),
    ensures
        rows@.len() == ls@.len(),
        forall|i: int| 0 <= i < ls@.len() ==> views((#[trigger] rows@[i])@) == account_row(ls@[i]),
{
    let mut rows: Vec<Vec<String>> = Vec::new();
    let mut i: usize = 0;
    while i < ls.len()
        invariant
            i <= ls@.len(),
            forall|j: int| 0 <= j < ls@.len() ==> iban_suffix_defined((#[trigger] ls@[j]).account.iban@, 6),
            rows@.len() == i,
            forall|j: int| 0 <= j < i ==> views((#[trigger] rows@[j])@) == account_row(ls@[j]),
        decreases ls.len() - i,
    {
        let l = &ls[i];
        let suffix = iban_suffix(l.account.iban.as_str(), 6);
        let name = match &l.alias {
            Some(a) => {
                let mut s = concat(a.as_str(), " (");
                push_str(&mut s, suffix.as_str());
                push_str(&mut s, ")");
                s
            },
            None => suffix,
        };
        let bal = match &l.booked {
            Some(b) => format_amount(b.as_str()),
            None => copy_str("-"),
        };
        let mut row: Vec<String> = Vec::new();
        row.push(name);
        row.push(copy_str(l.account.iban.as_str()));
        row.push(copy_str(l.account.currency.as_str()));
        row.push(bal);
        assert(views(row@) =~= account_row(ls@[i as int]));
        rows.push(row);
        i = i + 1;
    }
    rows
}

/// Whether the account list can be shown and totalled (`lines_defined`).
pub fn lines_accept(ls: &[AccountLine]) -> (r: bool)
    ensures
        r == lines_defined(ls@),
{
    let mut acc = dec_zero();
    let mut i: usize = 0;
    while i < ls.len()
        invariant
            i <= ls@.len(),
            acc == booked_sum(ls@, i as int),
            acc.wf(),
            forall|j: int| 0 <= j < i ==> iban_suffix_defined((#[trigger] ls@[j]).account.iban@, 6) && booked_step_fits(ls@, j),
        decreases ls.len() - i,
    {
        let l = &ls[i];
        assert(ls@[i as int] == *l);
        if !crate::output::iban_suffix_accepts(l.account.iban.as_str(), 6) {
            return false;
        }
        match &l.booked {
            Some(b) => match dec_parse_exact(b.as_str()) {
                Some(v) => {
                    if !add_fits_exec(acc, v) {
                        assert(!booked_step_fits(ls@, i as int));
                        return false;
                    }
                    acc = dec_add(acc, v);
                },
                None => {},
            },
            None => {},
        }
        i = i + 1;
    }
    true
}

/// The main balances of the first `n` accounts that parse exactly, added in
/// order from zero.
pub open spec fn booked_sum(ls: Seq<AccountLine>, n: int) -> Dec
    decreases n,
{
    if n <= 0 {
        zero_spec()
    } else {
        let acc = booked_sum(ls, n - 1);
        match ls[n - 1].booked {
            Some(b) => match decimal_from_str_exact(b@) {
                Some(v) => decimal_add(acc, v),
                None => acc,
            },
            None => acc,
        }
    }
}

/// The main balances of the accounts, added up (`booked_sum`).
pub fn total_booked(ls: &[AccountLine]) -> (r: Dec)
    requires
        lines_defined(ls@),
    ensures
        r == booked_sum(ls@, ls@.len() as int),
        r.wf(),
{
    let mut acc = dec_zero();
    let mut i: usize = 0;
    while i < ls.len()
        invariant
            i <= ls@.len(),
            lines_defined(ls@),
            acc == booked_sum(ls@, i as int),
            acc.wf(),
        decreases ls.len() - i,
    {
        assert(booked_step_fits(ls@, i as int));
        match &ls[i].booked {
            Some(b) => match dec_parse_exact(b.as_str()) {
                Some(v) => {
                    acc = dec_add(acc, v);
                },
                None => {},
            },
            None => {},
        }
        i = i + 1;
    }
    acc
}

/// `Total booked: <sum>` under the account list.
pub fn total_booked_footer(ls: &[AccountLine]) -> (r: String)
    requires
        lines_defined(ls@),
    ensures
        r@ == "Total booked: "@ + cents(booked_sum(ls@, ls@.len() as int)),
{
    let acc = total_booked(ls);
    concat("Total booked: ", dec_display_2dp(dec_round_dp(acc, 2)).as_str())
}

/// The accounts that have an alias, as `ALIAS / UID / IBAN` rows.
pub open spec fn alias_positions(accts: Seq<AccountRecord>, n: int) -> Seq<int>
    decreases n,
{
    if n <= 0 {
        Seq::<int>::empty()
    } else if accts[n - 1].alias@.len() > 0 {
        alias_positions(accts, n - 1).push(n - 1)
    } else {
        alias_positions(accts, n - 1)
    }
}

pub fn alias_rows(accts: &[AccountRecord]) -> (rows: Vec<Vec<String>>)
    ensures
        rows@.len() == alias_positions(accts@, accts@.len() as int).len(),
        forall|k: int|
            0 <= k < rows@.len() ==> {
                let a = accts@[alias_positions(accts@, accts@.len() as int)[k]];
                views((#[trigger] rows@[k])@) == seq![a.alias@, a.uid@, a.iban@]
            },
{
    let mut rows: Vec<Vec<String>> = Vec::new();
    let mut i: usize = 0;
    while i < accts.len()
        invariant
            i <= accts@.len(),
            rows@.len() == alias_positions(accts@, i as int).len(),
            forall|k: int|
                0 <= k < rows@.len() ==> {
                    let a = accts@[alias_positions(accts@, i as int)[k]];
                    views((#[trigger] rows@[k])@) == seq![a.alias@, a.uid@, a.iban@]
                },
        decreases accts.len() - i,
    {
        let a = &accts[i];
        if !a.alias.as_str().is_empty() {
            let mut row: Vec<String> = Vec::new();
            row.push(copy_str(a.alias.as_str()));
            row.push(copy_str(a.uid.as_str()));
            row.push(copy_str(a.iban.as_str()));
            assert(views(row@) =~= seq![a.alias@, a.uid@, a.iban@]);
            let ghost before = rows@;
            rows.push(row);
            proof {
                assert forall|k: int| 0 <= k < rows@.len() implies {
                    let b = accts@[alias_positions(accts@, i + 1)[k]];
                    views((#[trigger] rows@[k])@) == seq![b.alias@, b.uid@, b.iban@]
                } by {
                    if k < before.len() {
                        assert(rows@[k] == before[k]);
                    }
                }
            }
        }
        i = i + 1;
    }
    rows
}

/// The rows of the balance list: type, amount, currency, reference date.
pub fn balance_rows(bals: &[BalanceRecord]) -> (rows: Vec<Vec<String>>)
    ensures
        rows@.len() == bals@.len(),
        forall|i: int|
            0 <= i < bals@.len() ==> views((#[trigger] rows@[i])@) == seq![
                bals@[i].balance_type@,
                format_amount_spec(bals@[i].amount@),
                bals@[i].currency@,
                bals@[i].reference_date@,
            ],
{
    let mut rows: Vec<Vec<String>> = Vec::new();
    let mut i: usize = 0;
    while i < bals.len()
        invariant
            i <= bals@.len(),
            rows@.len() == i,
            forall|j: int|
                0 <= j < i ==> views((#[trigger] rows@[j])@) == seq![
                    bals@[j].balance_type@,
                    format_amount_spec(bals@[j].amount@),
                    bals@[j].currency@,
                    bals@[j].reference_date@,
                ],
        decreases bals.len() - i,
    {
        let b = &bals[i];
        let mut row: Vec<String> = Vec::new();
        row.push(copy_str(b.balance_type.as_str()));
        row.push(format_amount(b.amount.as_str()));
        row.push(copy_str(b.currency.as_str()));
        row.push(copy_str(b.reference_date.as_str()));
        assert(views(row@) =~= seq![
            bals@[i as int].balance_type@,
            format_amount_spec(bals@[i as int].amount@),
            bals@[i as int].currency@,
            bals@[i as int].reference_date@,
        ]);
        rows.push(row);
        i = i + 1;
    }
    rows
}

// ---------------------------------------------------------------------------
// Choosing an account of a session
// ---------------------------------------------------------------------------

/// `s` ends with `t`.
pub open spec fn ends_with(s: Seq<char>, t: Seq<char>) -> bool {
    t.len() <= s.len() && s.skip(s.len() - t.len()) == t
}

/// An account the flag names: by uid, by IBAN, or by the end of its IBAN
/// (six bytes at least).
pub open spec fn names_account(a: StoredAccount, resolved: Seq<char>) -> bool {
    a.uid@ == resolved || a.iban@ == resolved || (bytes_of(resolved).len() >= 6 && ends_with(a.iban@, resolved))
}

pub open spec fn names_pred(resolved: Seq<char>) -> spec_fn(StoredAccount) -> bool {
    |a: StoredAccount| names_account(a, resolved)
}

pub open spec fn account_suffixes(accts: Seq<StoredAccount>) -> Seq<Seq<char>> {
    accts.map_values(|a: StoredAccount| iban_suffix_spec(a.iban@, 6))
}

/// The account of a session that the command is about: the only one
/// without a flag, else the first the (alias-resolved) flag names.
pub open spec fn session_account_spec(accts: Seq<StoredAccount>, flag: Option<Seq<char>>, resolved: Seq<char>) -> Result<int, Seq<char>> {
    match flag {
        None => if accts.len() == 1 {
            Ok(0)
        } else {
            Err("multiple accounts; specify --account (available: "@ + join_spec(account_suffixes(accts), ", "@) + ")"@)
        },
        Some(f) => match first_index(accts, names_pred(resolved)) {
            Some(i) => Ok(i),
            None => Err("account '"@ + f + "' not found in session for this bank"@),
        },
    }
}

pub open spec fn suffixes_defined(accts: Seq<StoredAccount>) -> bool {
    forall|i: int| 0 <= i < accts.len() ==> iban_suffix_defined(#[trigger] accts[i].iban@, 6)
}

fn ends_with_chars(s: &str, t: &str) -> (r: bool)
    ensures
        r == ends_with(s@, t@),
{
    let sv = chars_of(s);
    let tv = chars_of(t);
    if tv.len() > sv.len() {
        return false;
    }
    let slen = sv.len();
    let off = slen - tv.len();
    let mut i: usize = 0;
    while i < tv.len()
        invariant
            slen == sv@.len(),
            i <= tv@.len(),
            off + tv@.len() == sv@.len(),
            sv@ == s@,
            tv@ == t@,
            forall|k: int| 0 <= k < i ==> sv@[off + k] == tv@[k],
        decreases tv.len() - i,
    {
        if sv[off + i] != tv[i] {
            assert(s@.skip(off as int)[i as int] != t@[i as int]);
            return false;
        }
        i = i + 1;
    }
    assert(s@.skip(off as int) =~= t@);
    true
}

/// The position of the session account the command is about.
pub fn session_account(accts: &[StoredAccount], flag: Option<&str>, resolved: &str) -> (r: Result<usize, String>)
    requires
        flag is None && accts@.len() != 1 ==> suffixes_defined(accts@),
    ensures
        match r {
            Ok(i) => session_account_spec(accts@, opt_text_of(flag), resolved@) == Ok::<int, Seq<char>>(i as int),
            Err(e) => session_account_spec(accts@, opt_text_of(flag), resolved@) == Err::<int, Seq<char>>(e@),
        },
{
    match flag {
        None => {
            if accts.len() == 1 {
                return Ok(0);
            }
            let mut sufs: Vec<String> = Vec::new();
            let mut i: usize = 0;
            while i < accts.len()
                invariant
                    i <= accts@.len(),
                    suffixes_defined(accts@),
                    views(sufs@) == account_suffixes(accts@).take(i as int),
                decreases accts.len() - i,
            {
                let ghost before = sufs@;
                let s = iban_suffix(accts[i].iban.as_str(), 6);
                sufs.push(s);
                assert(views(sufs@) =~= views(before).push(s@));
                assert(account_suffixes(accts@).take(i + 1) =~= account_suffixes(accts@).take(i as int).push(
                    iban_suffix_spec(accts@[i as int].iban@, 6),
                ));
                i = i + 1;
            }
            assert(account_suffixes(accts@).take(accts@.len() as int) =~= account_suffixes(accts@));
            let mut e = concat("multiple accounts; specify --account (available: ", join(&sufs, ", ").as_str());
            push_str(&mut e, ")");
            Err(e)
        },
        Some(f) => {
            let ghost p = names_pred(resolved@);
            let long = byte_count(resolved) >= 6;
            let mut i: usize = 0;
            while i < accts.len()
                invariant
                    i <= accts@.len(),
                    long == (bytes_of(resolved@).len() >= 6),
                    flag == Some(f),
                    p == names_pred(resolved@),
                    forall|k: int| 0 <= k < i ==> !p(#[trigger] accts@[k]),
                decreases accts.len() - i,
            {
                let a = &accts[i];
                if str_eq(a.uid.as_str(), resolved) || str_eq(a.iban.as_str(), resolved) || (long && ends_with_chars(
                    a.iban.as_str(),
                    resolved,
                )) {
                    proof {
                        assert(p(accts@[i as int]));
                        lemma_first_index(accts@, p, i as int);
                    }
                    return Ok(i);
                }
                i = i + 1;
            }
            proof {
                lemma_first_index(accts@, p, i as int);
            }
            let mut e = concat("account '", f);
            push_str(&mut e, "' not found in session for this bank");
            Err(e)
        },
    }
}

pub open spec fn opt_text_of(o: Option<&str>) -> Option<Seq<char>> {
    match o {
        Some(s) => Some(s@),
        None => None,
    }
}

} // verus!
