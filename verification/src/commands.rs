use vstd::prelude::*;
use vstd::string::StringSliceAdditionalSpecFns;

use crate::alerter::AlertRule;
use crate::client::{Account, Balance, Transaction};
use crate::dec::{
    dec_display_2dp, dec_lt, dec_parse_exact, dec_round_dp, dec_zero, decimal_display_2dp,
    decimal_from_str_exact, decimal_round_dp, Dec,
};
use crate::models::{AccountRecord, BalanceRecord, TransactionRecord};
use crate::output::{iban_suffix, iban_suffix_defined, iban_suffix_spec, Printer};
use crate::text::{
    concat, copy_str, first_index, join, join_spec, lemma_first_index, nat_digits, push_str, str_eq,
    u64_to_string, views,
};

verus! {

// ---------------------------------------------------------------------------
// Sessions
// ---------------------------------------------------------------------------

/// A persisted bank account.
#[derive(Debug, Clone)]
pub struct StoredAccount {
    pub uid: String,
    pub iban: String,
    pub name: String,
    pub currency: String,
}

/// A stored session for one bank; its validity window as nanoseconds since
/// the Unix epoch.
#[derive(Debug, Clone)]
pub struct StoredSession {
    pub session_id: String,
    pub accounts: Vec<StoredAccount>,
    pub created_at: i128,
    pub valid_until: i128,
}

impl StoredSession {
    /// The session is still within its validity period at time `now`.
    pub fn is_valid(&self, now: i128) -> (r: bool)
        ensures
            r == (now < self.valid_until),
    {
        now < self.valid_until
    }
}

/// The bank names of a session store.
pub open spec fn bank_names(store: Seq<(String, StoredSession)>) -> Seq<Seq<char>> {
    store.map_values(|e: (String, StoredSession)| e.0@)
}

/// A session store holds each bank once.
pub open spec fn banks_distinct(store: Seq<(String, StoredSession)>) -> bool {
    forall|i: int, j: int| 0 <= i < j < store.len() ==> (#[trigger] store[i]).0@ != (#[trigger] store[j]).0@
}

/// What resolving a bank gives: the position of its session, or the error.
pub open spec fn bank_named(name: Seq<char>) -> spec_fn((String, StoredSession)) -> bool {
    |e: (String, StoredSession)| e.0@ == name
}

pub open spec fn resolve_bank_spec(store: Seq<(String, StoredSession)>, bank_flag: Option<Seq<char>>, now: i128) -> Result<
    int,
    Seq<char>,
> {
    match bank_flag {
        Some(name) => match first_index(store, bank_named(name)) {
            Some(i) => if now < store[i].1.valid_until {
                Ok(i)
            } else {
                Err("session for '"@ + name + "' has expired; run bank connect again"@)
            },
            None => Err("no session for bank '"@ + name + "'; run bank connect first"@),
        },
        None => if store.len() == 1 {
            if now < store[0].1.valid_until {
                Ok(0)
            } else {
                Err("session for '"@ + store[0].0@ + "' has expired; run bank connect again"@)
            }
        } else {
            Err("multiple banks configured ("@ + join_spec(bank_names(store), ", "@) + "); specify --bank"@)
        },
    }
}

pub open spec fn opt_str(o: Option<&str>) -> Option<Seq<char>> {
    match o {
        Some(s) => Some(s@),
        None => None,
    }
}

pub open spec fn index_result(r: Result<usize, String>) -> Result<int, Seq<char>> {
    match r {
        Ok(i) => Ok(i as int),
        Err(e) => Err(e@),
    }
}

fn bank_list(store: &[(String, StoredSession)]) -> (r: String)
    ensures
        r@ == join_spec(bank_names(store@), ", "@),
{
    let mut names: Vec<String> = Vec::new();
    let mut i: usize = 0;
    while i < store.len()
        invariant
            i <= store@.len(),
            views(names@) == bank_names(store@).take(i as int),
        decreases store.len() - i,
    {
        let ghost before = names@;
        let nm = copy_str(store[i].0.as_str());
        names.push(nm);
        assert(views(names@) =~= views(before).push(nm@));
        assert(bank_names(store@).take(i + 1) =~= bank_names(store@).take(i as int).push(store@[i as int].0@));
        i = i + 1;
    }
    assert(bank_names(store@).take(store@.len() as int) =~= bank_names(store@));
    join(&names, ", ")
}

/// Picks the session of the named bank, or of the only bank; the session
/// must still be valid at time `now`.
pub fn resolve_bank(store: &[(String, StoredSession)], bank_flag: Option<&str>, now: i128) -> (r: Result<usize, String>)
    requires
        banks_distinct(store@),
    ensures
        index_result(r) == resolve_bank_spec(store@, opt_str(bank_flag), now),
{
    match bank_flag {
        Some(name) => {
            let mut i: usize = 0;
            while i < store.len()
                invariant
                    i <= store@.len(),
                    bank_flag == Some(name),
                    forall|k: int| 0 <= k < i ==> !(bank_named(name@))(#[trigger] store@[k]),
                decreases store.len() - i,
            {
                if str_eq(store[i].0.as_str(), name) {
                    proof {
                        lemma_first_index(store@, bank_named(name@), i as int);
                    }
                    if store[i].1.is_valid(now) {
                        return Ok(i);
                    } else {
                        let mut e = concat("session for '", name);
                        push_str(&mut e, "' has expired; run bank connect again");
                        return Err(e);
                    }
                }
                i = i + 1;
            }
            proof {
                lemma_first_index(store@, bank_named(name@), i as int);
            }
            let mut e = concat("no session for bank '", name);
            push_str(&mut e, "'; run bank connect first");
            Err(e)
        },
        None => {
            if store.len() == 1 {
                if store[0].1.is_valid(now) {
                    Ok(0)
                } else {
                    let mut e = concat("session for '", store[0].0.as_str());
                    push_str(&mut e, "' has expired; run bank connect again");
                    Err(e)
                }
            } else {
                let mut e = concat("multiple banks configured (", bank_list(store).as_str());
                push_str(&mut e, "); specify --bank");
                Err(e)
            }
        },
    }
}

/// The sessions a sync runs over: the named bank's, else every valid one.
pub open spec fn valid_positions(store: Seq<(String, StoredSession)>, now: i128, n: int) -> Seq<usize>
    decreases n,
{
    if n <= 0 {
        Seq::<usize>::empty()
    } else {
        let p = valid_positions(store, now, n - 1);
        if now < store[n - 1].1.valid_until {
            p.push((n - 1) as usize)
        } else {
            p
        }
    }
}

/// The sessions a sync runs over: the named bank's session (resolved as
/// `resolve_bank` does), else every session valid at `now`, in store order;
/// an error when there is none.
pub fn sync_bank_names(store: &[(String, StoredSession)], bank: Option<&str>, now: i128) -> (r: Result<Vec<usize>, String>)
    requires
        banks_distinct(store@),
        store@.len() < usize::MAX,
    ensures
        bank is Some ==> match resolve_bank_spec(store@, opt_str(bank), now) {
            Ok(i) => r matches Ok(v) && v@ == seq![i as usize],
            Err(e) => r matches Err(x) && x@ == e,
        },
        bank is None ==> if valid_positions(store@, now, store@.len() as int).len() == 0 {
            r matches Err(x) && x@ == "no valid sessions; run bank connect first"@
        } else {
            r matches Ok(v) && v@ == valid_positions(store@, now, store@.len() as int)
        },
{
    if bank.is_some() {
        return match resolve_bank(store, bank, now) {
            Ok(i) => {
                let mut v: Vec<usize> = Vec::new();
                v.push(i);
                assert(v@ =~= seq![i]);
                Ok(v)
            },
            Err(e) => Err(e),
        };
    }
    let mut selected: Vec<usize> = Vec::new();
    let mut i: usize = 0;
    while i < store.len()
        invariant
            i <= store@.len(),
            selected@ == valid_positions(store@, now, i as int),
        decreases store.len() - i,
    {
        if store[i].1.is_valid(now) {
            selected.push(i);
        }
        i = i + 1;
    }
    if selected.len() == 0 {
        Err(copy_str("no valid sessions; run bank connect first"))
    } else {
        Ok(selected)
    }
}

pub open spec fn uid_is(uid: Seq<char>) -> spec_fn(StoredAccount) -> bool {
    |a: StoredAccount| a.uid@ == uid
}

/// The position of the first session account with a uid.
pub open spec fn account_position(accounts: Seq<StoredAccount>, uid: Seq<char>) -> Option<int> {
    first_index(accounts, uid_is(uid))
}

fn first_account_with_uid(accounts: &Vec<StoredAccount>, uid: &str) -> (r: Option<usize>)
    ensures
        match r {
            Some(i) => account_position(accounts@, uid@) == Some(i as int),
            None => account_position(accounts@, uid@) is None,
        },
{
    let mut i: usize = 0;
    while i < accounts.len()
        invariant
            i <= accounts@.len(),
            forall|k: int| 0 <= k < i ==> !(uid_is(uid@))(#[trigger] accounts@[k]),
        decreases accounts.len() - i,
    {
        if str_eq(accounts[i].uid.as_str(), uid) {
            proof {
                lemma_first_index(accounts@, uid_is(uid@), i as int);
            }
            return Some(i);
        }
        i = i + 1;
    }
    proof {
        lemma_first_index(accounts@, uid_is(uid@), i as int);
    }
    None
}

/// The session account with the given uid.
pub fn session_account_by_uid(sess: &StoredSession, uid: &str) -> (r: Result<usize, String>)
    ensures
        match account_position(sess.accounts@, uid@) {
            Some(i) => r == Ok::<usize, String>(i as usize),
            None => r matches Err(e) && e@ == "account '"@ + uid@ + "' not found in selected bank session"@,
        },
{
    match first_account_with_uid(&sess.accounts, uid) {
        Some(i) => Ok(i),
        None => {
            let mut e = concat("account '", uid);
            push_str(&mut e, "' not found in selected bank session");
            Err(e)
        },
    }
}

/// The accounts a sync covers: the one named (its alias already resolved to
/// `resolved_uid`), which must belong to the session, or all of them.
pub fn sync_account_uids(sess: &StoredSession, account: Option<&str>, resolved_uid: &str) -> (r: Result<Vec<String>, String>)
    ensures
        account is None ==> (r matches Ok(v) && views(v@) == sess.accounts@.map_values(|a: StoredAccount| a.uid@)),
        account matches Some(flag) ==> match account_position(sess.accounts@, resolved_uid@) {
            Some(_) => r matches Ok(v) && views(v@) == seq![resolved_uid@],
            None => r matches Err(e) && e@ == "account '"@ + flag@ + "' not found in selected bank session"@,
        },
{
    match account {
        Some(flag) => match first_account_with_uid(&sess.accounts, resolved_uid) {
            Some(_) => {
                let mut v: Vec<String> = Vec::new();
                v.push(copy_str(resolved_uid));
                assert(views(v@) =~= seq![resolved_uid@]);
                Ok(v)
            },
            None => {
                let mut e = concat("account '", flag);
                push_str(&mut e, "' not found in selected bank session");
                Err(e)
            },
        },
        None => {
            let mut v: Vec<String> = Vec::new();
            let mut i: usize = 0;
            while i < sess.accounts.len()
                invariant
                    i <= sess.accounts@.len(),
                    views(v@) == sess.accounts@.map_values(|a: StoredAccount| a.uid@).take(i as int),
                decreases sess.accounts.len() - i,
            {
                let ghost before = v@;
                let u = copy_str(sess.accounts[i].uid.as_str());
                v.push(u);
                assert(views(v@) =~= views(before).push(u@));
                assert(sess.accounts@.map_values(|a: StoredAccount| a.uid@).take(i + 1) =~= sess.accounts@.map_values(
                    |a: StoredAccount| a.uid@,
                ).take(i as int).push(sess.accounts@[i as int].uid@));
                i = i + 1;
            }
            assert(sess.accounts@.map_values(|a: StoredAccount| a.uid@).take(sess.accounts@.len() as int)
                =~= sess.accounts@.map_values(|a: StoredAccount| a.uid@));
            Ok(v)
        },
    }
}

// ---------------------------------------------------------------------------
// Sync reports
// ---------------------------------------------------------------------------

/// The outcome of syncing one account.
#[derive(Debug, Clone)]
pub struct SyncReport {
    pub account: String,
    pub bank: String,
    pub tx_before: usize,
    pub tx_added: usize,
    pub balances: usize,
    pub status: String,
    /// When the sync ran, as RFC 3339 text.
    pub synced_at: String,
}

pub open spec fn sync_headers() -> Seq<Seq<char>> {
    seq!["ACCOUNT"@, "BANK"@, "TX BEFORE"@, "TX ADDED"@, "BALANCES"@, "STATUS"@]
}

pub open spec fn sync_row(r: SyncReport) -> Seq<Seq<char>> {
    seq![r.account@, r.bank@, nat_digits(r.tx_before as nat), nat_digits(r.tx_added as nat), nat_digits(r.balances as nat), r.status@]
}

pub open spec fn table_views(rows: Seq<Vec<String>>) -> Seq<Seq<Seq<char>>> {
    rows.map_values(|r: Vec<String>| views(r@))
}

fn usize_text(n: usize) -> (r: String)
    ensures
        r@ == nat_digits(n as nat),
{
    u64_to_string(n as u64)
}

/// The sync report table: one row per account.
pub fn sync_report_table(reports: &[SyncReport]) -> (r: (Vec<String>, Vec<Vec<String>>))
    ensures
        views(r.0@) == sync_headers(),
        table_views(r.1@) == reports@.map_values(|x: SyncReport| sync_row(x)),
{
    let mut headers: Vec<String> = Vec::new();
    headers.push(copy_str("ACCOUNT"));
    headers.push(copy_str("BANK"));
    headers.push(copy_str("TX BEFORE"));
    headers.push(copy_str("TX ADDED"));
    headers.push(copy_str("BALANCES"));
    headers.push(copy_str("STATUS"));
    assert(views(headers@) =~= sync_headers());
    let mut rows: Vec<Vec<String>> = Vec::new();
    let mut i: usize = 0;
    while i < reports.len()
        invariant
            i <= reports@.len(),
            table_views(rows@) == reports@.map_values(|x: SyncReport| sync_row(x)).take(i as int),
        decreases reports.len() - i,
    {
        let x = &reports[i];
        let mut row: Vec<String> = Vec::new();
        row.push(copy_str(x.account.as_str()));
        row.push(copy_str(x.bank.as_str()));
        row.push(usize_text(x.tx_before));
        row.push(usize_text(x.tx_added));
        row.push(usize_text(x.balances));
        row.push(copy_str(x.status.as_str()));
        assert(views(row@) =~= sync_row(*x));
        let ghost before = rows@;
        rows.push(row);
        assert(table_views(rows@) =~= table_views(before).push(views(row@)));
        assert(reports@.map_values(|x: SyncReport| sync_row(x)).take(i + 1) =~= reports@.map_values(
            |x: SyncReport| sync_row(x),
        ).take(i as int).push(sync_row(reports@[i as int])));
        i = i + 1;
    }
    assert(reports@.map_values(|x: SyncReport| sync_row(x)).take(reports@.len() as int) =~= reports@.map_values(
        |x: SyncReport| sync_row(x),
    ));
    (headers, rows)
}

/// The identity of a stored transaction: its id, else its entry reference.
pub open spec fn record_id_spec(t: TransactionRecord) -> Seq<char> {
    if t.transaction_id@.len() == 0 {
        t.entry_reference@
    } else {
        t.transaction_id@
    }
}

pub fn transaction_record_id(t: &TransactionRecord) -> (r: String)
    ensures
        r@ == record_id_spec(*t),
{
    if t.transaction_id.as_str().is_empty() {
        copy_str(t.entry_reference.as_str())
    } else {
        copy_str(t.transaction_id.as_str())
    }
}

/// The number of fetched transactions whose identity was not stored before.
pub open spec fn new_count(before: Seq<TransactionRecord>, recs: Seq<TransactionRecord>) -> nat
    decreases recs.len(),
{
    if recs.len() == 0 {
        0
    } else {
        let n = new_count(before, recs.drop_last());
        if exists|k: int| 0 <= k < before.len() && #[trigger] record_id_spec(before[k]) == record_id_spec(recs.last()) {
            n
        } else {
            n + 1
        }
    }
}

/// How many of the fetched transactions are new.
pub fn count_new_transactions(before: &[TransactionRecord], recs: &[TransactionRecord]) -> (r: usize)
    ensures
        r == new_count(before@, recs@),
{
    let mut ids: Vec<String> = Vec::new();
    let mut k: usize = 0;
    while k < before.len()
        invariant
            k <= before@.len(),
            ids@.len() == k,
            forall|j: int| 0 <= j < k ==> (#[trigger] ids@[j])@ == record_id_spec(before@[j]),
        decreases before.len() - k,
    {
        ids.push(transaction_record_id(&before[k]));
        k = k + 1;
    }
    let mut count: usize = 0;
    let mut i: usize = 0;
    while i < recs.len()
        invariant
            i <= recs@.len(),
            ids@.len() == before@.len(),
            forall|j: int| 0 <= j < before@.len() ==> (#[trigger] ids@[j])@ == record_id_spec(before@[j]),
            count == new_count(before@, recs@.take(i as int)),
            count <= i,
        decreases recs.len() - i,
    {
        let id = transaction_record_id(&recs[i]);
        let mut seen = false;
        let mut j: usize = 0;
        while j < ids.len()
            invariant
                j <= ids@.len(),
                ids@.len() == before@.len(),
                forall|q: int| 0 <= q < before@.len() ==> (#[trigger] ids@[q])@ == record_id_spec(before@[q]),
                seen == exists|q: int| 0 <= q < j && #[trigger] record_id_spec(before@[q]) == id@,
            decreases ids.len() - j,
        {
            if str_eq(ids[j].as_str(), id.as_str()) {
                seen = true;
            }
            proof {
                if seen && !(exists|q: int| 0 <= q < j && #[trigger] record_id_spec(before@[q]) == id@) {
                    assert(record_id_spec(before@[j as int]) == id@);
                }
                if exists|q: int| 0 <= q < j + 1 && #[trigger] record_id_spec(before@[q]) == id@ {
                    let q = choose|q: int| 0 <= q < j + 1 && #[trigger] record_id_spec(before@[q]) == id@;
                    if q < j {
                    } else {
                        assert(ids@[j as int]@ == id@);
                    }
                }
            }
            j = j + 1;
        }
        proof {
            let pre = recs@.take(i as int);
            let post = recs@.take(i + 1);
            assert(post.drop_last() =~= pre);
            assert(post.last() == recs@[i as int]);
        }
        if !seen {
            count = count + 1;
        }
        i = i + 1;
    }
    assert(recs@.take(recs@.len() as int) =~= recs@);
    count
}

/// The label of a synced account: the stored account's alias, name or IBAN
/// suffix, else the session account's name or IBAN suffix, else its uid.
pub open spec fn account_label_spec(stored: Option<AccountRecord>, acct: StoredAccount) -> Seq<char> {
    match stored {
        Some(rec) if rec.alias@.len() > 0 => rec.alias@,
        Some(rec) if rec.name@.len() > 0 => rec.name@,
        Some(rec) if rec.iban@.len() > 0 => iban_suffix_spec(rec.iban@, 5),
        _ => if acct.name@.len() > 0 {
            acct.name@
        } else if acct.iban@.len() > 0 {
            iban_suffix_spec(acct.iban@, 5)
        } else {
            acct.uid@
        },
    }
}

pub open spec fn record_uid_is(uid: Seq<char>) -> spec_fn(AccountRecord) -> bool {
    |a: AccountRecord| a.uid@ == uid
}

/// The first stored account with the session account's uid, when the stored
/// accounts could be read.
pub open spec fn stored_match(accounts: Option<Seq<AccountRecord>>, uid: Seq<char>) -> Option<AccountRecord> {
    match accounts {
        Some(all) => match first_index(all, record_uid_is(uid)) {
            Some(i) => Some(all[i]),
            None => None,
        },
        None => None,
    }
}

pub open spec fn opt_records(o: Option<&[AccountRecord]>) -> Option<Seq<AccountRecord>> {
    match o {
        Some(s) => Some(s@),
        None => None,
    }
}

/// A label's IBAN suffix is cut on a character boundary.
pub open spec fn label_defined(accounts: Option<Seq<AccountRecord>>, acct: StoredAccount) -> bool {
    &&& (stored_match(accounts, acct.uid@) matches Some(rec) ==> iban_suffix_defined(rec.iban@, 5))
    &&& iban_suffix_defined(acct.iban@, 5)
}

fn find_record(all: &[AccountRecord], uid: &str) -> (r: Option<usize>)
    ensures
        match r {
            Some(i) => i < all@.len() && first_index(all@, record_uid_is(uid@)) == Some(i as int),
            None => first_index(all@, record_uid_is(uid@)) is None,
        },
{
    let mut i: usize = 0;
    while i < all.len()
        invariant
            i <= all@.len(),
            forall|k: int| 0 <= k < i ==> !(record_uid_is(uid@))(#[trigger] all@[k]),
        decreases all.len() - i,
    {
        if str_eq(all[i].uid.as_str(), uid) {
            proof {
                lemma_first_index(all@, record_uid_is(uid@), i as int);
            }
            return Some(i);
        }
        i = i + 1;
    }
    proof {
        lemma_first_index(all@, record_uid_is(uid@), i as int);
    }
    None
}

fn session_account_label(acct: &StoredAccount) -> (r: String)
    requires
        iban_suffix_defined(acct.iban@, 5),
    ensures
        r@ == account_label_spec(None, *acct),
{
    if !acct.name.as_str().is_empty() {
        copy_str(acct.name.as_str())
    } else if !acct.iban.as_str().is_empty() {
        iban_suffix(acct.iban.as_str(), 5)
    } else {
        copy_str(acct.uid.as_str())
    }
}

/// The label of a synced account, from the stored accounts of its bank
/// (`None` when they could not be read).
pub fn account_label(accounts: Option<&[AccountRecord]>, acct: &StoredAccount) -> (r: String)
    requires
        label_defined(opt_records(accounts), *acct),
    ensures
        r@ == account_label_spec(stored_match(opt_records(accounts), acct.uid@), *acct),
{
    if let Some(all) = accounts {
        if let Some(i) = find_record(all, acct.uid.as_str()) {
            let rec = &all[i];
            assert(stored_match(opt_records(accounts), acct.uid@) == Some(*rec));
            if !rec.alias.as_str().is_empty() {
                return copy_str(rec.alias.as_str());
            }
            if !rec.name.as_str().is_empty() {
                return copy_str(rec.name.as_str());
            }
            if !rec.iban.as_str().is_empty() {
                return iban_suffix(rec.iban.as_str(), 5);
            }
        }
    }
    session_account_label(acct)
}

// ---------------------------------------------------------------------------
// Conversions from the API's types
// ---------------------------------------------------------------------------

/// The stored form of a fetched transaction.
pub open spec fn stored_transaction(uid: Seq<char>, t: Transaction, r: TransactionRecord) -> bool {
    &&& r.account_uid@ == uid
    &&& r.transaction_id@ == t.transaction_id@
    &&& r.entry_reference@ == t.entry_reference@
    &&& r.amount@ == t.amount.amount@
    &&& r.currency@ == t.amount.currency@
    &&& r.booking_date@ == t.booking_date@
    &&& r.value_date@ == t.value_date@
    &&& r.transaction_date@ == t.transaction_date@
    &&& views(r.remittance_info@) == views(t.remittance_info@)
    &&& r.creditor_name@ == t.creditor.name@
    &&& r.debtor_name@ == t.debtor.name@
    &&& r.status@ == t.status@
    &&& r.credit_debit_indicator@ == t.credit_debit_indicator@
    &&& r.note@ == t.note@
    &&& r.category@ == "uncategorized"@
    &&& r.category_source@.len() == 0
}

fn copy_strings(v: &Vec<String>) -> (r: Vec<String>)
    ensures
        views(r@) == views(v@),
{
    let mut out: Vec<String> = Vec::new();
    let mut i: usize = 0;
    while i < v.len()
        invariant
            i <= v@.len(),
            views(out@) == views(v@).take(i as int),
        decreases v.len() - i,
    {
        let ghost before = out@;
        let c = copy_str(v[i].as_str());
        out.push(c);
        assert(views(out@) =~= views(before).push(c@));
        assert(views(v@).take(i + 1) =~= views(v@).take(i as int).push(v@[i as int]@));
        i = i + 1;
    }
    assert(views(v@).take(v@.len() as int) =~= views(v@));
    out
}

/// The stored form of fetched transactions, uncategorized.
pub fn to_transaction_records(account_uid: &str, txns: Vec<Transaction>) -> (r: Vec<TransactionRecord>)
    ensures
        r@.len() == txns@.len(),
        forall|i: int| 0 <= i < txns@.len() ==> stored_transaction(account_uid@, txns@[i], #[trigger] r@[i]),
{
    let mut out: Vec<TransactionRecord> = Vec::new();
    let mut i: usize = 0;
    while i < txns.len()
        invariant
            i <= txns@.len(),
            out@.len() == i,
            forall|k: int| 0 <= k < i ==> stored_transaction(account_uid@, txns@[k], #[trigger] out@[k]),
        decreases txns.len() - i,
    {
        let t = &txns[i];
        out.push(TransactionRecord {
            account_uid: copy_str(account_uid),
            transaction_id: copy_str(t.transaction_id.as_str()),
            entry_reference: copy_str(t.entry_reference.as_str()),
            amount: copy_str(t.amount.amount.as_str()),
            currency: copy_str(t.amount.currency.as_str()),
            booking_date: copy_str(t.booking_date.as_str()),
            value_date: copy_str(t.value_date.as_str()),
            transaction_date: copy_str(t.transaction_date.as_str()),
            remittance_info: copy_strings(&t.remittance_info),
            creditor_name: copy_str(t.creditor.name.as_str()),
            debtor_name: copy_str(t.debtor.name.as_str()),
            status: copy_str(t.status.as_str()),
            credit_debit_indicator: copy_str(t.credit_debit_indicator.as_str()),
            note: copy_str(t.note.as_str()),
            category: copy_str("uncategorized"),
            category_source: String::new(),
        });
        i = i + 1;
    }
    out
}

/// The stored form of a fetched account.
pub fn to_account_record(bank_name: &str, a: &Account) -> (r: AccountRecord)
    ensures
        r.uid@ == a.uid@,
        r.bank_name@ == bank_name@,
        r.iban@ == a.account_id.iban@,
        r.name@ == a.name@,
        r.currency@ == a.currency@,
        r.details@ == a.details@,
        r.usage_type@ == a.usage@,
        r.account_type@ == a.cash_account_type@,
        r.alias@.len() == 0,
{
    AccountRecord {
        uid: copy_str(a.uid.as_str()),
        bank_name: copy_str(bank_name),
        iban: copy_str(a.account_id.iban.as_str()),
        name: copy_str(a.name.as_str()),
        currency: copy_str(a.currency.as_str()),
        details: copy_str(a.details.as_str()),
        usage_type: copy_str(a.usage.as_str()),
        account_type: copy_str(a.cash_account_type.as_str()),
        alias: String::new(),
    }
}

/// The stored form of fetched balances.
pub fn to_balance_records(balances: Vec<Balance>) -> (r: Vec<BalanceRecord>)
    ensures
        r@.len() == balances@.len(),
        forall|i: int| 0 <= i < balances@.len() ==> {
            &&& (#[trigger] r@[i]).balance_type@ == balances@[i].balance_type@
            &&& r@[i].amount@ == balances@[i].balance_amount.amount@
            &&& r@[i].currency@ == balances@[i].balance_amount.currency@
            &&& r@[i].reference_date@ == balances@[i].reference_date@
        },
{
    let mut out: Vec<BalanceRecord> = Vec::new();
    let mut i: usize = 0;
    while i < balances.len()
        invariant
            i <= balances@.len(),
            out@.len() == i,
            forall|k: int| 0 <= k < i ==> {
                &&& (#[trigger] out@[k]).balance_type@ == balances@[k].balance_type@
                &&& out@[k].amount@ == balances@[k].balance_amount.amount@
                &&& out@[k].currency@ == balances@[k].balance_amount.currency@
                &&& out@[k].reference_date@ == balances@[k].reference_date@
            },
        decreases balances.len() - i,
    {
        let b = &balances[i];
        out.push(BalanceRecord {
            balance_type: copy_str(b.balance_type.as_str()),
            amount: copy_str(b.balance_amount.amount.as_str()),
            currency: copy_str(b.balance_amount.currency.as_str()),
            reference_date: copy_str(b.reference_date.as_str()),
        });
        i = i + 1;
    }
    out
}

// ---------------------------------------------------------------------------
// Output helpers
// ---------------------------------------------------------------------------

/// The output formats of the command line.
#[derive(Debug, Clone, Copy, PartialEq, Eq, Structural)]
pub enum OutputFormat {
    Table,
    Json,
    Csv,
}

/// The printer for an output format.
pub fn printer(format: OutputFormat) -> (r: Printer)
    ensures
        r.json == (format == OutputFormat::Json),
        r.csv == (format == OutputFormat::Csv),
{
    Printer { json: format == OutputFormat::Json, csv: format == OutputFormat::Csv }
}

pub open spec fn balance_type_is(ty: Seq<char>) -> spec_fn(BalanceRecord) -> bool {
    |b: BalanceRecord| b.balance_type@ == ty
}

/// The first balance of the given type.
pub open spec fn first_balance_of(bs: Seq<BalanceRecord>, ty: Seq<char>) -> Option<int> {
    first_index(bs, balance_type_is(ty))
}

/// The balance shown for an account: the first ITBD, else the first CLBD,
/// else the first balance.
pub open spec fn main_balance_spec(bs: Seq<BalanceRecord>) -> Option<int> {
    if first_balance_of(bs, "ITBD"@) is Some {
        first_balance_of(bs, "ITBD"@)
    } else if first_balance_of(bs, "CLBD"@) is Some {
        first_balance_of(bs, "CLBD"@)
    } else if bs.len() > 0 {
        Some(0)
    } else {
        None
    }
}

fn find_balance(bs: &[BalanceRecord], ty: &str) -> (r: Option<usize>)
    ensures
        match r {
            Some(i) => i < bs@.len() && first_balance_of(bs@, ty@) == Some(i as int),
            None => first_balance_of(bs@, ty@) is None,
        },
{
    let mut i: usize = 0;
    while i < bs.len()
        invariant
            i <= bs@.len(),
            forall|k: int| 0 <= k < i ==> !(balance_type_is(ty@))(#[trigger] bs@[k]),
        decreases bs.len() - i,
    {
        if str_eq(bs[i].balance_type.as_str(), ty) {
            proof {
                lemma_first_index(bs@, balance_type_is(ty@), i as int);
            }
            return Some(i);
        }
        i = i + 1;
    }
    proof {
        lemma_first_index(bs@, balance_type_is(ty@), i as int);
    }
    None
}

/// The balance shown for an account.
pub fn select_main_balance(balances: &[BalanceRecord]) -> (r: Option<&BalanceRecord>)
    ensures
        match main_balance_spec(balances@) {
            Some(i) => r matches Some(b) && *b == balances@[i],
            None => r is None,
        },
{
    match find_balance(balances, "ITBD") {
        Some(i) => Some(&balances[i]),
        None => match find_balance(balances, "CLBD") {
            Some(i) => Some(&balances[i]),
            None => if balances.len() > 0 {
                Some(&balances[0])
            } else {
                None
            },
        },
    }
}

/// An amount for display: rounded to two decimals when it parses exactly,
/// else the text as it is.
pub open spec fn format_amount_spec(amount: Seq<char>) -> Seq<char> {
    match decimal_from_str_exact(amount) {
        Some(d) => decimal_display_2dp(decimal_round_dp(d, 2)),
        None => amount,
    }
}

pub fn format_amount(amount: &str) -> (r: String)
    ensures
        r@ == format_amount_spec(amount@),
{
    match dec_parse_exact(amount) {
        Some(d) => dec_display_2dp(dec_round_dp(d, 2)),
        None => copy_str(amount),
    }
}

/// A pending amount for display: blank-padded zero, a `+` before positive
/// amounts, two decimals.
pub open spec fn pending_text(d: Dec) -> Seq<char> {
    if d.mantissa == 0 {
        "    0.00"@
    } else if !d.negative {
        "+"@ + decimal_display_2dp(decimal_round_dp(d, 2))
    } else {
        decimal_display_2dp(decimal_round_dp(d, 2))
    }
}

pub fn format_pending_decimal(d: Dec) -> (r: String)
    requires
        d.wf(),
    ensures
        r@ == pending_text(d),
{
    let z = dec_zero();
    if d.mantissa == 0 {
        copy_str("    0.00")
    } else if dec_lt(z, d) {
        proof {
            crate::dec::lemma_pow10_pos((28 - d.scale) as nat);
            if d.negative {
                assert(d.signed() < 0);
                assert(d.signed() * crate::dec::pow10((28 - d.scale) as nat) < 0) by (nonlinear_arith)
                    requires
                        d.signed() < 0,
                        crate::dec::pow10((28 - d.scale) as nat) >= 1,
                ;
            }
        }
        concat("+", dec_display_2dp(dec_round_dp(d, 2)).as_str())
    } else {
        proof {
            crate::dec::lemma_pow10_pos((28 - d.scale) as nat);
            if !d.negative {
                assert(d.signed() > 0);
                assert(d.signed() * crate::dec::pow10((28 - d.scale) as nat) > 0) by (nonlinear_arith)
                    requires
                        d.signed() > 0,
                        crate::dec::pow10((28 - d.scale) as nat) >= 1,
                ;
            }
        }
        dec_display_2dp(dec_round_dp(d, 2))
    }
}

/// The status word of a doctor check.
pub fn check_status(ok: bool) -> (r: &'static str)
    ensures
        r@ == (if ok { "OK"@ } else { "WARN"@ }),
{
    if ok {
        "OK"
    } else {
        "WARN"
    }
}

/// Where the configuration is saved: the given path, else the default one.
pub fn config_save_path(cfg: &crate::config::Config, config_path: Option<&str>) -> (r: String)
    ensures
        config_path matches Some(p) ==> r@ == p@,
        config_path is None ==> exists|c: Option<Seq<char>>, h: Option<Seq<char>>|
            r@ == crate::config::path_joined(crate::config::app_dir_spec(c, h), "config.yaml"@),
{
    match config_path {
        Some(p) => copy_str(p),
        None => cfg.config_path(),
    }
}

// ---------------------------------------------------------------------------
// Alert listing
// ---------------------------------------------------------------------------

/// The criteria column of a transaction rule.
pub open spec fn transaction_criteria(amount_gte: Seq<char>, merchant: Seq<char>) -> Seq<char> {
    let a = if amount_gte.len() > 0 {
        seq!["amount >= "@ + amount_gte]
    } else {
        Seq::<Seq<char>>::empty()
    };
    let m = if merchant.len() > 0 {
        seq!["merchant contains "@ + merchant]
    } else {
        Seq::<Seq<char>>::empty()
    };
    join_spec(a + m, ", "@)
}

/// One row of the alert rule listing: name, type, criteria, and period or
/// direction.
pub open spec fn alert_row_spec(r: AlertRule) -> Seq<Seq<char>> {
    let (criteria, extra) = if r.rule_type@ == "transaction"@ {
        match r.transaction {
            Some(t) => (transaction_criteria(t.amount_gte@, t.merchant_contains@), t.direction@),
            None => (Seq::<char>::empty(), Seq::<char>::empty()),
        }
    } else if r.rule_type@ == "category"@ {
        match r.category {
            Some(c) => (c.category@ + " >= "@ + c.threshold@, c.period@),
            None => (Seq::<char>::empty(), Seq::<char>::empty()),
        }
    } else {
        (Seq::<char>::empty(), Seq::<char>::empty())
    };
    seq![r.name@, r.rule_type@, criteria, extra]
}

pub fn alert_rule_row(r: &AlertRule) -> (row: Vec<String>)
    ensures
        views(row@) == alert_row_spec(*r),
{
    let mut criteria = String::new();
    let mut extra = String::new();
    if str_eq(r.rule_type.as_str(), "transaction") {
        if let Some(t) = &r.transaction {
            let mut parts: Vec<String> = Vec::new();
            if !t.amount_gte.as_str().is_empty() {
                parts.push(concat("amount >= ", t.amount_gte.as_str()));
            }
            let ghost pa = views(parts@);
            if !t.merchant_contains.as_str().is_empty() {
                parts.push(concat("merchant contains ", t.merchant_contains.as_str()));
            }
            proof {
                let a = if t.amount_gte@.len() > 0 {
                    seq!["amount >= "@ + t.amount_gte@]
                } else {
                    Seq::<Seq<char>>::empty()
                };
                let m = if t.merchant_contains@.len() > 0 {
                    seq!["merchant contains "@ + t.merchant_contains@]
                } else {
                    Seq::<Seq<char>>::empty()
                };
                assert(pa =~= a);
                assert(views(parts@) =~= a + m);
            }
            criteria = join(&parts, ", ");
            extra = copy_str(t.direction.as_str());
        }
    } else if str_eq(r.rule_type.as_str(), "category") {
        if let Some(c) = &r.category {
            criteria = concat(c.category.as_str(), " >= ");
            push_str(&mut criteria, c.threshold.as_str());
            extra = copy_str(c.period.as_str());
        }
    }
    let mut row: Vec<String> = Vec::new();
    row.push(copy_str(r.name.as_str()));
    row.push(copy_str(r.rule_type.as_str()));
    row.push(criteria);
    row.push(extra);
    proof {
        reveal_strlit("transaction");
        reveal_strlit("category");
    }
    assert(views(row@) =~= alert_row_spec(*r));
    row
}

/// A sync without a named bank runs only over sessions that are valid at
/// the time of the sync, each once, in store order.
pub proof fn law_sync_only_valid_sessions(store: Seq<(String, StoredSession)>, now: i128, n: int)
    requires
        0 <= n <= store.len(),
        n <= usize::MAX,
    ensures
        forall|k: int| 0 <= k < valid_positions(store, now, n).len() ==> {
            let p = #[trigger] valid_positions(store, now, n)[k];
            &&& p < n
            &&& now < store[p as int].1.valid_until
        },
        forall|k: int, l: int| 0 <= k < l < valid_positions(store, now, n).len() ==> valid_positions(store, now, n)[k]
            < valid_positions(store, now, n)[l],
    decreases n,
{
    if n > 0 {
        law_sync_only_valid_sessions(store, now, n - 1);
        let p = valid_positions(store, now, n - 1);
        let q = valid_positions(store, now, n);
        if now < store[n - 1].1.valid_until {
            assert(q == p.push((n - 1) as usize));
            assert forall|k: int| 0 <= k < q.len() implies ({
                let x = #[trigger] q[k];
                &&& x < n
                &&& now < store[x as int].1.valid_until
            }) by {
                if k < p.len() {
                    assert(q[k] == p[k]);
                }
            }
            assert forall|k: int, l: int| 0 <= k < l < q.len() implies q[k] < q[l] by {
                assert(q[k] == p[k]);
                if l < p.len() {
                    assert(q[l] == p[l]);
                }
            }
        }
    }
}

/// A fetched transaction whose identity (its transaction id, or its entry
/// reference when the id is empty) is that of no stored transaction.
pub open spec fn unstored(before: Seq<TransactionRecord>, t: TransactionRecord) -> bool {
    !exists|k: int|
        0 <= k < before.len() && (if (#[trigger] before[k]).transaction_id@.len() == 0 {
            before[k].entry_reference@
        } else {
            before[k].transaction_id@
        }) == (if t.transaction_id@.len() == 0 {
            t.entry_reference@
        } else {
            t.transaction_id@
        })
}

/// The number of new transactions a sync reports is the number of fetched
/// transactions whose identity (transaction id, else entry reference) is not
/// the identity of any stored transaction.
pub proof fn law_new_count_is_unstored(before: Seq<TransactionRecord>, recs: Seq<TransactionRecord>)
    ensures
        new_count(before, recs) == recs.filter(|t: TransactionRecord| unstored(before, t)).len(),
    decreases recs.len(),
{
    reveal(Seq::filter);
    if recs.len() > 0 {
        law_new_count_is_unstored(before, recs.drop_last());
        let t = recs.last();
        if exists|k: int| 0 <= k < before.len() && #[trigger] record_id_spec(before[k]) == record_id_spec(t) {
            let k = choose|k: int| 0 <= k < before.len() && #[trigger] record_id_spec(before[k]) == record_id_spec(t);
            assert(!unstored(before, t));
        } else {
            if !unstored(before, t) {
                let k = choose|k: int|
                    0 <= k < before.len() && (if (#[trigger] before[k]).transaction_id@.len() == 0 {
                        before[k].entry_reference@
                    } else {
                        before[k].transaction_id@
                    }) == (if t.transaction_id@.len() == 0 {
                        t.entry_reference@
                    } else {
                        t.transaction_id@
                    });
                assert(record_id_spec(before[k]) == record_id_spec(t));
            }
        }
    }
}

} // verus!
