use vstd::prelude::*;

use crate::text::{copy_str, str_eq, views};

verus! {

/// Body of an authorization request.
#[derive(Debug, Clone)]
pub struct AuthRequest {
    pub access: Access,
    pub aspsp: Aspsp,
    pub state: String,
    pub redirect_url: String,
    pub psu_type: String,
}

#[derive(Debug, Clone)]
pub struct Access {
    pub valid_until: String,
}

/// A bank (account servicing payment service provider).
#[derive(Debug, Clone)]
pub struct Aspsp {
    pub name: String,
    pub country: String,
}

#[derive(Debug, Clone)]
pub struct ListAspspsResponse {
    pub aspsps: Vec<Aspsp>,
}

#[derive(Debug, Clone)]
pub struct AuthResponse {
    pub url: String,
}

#[derive(Debug, Clone)]
pub struct CreatedSession {
    pub session_id: String,
}

#[derive(Debug, Clone)]
pub struct Session {
    pub session_id: String,
    pub status: String,
    pub accounts: Vec<String>,
}

#[derive(Debug, Clone)]
pub struct AccountId {
    pub iban: String,
}

#[derive(Debug, Clone)]
pub struct Account {
    pub uid: String,
    pub account_id: AccountId,
    pub name: String,
    pub details: String,
    pub usage: String,
    pub currency: String,
    pub cash_account_type: String,
    pub psu_status: String,
}

#[derive(Debug, Clone)]
pub struct Balance {
    pub balance_type: String,
    pub balance_amount: Amount,
    pub reference_date: String,
}

#[derive(Debug, Clone)]
pub struct Amount {
    pub amount: String,
    pub currency: String,
}

#[derive(Debug, Clone)]
pub struct Party {
    pub name: String,
}

#[derive(Debug, Clone)]
pub struct Transaction {
    pub entry_reference: String,
    pub transaction_id: String,
    pub amount: Amount,
    pub booking_date: String,
    pub value_date: String,
    pub transaction_date: String,
    pub remittance_info: Vec<String>,
    pub creditor: Party,
    pub debtor: Party,
    pub status: String,
    pub credit_debit_indicator: String,
    pub note: String,
}

#[derive(Debug, Clone)]
pub struct TransactionList {
    pub transactions: Vec<Transaction>,
    pub continuation_key: Option<String>,
}

/// Filters for a transaction listing request.
#[derive(Debug, Clone)]
pub struct TransactionOpts {
    pub date_from: Option<String>,
    pub date_to: Option<String>,
    pub status: Option<String>,
    pub continuation_key: Option<String>,
}

impl Default for TransactionOpts {
    fn default() -> (r: Self)
        ensures
            r.date_from is None,
            r.date_to is None,
            r.status is None,
            r.continuation_key is None,
    {
        TransactionOpts { date_from: None, date_to: None, status: None, continuation_key: None }
    }
}

impl Default for Party {
    fn default() -> (r: Self)
        ensures
            r.name@.len() == 0,
    {
        Party { name: String::new() }
    }
}

/// The query parameters of a transaction listing, in request order: the
/// set filters among `date_from`, `date_to`, `transaction_status` and
/// `continuation_key`.
pub open spec fn query_params_spec(opts: TransactionOpts) -> Seq<(Seq<char>, Seq<char>)> {
    opt_param("date_from"@, opts.date_from) + opt_param("date_to"@, opts.date_to) + opt_param(
        "transaction_status"@,
        opts.status,
    ) + opt_param("continuation_key"@, opts.continuation_key)
}

/// The parameter `name=v` when the filter is set.
pub open spec fn opt_param(name: Seq<char>, o: Option<String>) -> Seq<(Seq<char>, Seq<char>)> {
    match o {
        Some(v) => seq![(name, v@)],
        None => Seq::empty(),
    }
}

pub open spec fn pair_views(ps: Seq<(String, String)>) -> Seq<(Seq<char>, Seq<char>)> {
    ps.map_values(|p: (String, String)| (p.0@, p.1@))
}

/// The query parameters sent when listing transactions with `opts`; an empty
/// list means the plain path is requested.
pub fn transaction_query_params(opts: &TransactionOpts) -> (r: Vec<(String, String)>)
    ensures
        pair_views(r@) == query_params_spec(*opts),
{
    let mut r: Vec<(String, String)> = Vec::new();
    if let Some(v) = &opts.date_from {
        r.push((copy_str("date_from"), copy_str(v.as_str())));
    }
    let ghost ra = pair_views(r@);
    if let Some(v) = &opts.date_to {
        r.push((copy_str("date_to"), copy_str(v.as_str())));
    }
    let ghost rb = pair_views(r@);
    if let Some(v) = &opts.status {
        r.push((copy_str("transaction_status"), copy_str(v.as_str())));
    }
    let ghost rc = pair_views(r@);
    if let Some(v) = &opts.continuation_key {
        r.push((copy_str("continuation_key"), copy_str(v.as_str())));
    }
    proof {
        let a = opt_param("date_from"@, opts.date_from);
        let b = opt_param("date_to"@, opts.date_to);
        let c = opt_param("transaction_status"@, opts.status);
        let d = opt_param("continuation_key"@, opts.continuation_key);
        assert(ra =~= a);
        assert(rb =~= a + b);
        assert(rc =~= a + b + c);
        assert(pair_views(r@) =~= a + b + c + d);
    }
    r
}

/// What to do after a page of transactions has arrived.
#[derive(Debug, Clone, PartialEq, Eq)]
pub enum PageStep {
    /// Request the next page with this continuation key.
    Next(String),
    /// All pages have been read.
    Done,
    /// The server handed out a continuation key it had handed out before.
    RepeatedKey,
}

/// The decision after a page: a non-empty continuation key that was not seen
/// before asks for the next page (and is remembered); a repeated one is an
/// error; an absent or empty one ends the listing.
pub fn next_page(seen: &mut Vec<String>, continuation_key: Option<String>) -> (r: PageStep)
    ensures
        (continuation_key is None || continuation_key.unwrap()@.len() == 0) ==> r == PageStep::Done
            && final(seen)@ == old(seen)@,
        (continuation_key is Some && continuation_key.unwrap()@.len() > 0 && views(old(seen)@).contains(
            continuation_key.unwrap()@,
        )) ==> r == PageStep::RepeatedKey && final(seen)@ == old(seen)@,
        (continuation_key is Some && continuation_key.unwrap()@.len() > 0 && !views(old(seen)@).contains(
            continuation_key.unwrap()@,
        )) ==> (r matches PageStep::Next(n) && n@ == continuation_key.unwrap()@) && views(final(seen)@)
            == views(old(seen)@).push(continuation_key.unwrap()@),
{
    match continuation_key {
        Some(k) => {
            if k.as_str().is_empty() {
                proof {
                    assert(k@.len() == 0);
                }
                return PageStep::Done;
            }
            let mut i: usize = 0;
            while i < seen.len()
                invariant
                    i <= seen@.len(),
                    seen@ == old(seen)@,
                    k@.len() > 0,
                    continuation_key == Some(k),
                    forall|j: int| 0 <= j < i ==> (#[trigger] seen@[j])@ != k@,
                decreases seen.len() - i,
            {
                if str_eq(seen[i].as_str(), k.as_str()) {
                    proof {
                        assert(views(seen@)[i as int] == k@);
                        assert(views(seen@).contains(k@));
                        assert(k@.len() > 0);
                    }
                    return PageStep::RepeatedKey;
                }
                i = i + 1;
            }
            proof {
                assert(!views(seen@).contains(k@)) by {
                    if views(seen@).contains(k@) {
                        let j = choose|j: int| 0 <= j < seen@.len() && #[trigger] views(seen@)[j] == k@;
                        assert(seen@[j]@ == k@);
                    }
                }
            }
            let ghost before = seen@;
            seen.push(copy_str(k.as_str()));
            proof {
                assert(views(seen@) =~= views(before).push(k@));
            }
            PageStep::Next(k)
        },
        None => PageStep::Done,
    }
}

} // verus!
