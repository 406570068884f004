use vstd::prelude::*;

use crate::dec::{
    Dec, abs_int, add_fits, add_fits_exec, dec_wf, lemma_zero_add_fits, dec_abs, dec_add, dec_neg, dec_parse,
    dec_zero, decimal_add, decimal_from_str, pow10, zero_spec, mantissa_bound,
};
use crate::text::{
    concat, copy_str, debug_quoted, debug_str, push_str, str_eq, str_order, lex_order, lemma_lex_antisym,
    lemma_lex_zero, lemma_lex_trans,
};

verus! {

#[derive(Debug, Clone)]
pub struct BalanceInput {
    pub balance_type: String,
    pub amount: String,
    pub currency: String,
}

#[derive(Debug, Clone)]
pub struct TxnInput {
    pub transaction_id: String,
    pub amount: String,
    pub currency: String,
    pub credit_debit_indicator: String,
    pub description: String,
    pub value_date: String,
}

#[derive(Debug, Clone)]
pub struct PendingTxn {
    pub amount: Dec,
    pub description: String,
    pub value_date: String,
    pub is_credit: bool,
}

#[derive(Debug, Clone)]
pub struct AccountForecast {
    pub account_uid: String,
    pub iban: String,
    pub bank_name: String,
    pub currency: String,
    pub booked_balance: Dec,
    pub booked_balance_type: String,
    pub pending_delta: Dec,
    pub projected_balance: Dec,
    pub has_pending_data: bool,
    pub pending_txns: Vec<PendingTxn>,
    pub warnings: Vec<String>,
}

#[derive(Debug, Clone)]
pub struct CurrencyTotal {
    pub currency: String,
    pub total_booked: Dec,
    pub total_pending: Dec,
    pub total_projected: Dec,
}

// ---------------------------------------------------------------------------
// Balance selection
// ---------------------------------------------------------------------------

/// The position of the first balance of the given type.
pub open spec fn first_of_type(bs: Seq<BalanceInput>, ty: Seq<char>, i: int) -> Option<int>
    decreases bs.len() - i,
{
    if i < 0 || i >= bs.len() {
        None
    } else if bs[i].balance_type@ == ty {
        Some(i)
    } else {
        first_of_type(bs, ty, i + 1)
    }
}

/// The balance a forecast starts from: the first ITBD, else the first CLBD,
/// else the first balance.
pub open spec fn chosen_balance(bs: Seq<BalanceInput>) -> Option<int> {
    if bs.len() == 0 {
        None
    } else if first_of_type(bs, "ITBD"@, 0) is Some {
        first_of_type(bs, "ITBD"@, 0)
    } else if first_of_type(bs, "CLBD"@, 0) is Some {
        first_of_type(bs, "CLBD"@, 0)
    } else {
        Some(0)
    }
}

/// The warning for a balance whose amount does not parse.
pub open spec fn invalid_balance_warning(b: BalanceInput) -> Seq<char> {
    "invalid "@ + b.balance_type@ + " balance amount "@ + debug_quoted(b.amount@)
}

/// What balance selection gives: the amount (zero when it does not parse),
/// the type, and the warnings.
pub open spec fn selection_ok(bs: Seq<BalanceInput>, amt: Dec, ty: Seq<char>, warnings: Seq<Seq<char>>) -> bool {
    match chosen_balance(bs) {
        None => amt == zero_spec() && ty.len() == 0 && warnings == seq!["no balance data available"@],
        Some(i) => {
            let b = bs[i];
            &&& ty == b.balance_type@
            &&& match decimal_from_str(b.amount@) {
                Some(a) => amt == a && warnings == (if b.balance_type@ == "ITBD"@ || b.balance_type@ == "CLBD"@ {
                    Seq::<Seq<char>>::empty()
                } else {
                    seq!["using "@ + b.balance_type@ + " balance (ITBD/CLBD unavailable)"@]
                }),
                None => amt == zero_spec() && warnings == seq![invalid_balance_warning(b)],
            }
        },
    }
}

proof fn lemma_first_of_type_skip(bs: Seq<BalanceInput>, ty: Seq<char>, i: int)
    requires
        0 <= i <= bs.len(),
        forall|k: int| 0 <= k < i ==> #[trigger] bs[k].balance_type@ != ty,
    ensures
        first_of_type(bs, ty, 0) == first_of_type(bs, ty, i),
    decreases i,
{
    if i > 0 {
        lemma_first_of_type_skip(bs, ty, i - 1);
    }
}

proof fn lemma_first_of_type_is(bs: Seq<BalanceInput>, ty: Seq<char>, i: int)
    requires
        first_of_type(bs, ty, i) matches Some(k),
    ensures
        first_of_type(bs, ty, i) matches Some(k) ==> 0 <= k < bs.len() && bs[k].balance_type@ == ty,
    decreases bs.len() - i,
{
    if 0 <= i < bs.len() && bs[i].balance_type@ != ty {
        lemma_first_of_type_is(bs, ty, i + 1);
    }
}

fn find_type(bs: &[BalanceInput], ty: &str) -> (r: Option<usize>)
    ensures
        r matches Some(k) ==> first_of_type(bs@, ty@, 0) == Some(k as int) && k < bs@.len(),
        r is None ==> first_of_type(bs@, ty@, 0) is None,
{
    let mut i: usize = 0;
    while i < bs.len()
        invariant
            i <= bs@.len(),
            forall|k: int| 0 <= k < i ==> #[trigger] bs@[k].balance_type@ != ty@,
        decreases bs.len() - i,
    {
        if str_eq(bs[i].balance_type.as_str(), ty) {
            proof {
                lemma_first_of_type_skip(bs@, ty@, i as int);
            }
            return Some(i);
        }
        i = i + 1;
    }
    proof {
        lemma_first_of_type_skip(bs@, ty@, bs@.len() as int);
    }
    None
}

fn invalid_warning(b: &BalanceInput) -> (r: String)
    ensures
        r@ == invalid_balance_warning(*b),
{
    let mut w = concat("invalid ", b.balance_type.as_str());
    push_str(&mut w, " balance amount ");
    let q = debug_str(b.amount.as_str());
    push_str(&mut w, q.as_str());
    w
}

/// Pick the best available balance using fallback chain: ITBD > CLBD > first.
pub fn select_balance(balances: &[BalanceInput]) -> (r: (Dec, String, Vec<String>))
    ensures
        selection_ok(balances@, r.0, r.1@, crate::text::views(r.2@)),
        r.0.wf(),
        chosen_balance(balances@) matches Some(i) ==> 0 <= i < balances@.len(),
{
    let mut warnings: Vec<String> = Vec::new();
    if balances.len() == 0 {
        warnings.push(copy_str("no balance data available"));
        assert(crate::text::views(warnings@) =~= seq!["no balance data available"@]);
        return (dec_zero(), String::new(), warnings);
    }
    let idx = match find_type(balances, "ITBD") {
        Some(k) => k,
        None => match find_type(balances, "CLBD") {
            Some(k) => k,
            None => 0,
        },
    };
    assert(chosen_balance(balances@) == Some(idx as int));
    let b = &balances[idx];
    proof {
        if first_of_type(balances@, "ITBD"@, 0) is Some {
            lemma_first_of_type_is(balances@, "ITBD"@, 0);
        } else if first_of_type(balances@, "CLBD"@, 0) is Some {
            lemma_first_of_type_is(balances@, "CLBD"@, 0);
        }
    }
    match dec_parse(b.amount.as_str()) {
        Some(amt) => {
            if !str_eq(b.balance_type.as_str(), "ITBD") && !str_eq(b.balance_type.as_str(), "CLBD") {
                let mut w = concat("using ", b.balance_type.as_str());
                push_str(&mut w, " balance (ITBD/CLBD unavailable)");
                warnings.push(w);
            }
            proof {
                assert(crate::text::views(warnings@) =~= (if b.balance_type@ == "ITBD"@ || b.balance_type@ == "CLBD"@ {
                    Seq::<Seq<char>>::empty()
                } else {
                    seq!["using "@ + b.balance_type@ + " balance (ITBD/CLBD unavailable)"@]
                }));
            }
            (amt, copy_str(b.balance_type.as_str()), warnings)
        },
        None => {
            warnings.push(invalid_warning(b));
            assert(crate::text::views(warnings@) =~= seq![invalid_balance_warning(*b)]);
            (dec_zero(), copy_str(b.balance_type.as_str()), warnings)
        },
    }
}

// ---------------------------------------------------------------------------
// Forecast
// ---------------------------------------------------------------------------

/// A pending transaction's signed contribution: credits add, everything else
/// subtracts (the negated amount, as `Neg for Decimal` makes it).
pub open spec fn signed_amount(t: TxnInput, a: Dec) -> Dec {
    if t.credit_debit_indicator@ == "CRDT"@ {
        a
    } else {
        Dec { negative: !a.negative, ..a }
    }
}

/// The pending delta as computed with `Decimal` arithmetic.
pub open spec fn pending_delta_spec(txns: Seq<TxnInput>) -> Dec
    decreases txns.len(),
{
    if txns.len() == 0 {
        zero_spec()
    } else {
        let d = pending_delta_spec(txns.drop_last());
        match decimal_from_str(txns.last().amount@) {
            Some(a) => decimal_add(d, signed_amount(txns.last(), a)),
            None => d,
        }
    }
}

/// The pending delta as an exact value (times 10^28): credits minus debits.
pub open spec fn pending_value(txns: Seq<TxnInput>) -> int
    decreases txns.len(),
{
    if txns.len() == 0 {
        0
    } else {
        let d = pending_value(txns.drop_last());
        match decimal_from_str(txns.last().amount@) {
            Some(a) => if txns.last().credit_debit_indicator@ == "CRDT"@ {
                d + a.v()
            } else {
                d - a.v()
            },
            None => d,
        }
    }
}

/// The pending transactions whose amount parses.
pub open spec fn parsed_pending(txns: Seq<TxnInput>) -> Seq<TxnInput>
    decreases txns.len(),
{
    if txns.len() == 0 {
        Seq::<TxnInput>::empty()
    } else {
        let p = parsed_pending(txns.drop_last());
        if decimal_from_str(txns.last().amount@) is Some {
            p.push(txns.last())
        } else {
            p
        }
    }
}

/// The warnings for pending transactions whose amount does not parse.
pub open spec fn skip_warnings(txns: Seq<TxnInput>) -> Seq<Seq<char>>
    decreases txns.len(),
{
    if txns.len() == 0 {
        Seq::<Seq<char>>::empty()
    } else {
        let w = skip_warnings(txns.drop_last());
        if decimal_from_str(txns.last().amount@) is None {
            w.push(
                "skipping transaction "@ + txns.last().transaction_id@ + ": invalid amount "@
                    + debug_quoted(txns.last().amount@),
            )
        } else {
            w
        }
    }
}

/// `p` records the pending transaction `t`: absolute amount, description,
/// value date and direction.
pub open spec fn records_pending(p: PendingTxn, t: TxnInput) -> bool {
    &&& decimal_from_str(t.amount@) matches Some(a) && p.amount == (Dec { negative: false, ..a })
    &&& p.description@ == t.description@
    &&& p.value_date@ == t.value_date@
    &&& p.is_credit == (t.credit_debit_indicator@ == "CRDT"@)
}

/// The booked balance a forecast starts from: the chosen balance's amount,
/// zero when there is none or it does not parse.
pub open spec fn booked_amount(bs: Seq<BalanceInput>) -> Dec {
    match chosen_balance(bs) {
        Some(i) => match decimal_from_str(bs[i].amount@) {
            Some(a) => a,
            None => zero_spec(),
        },
        None => zero_spec(),
    }
}

/// Adding the pending transaction `t` to the running delta `d` is exact.
pub open spec fn pending_step_fits(d: Dec, t: TxnInput) -> bool {
    decimal_from_str(t.amount@) matches Some(a) ==> add_fits(d, signed_amount(t, a))
}

/// The amounts a forecast accepts: no `Decimal` addition it makes
/// overflows, neither in the running pending delta nor in the projected
/// balance.
pub open spec fn forecast_amounts_ok(bs: Seq<BalanceInput>, txns: Seq<TxnInput>) -> bool {
    &&& forall|i: int| 0 <= i < txns.len() ==> pending_step_fits(pending_delta_spec(txns.take(i)), #[trigger] txns[i])
    &&& parsed_pending(txns).len() > 0 ==> add_fits(booked_amount(bs), pending_delta_spec(txns))
}

fn skip_warning(t: &TxnInput) -> (r: String)
    ensures
        r@ == "skipping transaction "@ + t.transaction_id@ + ": invalid amount "@ + debug_quoted(t.amount@),
{
    let mut w = concat("skipping transaction ", t.transaction_id.as_str());
    push_str(&mut w, ": invalid amount ");
    let q = debug_str(t.amount.as_str());
    push_str(&mut w, q.as_str());
    w
}

/// Compute a projected balance from booked balance and pending transactions.
/// projected = booked + pending_delta where CRDT is positive and DBIT is negative.
pub fn forecast(balances: &[BalanceInput], pending_txns: &[TxnInput]) -> (r: AccountForecast)
    requires
        forecast_amounts_ok(balances@, pending_txns@),
    ensures
        r.account_uid@.len() == 0,
        r.iban@.len() == 0,
        r.bank_name@.len() == 0,
        r.currency@ == (if balances@.len() > 0 {
            balances@[0].currency@
        } else {
            Seq::<char>::empty()
        }),
        exists|w: Seq<Seq<char>>|
            selection_ok(balances@, r.booked_balance, r.booked_balance_type@, w) && crate::text::views(r.warnings@)
                == w + skip_warnings(pending_txns@),
        r.has_pending_data == (parsed_pending(pending_txns@).len() > 0),
        r.has_pending_data ==> r.pending_delta == pending_delta_spec(pending_txns@),
        r.has_pending_data ==> r.projected_balance == decimal_add(r.booked_balance, r.pending_delta),
        !r.has_pending_data ==> r.pending_delta == zero_spec() && r.projected_balance == r.booked_balance,
        r.pending_delta.v() == pending_value(pending_txns@),
        r.projected_balance.v() == r.booked_balance.v() + pending_value(pending_txns@),
        r.projected_balance.v() == r.booked_balance.v() + r.pending_delta.v(),
        r.pending_txns@.len() == parsed_pending(pending_txns@).len(),
        forall|k: int| 0 <= k < r.pending_txns@.len() ==> records_pending(#[trigger] r.pending_txns@[k], parsed_pending(pending_txns@)[k]),
{
    let (booked, bal_type, mut warnings) = select_balance(balances);
    let ghost sel_w = crate::text::views(warnings@);
    let currency = if balances.len() > 0 {
        copy_str(balances[0].currency.as_str())
    } else {
        String::new()
    };
    let mut pending_delta = dec_zero();
    let mut parsed: Vec<PendingTxn> = Vec::new();
    let mut i: usize = 0;
    while i < pending_txns.len()
        invariant
            i <= pending_txns@.len(),
            forecast_amounts_ok(balances@, pending_txns@),
            crate::text::views(warnings@) == sel_w + skip_warnings(pending_txns@.take(i as int)),
            pending_delta == pending_delta_spec(pending_txns@.take(i as int)),
            pending_delta.v() == pending_value(pending_txns@.take(i as int)),
            pending_delta.wf(),
            parsed@.len() == parsed_pending(pending_txns@.take(i as int)).len(),
            forall|k: int| 0 <= k < parsed@.len() ==> records_pending(#[trigger] parsed@[k], parsed_pending(pending_txns@.take(i as int))[k]),
        decreases pending_txns.len() - i,
    {
        proof {
            assert(pending_txns@.take(i + 1).drop_last() =~= pending_txns@.take(i as int));
        }
        let t = &pending_txns[i];
        match dec_parse(t.amount.as_str()) {
            None => {
                let ghost before = warnings@;
                warnings.push(skip_warning(t));
                assert(crate::text::views(warnings@) =~= crate::text::views(before).push(
                    "skipping transaction "@ + t.transaction_id@ + ": invalid amount "@ + debug_quoted(t.amount@)));
            },
            Some(amt) => {
                let is_credit = str_eq(t.credit_debit_indicator.as_str(), "CRDT");
                let signed = if is_credit {
                    amt
                } else {
                    dec_neg(amt)
                };
                proof {
                    assert(pending_txns@[i as int] == *t);
                    assert(pending_step_fits(pending_delta_spec(pending_txns@.take(i as int)), pending_txns@[i as int]));
                    assert(signed == signed_amount(*t, amt));
                    assert(signed.v() == (if is_credit { amt.v() } else { -amt.v() }));
                }
                pending_delta = dec_add(pending_delta, signed);
                let ghost before = parsed@;
                parsed.push(PendingTxn {
                    amount: dec_abs(amt),
                    description: copy_str(t.description.as_str()),
                    value_date: copy_str(t.value_date.as_str()),
                    is_credit,
                });
                proof {
                    let pp = parsed_pending(pending_txns@.take(i + 1));
                    assert(pp == parsed_pending(pending_txns@.take(i as int)).push(*t));
                    assert forall|k: int| 0 <= k < parsed@.len() implies records_pending(#[trigger] parsed@[k], pp[k]) by {
                        if k < before.len() {
                            assert(parsed@[k] == before[k]);
                        }
                    }
                }
            },
        }
        i = i + 1;
    }
    assert(pending_txns@.take(pending_txns@.len() as int) =~= pending_txns@);
    let has_pending = parsed.len() > 0;
    proof {
        assert(booked == booked_amount(balances@));
        if !has_pending {
            lemma_no_parsed_value(pending_txns@);
            assert(pending_delta == zero_spec());
        }
    }
    if !has_pending {
        let z = dec_zero();
        assert(pending_value(pending_txns@) == 0) by {
            lemma_no_parsed_value(pending_txns@);
        }
        AccountForecast {
            account_uid: String::new(),
            iban: String::new(),
            bank_name: String::new(),
            currency,
            booked_balance: booked,
            booked_balance_type: bal_type,
            pending_delta: z,
            projected_balance: booked,
            has_pending_data: false,
            pending_txns: Vec::new(),
            warnings,
        }
    } else {
        let projected = dec_add(booked, pending_delta);
        AccountForecast {
            account_uid: String::new(),
            iban: String::new(),
            bank_name: String::new(),
            currency,
            booked_balance: booked,
            booked_balance_type: bal_type,
            pending_delta,
            projected_balance: projected,
            has_pending_data: true,
            pending_txns: parsed,
            warnings,
        }
    }
}

proof fn lemma_no_parsed_value(txns: Seq<TxnInput>)
    requires
        parsed_pending(txns).len() == 0,
    ensures
        pending_value(txns) == 0,
        pending_delta_spec(txns) == zero_spec(),
    decreases txns.len(),
{
    if txns.len() > 0 {
        lemma_parsed_mono(txns.drop_last(), txns);
        lemma_no_parsed_value(txns.drop_last());
    }
}

proof fn lemma_parsed_mono(a: Seq<TxnInput>, b: Seq<TxnInput>)
    requires
        b.len() > 0,
        a == b.drop_last(),
    ensures
        parsed_pending(a).len() <= parsed_pending(b).len(),
{
}


/// Whether a forecast's amounts are ones it accepts.
#[verifier::rlimit(30)]
pub fn forecast_amounts_accepted(balances: &[BalanceInput], pending_txns: &[TxnInput]) -> (r: bool)
    ensures
        r == forecast_amounts_ok(balances@, pending_txns@),
{
    let mut delta = dec_zero();
    let mut any = false;
    let mut i: usize = 0;
    while i < pending_txns.len()
        invariant
            i <= pending_txns@.len(),
            delta == pending_delta_spec(pending_txns@.take(i as int)),
            delta.wf(),
            any == (parsed_pending(pending_txns@.take(i as int)).len() > 0),
            forall|k: int| 0 <= k < i ==> pending_step_fits(pending_delta_spec(pending_txns@.take(k)), #[trigger] pending_txns@[k]),
        decreases pending_txns.len() - i,
    {
        proof {
            assert(pending_txns@.take(i + 1).drop_last() =~= pending_txns@.take(i as int));
        }
        let t = &pending_txns[i];
        assert(pending_txns@[i as int] == *t);
        match dec_parse(t.amount.as_str()) {
            Some(a) => {
                let signed = if str_eq(t.credit_debit_indicator.as_str(), "CRDT") {
                    a
                } else {
                    dec_neg(a)
                };
                assert(signed == signed_amount(*t, a));
                if !add_fits_exec(delta, signed) {
                    assert(!pending_step_fits(pending_delta_spec(pending_txns@.take(i as int)), pending_txns@[i as int]));
                    return false;
                }
                let ghost prev = delta;
                delta = dec_add(delta, signed);
                any = true;
                assert(pending_step_fits(prev, pending_txns@[i as int]));
            },
            None => {
                assert(pending_step_fits(delta, pending_txns@[i as int]));
            },
        }
        i = i + 1;
    }
    assert(pending_txns@.take(pending_txns@.len() as int) =~= pending_txns@);
    if !any {
        return true;
    }
    let (booked, _ty, _w) = select_balance(balances);
    assert(booked == booked_amount(balances@));
    add_fits_exec(booked, delta)
}

/// `forecast` on the inputs it accepts: `None` when a sum it makes would
/// overflow.
pub fn forecast_checked(balances: &[BalanceInput], pending_txns: &[TxnInput]) -> (r: Option<AccountForecast>)
    ensures
        r is None <==> !forecast_amounts_ok(balances@, pending_txns@),
        r matches Some(f) ==> {
            &&& f.has_pending_data == (parsed_pending(pending_txns@).len() > 0)
            &&& f.has_pending_data ==> f.pending_delta == pending_delta_spec(pending_txns@)
            &&& f.has_pending_data ==> f.projected_balance == decimal_add(f.booked_balance, f.pending_delta)
            &&& !f.has_pending_data ==> f.pending_delta == zero_spec() && f.projected_balance == f.booked_balance
            &&& f.projected_balance.v() == f.booked_balance.v() + pending_value(pending_txns@)
            &&& exists|w: Seq<Seq<char>>|
                selection_ok(balances@, f.booked_balance, f.booked_balance_type@, w) && crate::text::views(f.warnings@)
                    == w + skip_warnings(pending_txns@)
        },
{
    if forecast_amounts_accepted(balances, pending_txns) {
        Some(forecast(balances, pending_txns))
    } else {
        None
    }
}

// ---------------------------------------------------------------------------
// Totals per currency
// ---------------------------------------------------------------------------

pub open spec fn booked_of(f: AccountForecast) -> Dec {
    f.booked_balance
}

pub open spec fn pending_of(f: AccountForecast) -> Dec {
    f.pending_delta
}

pub open spec fn projected_of(f: AccountForecast) -> Dec {
    f.projected_balance
}

/// One field of the forecasts in currency `c`, added up in order from zero
/// with `Decimal` addition.
pub open spec fn currency_sum(fs: Seq<AccountForecast>, c: Seq<char>, pick: spec_fn(AccountForecast) -> Dec) -> Dec
    decreases fs.len(),
{
    if fs.len() == 0 {
        zero_spec()
    } else {
        let s = currency_sum(fs.drop_last(), c, pick);
        if fs.last().currency@ == c {
            decimal_add(s, pick(fs.last()))
        } else {
            s
        }
    }
}

/// The exact sum (times 10^28) of one field of the forecasts in currency `c`.
pub open spec fn currency_value(fs: Seq<AccountForecast>, c: Seq<char>, pick: spec_fn(AccountForecast) -> Dec) -> int
    decreases fs.len(),
{
    if fs.len() == 0 {
        0
    } else {
        let s = currency_value(fs.drop_last(), c, pick);
        if fs.last().currency@ == c {
            s + pick(fs.last()).v()
        } else {
            s
        }
    }
}

/// Some forecast is in currency `c`.
pub open spec fn has_currency(fs: Seq<AccountForecast>, c: Seq<char>) -> bool {
    exists|k: int| 0 <= k < fs.len() && #[trigger] fs[k].currency@ == c
}

/// Some total is in currency `c`.
pub open spec fn has_total(r: Seq<CurrencyTotal>, c: Seq<char>) -> bool {
    exists|i: int| 0 <= i < r.len() && #[trigger] r[i].currency@ == c
}

/// Adding the forecast `f` to the totals of the forecasts `pre` before it is
/// exact, in each of the three fields.
pub open spec fn totals_step_fits(pre: Seq<AccountForecast>, x: AccountForecast) -> bool {
    let c = x.currency@;
    &&& add_fits(currency_sum(pre, c, |f: AccountForecast| booked_of(f)), x.booked_balance)
    &&& add_fits(currency_sum(pre, c, |f: AccountForecast| pending_of(f)), x.pending_delta)
    &&& add_fits(currency_sum(pre, c, |f: AccountForecast| projected_of(f)), x.projected_balance)
}

/// The forecasts that totals accept: each amount a `Decimal` value, and no
/// `Decimal` addition of the totals overflows.
pub open spec fn totals_accept(fs: Seq<AccountForecast>) -> bool {
    forall|k: int| 0 <= k < fs.len() ==> #[trigger] accepted_at(fs, k)
}

/// What `totals_accept` asks of the forecast at `k`.
pub open spec fn accepted_at(fs: Seq<AccountForecast>, k: int) -> bool {
    &&& fs[k].booked_balance.wf()
    &&& fs[k].pending_delta.wf()
    &&& fs[k].projected_balance.wf()
    &&& totals_step_fits(fs.take(k), fs[k])
}

/// `r` is the list of totals of `fs`: one entry per currency that occurs, in
/// ascending order of the currency code, each field the in-order sum.
pub open spec fn totals_of(fs: Seq<AccountForecast>, r: Seq<CurrencyTotal>) -> bool {
    &&& forall|i: int, j: int| 0 <= i < j < r.len() ==> lex_order(#[trigger] r[i].currency@, #[trigger] r[j].currency@) < 0
    &&& forall|i: int| 0 <= i < r.len() ==> has_currency(fs, #[trigger] r[i].currency@)
    &&& forall|k: int| 0 <= k < fs.len() ==> has_total(r, #[trigger] fs[k].currency@)
    &&& forall|i: int| 0 <= i < r.len() ==> {
        let c = #[trigger] r[i].currency@;
        &&& r[i].total_booked == currency_sum(fs, c, |f: AccountForecast| booked_of(f))
        &&& r[i].total_pending == currency_sum(fs, c, |f: AccountForecast| pending_of(f))
        &&& r[i].total_projected == currency_sum(fs, c, |f: AccountForecast| projected_of(f))
        &&& r[i].total_booked.v() == currency_value(fs, c, |f: AccountForecast| booked_of(f))
        &&& r[i].total_pending.v() == currency_value(fs, c, |f: AccountForecast| pending_of(f))
        &&& r[i].total_projected.v() == currency_value(fs, c, |f: AccountForecast| projected_of(f))
    }
}

proof fn lemma_currency_sum_absent(fs: Seq<AccountForecast>, c: Seq<char>, pick: spec_fn(AccountForecast) -> Dec)
    requires
        !has_currency(fs, c),
    ensures
        currency_sum(fs, c, pick) == zero_spec(),
        currency_value(fs, c, pick) == 0,
    decreases fs.len(),
{
    if fs.len() > 0 {
        let p = fs.drop_last();
        assert(!has_currency(p, c)) by {
            if has_currency(p, c) {
                let k = choose|k: int| 0 <= k < p.len() && #[trigger] p[k].currency@ == c;
                assert(fs[k].currency@ == c);
            }
        }
        lemma_currency_sum_absent(p, c, pick);
        assert(fs[fs.len() - 1].currency@ != c);
    }
}

/// Every total is a `Decimal` value.
pub open spec fn totals_wf(r: Seq<CurrencyTotal>) -> bool {
    forall|i: int| 0 <= i < r.len() ==> {
        &&& (#[trigger] r[i]).total_booked.wf()
        &&& r[i].total_pending.wf()
        &&& r[i].total_projected.wf()
    }
}

proof fn lemma_sum_push(pre: Seq<AccountForecast>, f: AccountForecast, c: Seq<char>, pick: spec_fn(AccountForecast) -> Dec)
    ensures
        currency_sum(pre.push(f), c, pick) == (if f.currency@ == c {
            decimal_add(currency_sum(pre, c, pick), pick(f))
        } else {
            currency_sum(pre, c, pick)
        }),
        currency_value(pre.push(f), c, pick) == (if f.currency@ == c {
            currency_value(pre, c, pick) + pick(f).v()
        } else {
            currency_value(pre, c, pick)
        }),
{
    assert(pre.push(f).drop_last() =~= pre);
}

proof fn lemma_has_currency_push(pre: Seq<AccountForecast>, f: AccountForecast, c: Seq<char>)
    ensures
        has_currency(pre.push(f), c) == (has_currency(pre, c) || f.currency@ == c),
{
    let post = pre.push(f);
    if has_currency(pre, c) {
        let q = choose|q: int| 0 <= q < pre.len() && #[trigger] pre[q].currency@ == c;
        assert(post[q] == pre[q]);
    }
    if f.currency@ == c {
        assert(post[pre.len() as int] == f);
    }
    if has_currency(post, c) {
        let q = choose|q: int| 0 <= q < post.len() && #[trigger] post[q].currency@ == c;
        if q < pre.len() {
            assert(post[q] == pre[q]);
        }
    }
}

/// The fields of `nt` are those of `ot` with the amounts of `f` added.
pub open spec fn adds_forecast(nt: CurrencyTotal, ot: CurrencyTotal, f: AccountForecast) -> bool {
    &&& nt.currency@ == ot.currency@
    &&& nt.total_booked == decimal_add(ot.total_booked, f.booked_balance)
    &&& nt.total_pending == decimal_add(ot.total_pending, f.pending_delta)
    &&& nt.total_projected == decimal_add(ot.total_projected, f.projected_balance)
    &&& nt.total_booked.v() == ot.total_booked.v() + f.booked_balance.v()
    &&& nt.total_pending.v() == ot.total_pending.v() + f.pending_delta.v()
    &&& nt.total_projected.v() == ot.total_projected.v() + f.projected_balance.v()
}

proof fn lemma_totals_update(
    pre: Seq<AccountForecast>,
    f: AccountForecast,
    old_r: Seq<CurrencyTotal>,
    new_r: Seq<CurrencyTotal>,
    p: int,
)
    requires
        totals_of(pre, old_r),
        0 <= p < old_r.len(),
        old_r[p].currency@ == f.currency@,
        new_r == old_r.update(p, new_r[p]),
        adds_forecast(new_r[p], old_r[p], f),
    ensures
        totals_of(pre.push(f), new_r),
{
    let post = pre.push(f);
    let c = f.currency@;
    assert forall|i: int| 0 <= i < new_r.len() implies has_currency(post, #[trigger] new_r[i].currency@) by {
        assert(old_r[i].currency@ == new_r[i].currency@);
        lemma_has_currency_push(pre, f, new_r[i].currency@);
    }
    assert forall|q: int| 0 <= q < post.len() implies has_total(new_r, #[trigger] post[q].currency@) by {
        if q < pre.len() {
            assert(post[q] == pre[q]);
            let i = choose|i: int| 0 <= i < old_r.len() && #[trigger] old_r[i].currency@ == pre[q].currency@;
            assert(new_r[i].currency@ == old_r[i].currency@);
        } else {
            assert(new_r[p].currency@ == post[q].currency@);
        }
    }
    assert forall|i: int, j: int| 0 <= i < j < new_r.len() implies lex_order(#[trigger] new_r[i].currency@, #[trigger] new_r[j].currency@) < 0 by {
        assert(old_r[i].currency@ == new_r[i].currency@);
        assert(old_r[j].currency@ == new_r[j].currency@);
    }
    assert forall|i: int| 0 <= i < new_r.len() implies {
        let cc = #[trigger] new_r[i].currency@;
        &&& new_r[i].total_booked == currency_sum(post, cc, |f: AccountForecast| booked_of(f))
        &&& new_r[i].total_pending == currency_sum(post, cc, |f: AccountForecast| pending_of(f))
        &&& new_r[i].total_projected == currency_sum(post, cc, |f: AccountForecast| projected_of(f))
        &&& new_r[i].total_booked.v() == currency_value(post, cc, |f: AccountForecast| booked_of(f))
        &&& new_r[i].total_pending.v() == currency_value(post, cc, |f: AccountForecast| pending_of(f))
        &&& new_r[i].total_projected.v() == currency_value(post, cc, |f: AccountForecast| projected_of(f))
    } by {
        let cc = new_r[i].currency@;
        assert(old_r[i].currency@ == cc);
        lemma_sum_push(pre, f, cc, |f: AccountForecast| booked_of(f));
        lemma_sum_push(pre, f, cc, |f: AccountForecast| pending_of(f));
        lemma_sum_push(pre, f, cc, |f: AccountForecast| projected_of(f));
        if i != p && cc == c {
            lemma_lex_zero(old_r[i].currency@, old_r[p].currency@);
            if i < p {
                assert(lex_order(old_r[i].currency@, old_r[p].currency@) < 0);
            } else {
                assert(lex_order(old_r[p].currency@, old_r[i].currency@) < 0);
            }
        }
    }
}

#[verifier::spinoff_prover]
#[verifier::rlimit(40)]
proof fn lemma_totals_insert(
    pre: Seq<AccountForecast>,
    f: AccountForecast,
    old_r: Seq<CurrencyTotal>,
    nt: CurrencyTotal,
    p: int,
)
    requires
        totals_of(pre, old_r),
        0 <= p <= old_r.len(),
        forall|i: int| 0 <= i < p ==> lex_order(#[trigger] old_r[i].currency@, f.currency@) < 0,
        p < old_r.len() ==> lex_order(old_r[p].currency@, f.currency@) > 0,
        nt.currency@ == f.currency@,
        nt.total_booked == decimal_add(zero_spec(), f.booked_balance),
        nt.total_pending == decimal_add(zero_spec(), f.pending_delta),
        nt.total_projected == decimal_add(zero_spec(), f.projected_balance),
        nt.total_booked.v() == f.booked_balance.v(),
        nt.total_pending.v() == f.pending_delta.v(),
        nt.total_projected.v() == f.projected_balance.v(),
    ensures
        totals_of(pre.push(f), old_r.insert(p, nt)),
        !has_currency(pre, f.currency@),
{
    let post = pre.push(f);
    let new_r = old_r.insert(p, nt);
    let c = f.currency@;
    if p < old_r.len() {
        lemma_lex_antisym(old_r[p].currency@, c);
    }
    // no earlier total has the new currency, so none of the earlier forecasts does
    assert forall|i: int| 0 <= i < old_r.len() implies #[trigger] old_r[i].currency@ != c by {
        lemma_lex_zero(old_r[i].currency@, c);
        if i > p {
            assert(lex_order(old_r[p].currency@, old_r[i].currency@) < 0);
            if old_r[i].currency@ == c {
                lemma_lex_zero(old_r[p].currency@, c);
            }
        }
    }
    assert(!has_currency(pre, c)) by {
        if has_currency(pre, c) {
            let q = choose|q: int| 0 <= q < pre.len() && #[trigger] pre[q].currency@ == c;
            let i = choose|i: int| 0 <= i < old_r.len() && #[trigger] old_r[i].currency@ == pre[q].currency@;
            assert(old_r[i].currency@ != c);
        }
    }
    lemma_currency_sum_absent(pre, c, |f: AccountForecast| booked_of(f));
    lemma_currency_sum_absent(pre, c, |f: AccountForecast| pending_of(f));
    lemma_currency_sum_absent(pre, c, |f: AccountForecast| projected_of(f));
    assert forall|i: int, j: int| 0 <= i < j < new_r.len() implies lex_order(#[trigger] new_r[i].currency@, #[trigger] new_r[j].currency@) < 0 by {
        if j < p {
            assert(new_r[i] == old_r[i] && new_r[j] == old_r[j]);
        } else if j == p {
            assert(new_r[i] == old_r[i]);
        } else if i < p {
            assert(new_r[i] == old_r[i] && new_r[j] == old_r[j - 1]);
            if j - 1 > p {
                assert(lex_order(old_r[p].currency@, old_r[j - 1].currency@) < 0);
                lemma_lex_trans(c, old_r[p].currency@, old_r[j - 1].currency@);
            }
            lemma_lex_trans(old_r[i].currency@, c, old_r[j - 1].currency@);
        } else if i == p {
            assert(new_r[j] == old_r[j - 1]);
            if j - 1 > p {
                assert(lex_order(old_r[p].currency@, old_r[j - 1].currency@) < 0);
                lemma_lex_trans(c, old_r[p].currency@, old_r[j - 1].currency@);
            }
        } else {
            assert(new_r[i] == old_r[i - 1] && new_r[j] == old_r[j - 1]);
        }
    }
    assert forall|i: int| 0 <= i < new_r.len() implies has_currency(post, #[trigger] new_r[i].currency@) by {
        lemma_has_currency_push(pre, f, new_r[i].currency@);
        if i < p {
            assert(new_r[i] == old_r[i]);
        } else if i > p {
            assert(new_r[i] == old_r[i - 1]);
        }
    }
    assert forall|q: int| 0 <= q < post.len() implies has_total(new_r, #[trigger] post[q].currency@) by {
        if q < pre.len() {
            assert(post[q] == pre[q]);
            let oi = choose|oi: int| 0 <= oi < old_r.len() && #[trigger] old_r[oi].currency@ == pre[q].currency@;
            if oi < p {
                assert(new_r[oi] == old_r[oi]);
            } else {
                assert(new_r[oi + 1] == old_r[oi]);
            }
        } else {
            assert(new_r[p] == nt);
        }
    }
    assert forall|i: int| 0 <= i < new_r.len() implies {
        let cc = #[trigger] new_r[i].currency@;
        &&& new_r[i].total_booked == currency_sum(post, cc, |f: AccountForecast| booked_of(f))
        &&& new_r[i].total_pending == currency_sum(post, cc, |f: AccountForecast| pending_of(f))
        &&& new_r[i].total_projected == currency_sum(post, cc, |f: AccountForecast| projected_of(f))
        &&& new_r[i].total_booked.v() == currency_value(post, cc, |f: AccountForecast| booked_of(f))
        &&& new_r[i].total_pending.v() == currency_value(post, cc, |f: AccountForecast| pending_of(f))
        &&& new_r[i].total_projected.v() == currency_value(post, cc, |f: AccountForecast| projected_of(f))
    } by {
        let cc = new_r[i].currency@;
        lemma_sum_push(pre, f, cc, |f: AccountForecast| booked_of(f));
        lemma_sum_push(pre, f, cc, |f: AccountForecast| pending_of(f));
        lemma_sum_push(pre, f, cc, |f: AccountForecast| projected_of(f));
        if i < p {
            assert(new_r[i] == old_r[i]);
        } else if i > p {
            assert(new_r[i] == old_r[i - 1]);
        } else {
            assert(new_r[i] == nt);
            assert(cc == c);
        }
    }
}

/// Add one forecast to the sorted totals.
fn add_forecast(totals: &mut Vec<CurrencyTotal>, f: &AccountForecast, Ghost(pre): Ghost<Seq<AccountForecast>>)
    requires
        totals_of(pre, old(totals)@),
        totals_wf(old(totals)@),
        f.booked_balance.wf(),
        f.pending_delta.wf(),
        f.projected_balance.wf(),
        totals_step_fits(pre, *f),
    ensures
        totals_of(pre.push(*f), final(totals)@),
        totals_wf(final(totals)@),
{
    let ghost n = pre.len() as int;
    let ghost old_r = totals@;
    // first position whose currency is not below f's
    let mut p: usize = 0;
    while p < totals.len() && str_order(totals[p].currency.as_str(), f.currency.as_str()) < 0
        invariant
            p <= totals@.len(),
            totals@ == old_r,
            forall|i: int| 0 <= i < p ==> lex_order(#[trigger] totals@[i].currency@, f.currency@) < 0,
        decreases totals.len() - p,
    {
        p = p + 1;
    }
    let found = p < totals.len() && str_order(totals[p].currency.as_str(), f.currency.as_str()) == 0;
    if found {
        let ot = &totals[p];
        proof {
            lemma_lex_zero(ot.currency@, f.currency@);
            assert(old_r[p as int].currency@ == f.currency@);
        }
        let nt = CurrencyTotal {
            currency: copy_str(ot.currency.as_str()),
            total_booked: dec_add(ot.total_booked, f.booked_balance),
            total_pending: dec_add(ot.total_pending, f.pending_delta),
            total_projected: dec_add(ot.total_projected, f.projected_balance),
        };
        totals[p] = nt;
        proof {
            lemma_totals_update(pre, *f, old_r, totals@, p as int);
            assert forall|i: int| 0 <= i < totals@.len() implies {
                &&& (#[trigger] totals@[i]).total_booked.wf()
                &&& totals@[i].total_pending.wf()
                &&& totals@[i].total_projected.wf()
            } by {
                if i != p {
                    assert(totals@[i] == old_r[i]);
                }
            }
        }
    } else {
        let z = dec_zero();
        proof {
            if p < old_r.len() {
                lemma_lex_zero(old_r[p as int].currency@, f.currency@);
            }
            lemma_zero_add_fits(f.booked_balance);
            lemma_zero_add_fits(f.pending_delta);
            lemma_zero_add_fits(f.projected_balance);
        }
        let nt = CurrencyTotal {
            currency: copy_str(f.currency.as_str()),
            total_booked: dec_add(z, f.booked_balance),
            total_pending: dec_add(z, f.pending_delta),
            total_projected: dec_add(z, f.projected_balance),
        };
        totals.insert(p, nt);
        proof {
            lemma_totals_insert(pre, *f, old_r, nt, p as int);
            assert forall|i: int| 0 <= i < totals@.len() implies {
                &&& (#[trigger] totals@[i]).total_booked.wf()
                &&& totals@[i].total_pending.wf()
                &&& totals@[i].total_projected.wf()
            } by {
                if i < p {
                    assert(totals@[i] == old_r[i]);
                } else if i > p {
                    assert(totals@[i] == old_r[i - 1]);
                }
            }
        }
    }
}

/// Whether adding `f` to the totals of `pre` is exact.
fn step_fits_exec(totals: &Vec<CurrencyTotal>, f: &AccountForecast, Ghost(pre): Ghost<Seq<AccountForecast>>) -> (r: bool)
    requires
        totals_of(pre, totals@),
        totals_wf(totals@),
        f.booked_balance.wf(),
        f.pending_delta.wf(),
        f.projected_balance.wf(),
    ensures
        r == totals_step_fits(pre, *f),
{
    let mut p: usize = 0;
    while p < totals.len()
        invariant
            p <= totals@.len(),
            totals_of(pre, totals@),
            totals_wf(totals@),
            f.booked_balance.wf(),
            f.pending_delta.wf(),
            f.projected_balance.wf(),
            forall|i: int| 0 <= i < p ==> (#[trigger] totals@[i]).currency@ != f.currency@,
        decreases totals.len() - p,
    {
        if str_eq(totals[p].currency.as_str(), f.currency.as_str()) {
            let t = &totals[p];
            assert(totals@[p as int] == *t);
            assert(t.total_booked.wf() && t.total_pending.wf() && t.total_projected.wf());
            assert(totals@[p as int].currency@ == f.currency@);
            let a = add_fits_exec(t.total_booked, f.booked_balance);
            let b = add_fits_exec(t.total_pending, f.pending_delta);
            let c = add_fits_exec(t.total_projected, f.projected_balance);
            return a && b && c;
        }
        p = p + 1;
    }
    proof {
        let c = f.currency@;
        assert(!has_currency(pre, c)) by {
            if has_currency(pre, c) {
                let k = choose|k: int| 0 <= k < pre.len() && #[trigger] pre[k].currency@ == c;
                assert(has_total(totals@, pre[k].currency@));
            }
        }
        lemma_currency_sum_absent(pre, c, |f: AccountForecast| booked_of(f));
        lemma_currency_sum_absent(pre, c, |f: AccountForecast| pending_of(f));
        lemma_currency_sum_absent(pre, c, |f: AccountForecast| projected_of(f));
        lemma_zero_add_fits(f.booked_balance);
        lemma_zero_add_fits(f.pending_delta);
        lemma_zero_add_fits(f.projected_balance);
    }
    true
}

/// Whether the forecasts are ones that totals accept.
pub fn totals_accepted(forecasts: &[AccountForecast]) -> (r: bool)
    ensures
        r == totals_accept(forecasts@),
{
    let ghost fs = forecasts@;
    let mut totals: Vec<CurrencyTotal> = Vec::new();
    let mut k: usize = 0;
    assert(fs.take(0) =~= Seq::<AccountForecast>::empty());
    while k < forecasts.len()
        invariant
            k <= fs.len(),
            fs == forecasts@,
            totals_of(fs.take(k as int), totals@),
            totals_wf(totals@),
            forall|j: int| 0 <= j < k ==> #[trigger] accepted_at(fs, j),
        decreases forecasts.len() - k,
    {
        let f = &forecasts[k];
        assert(fs[k as int] == *f);
        if !(dec_wf(&f.booked_balance) && dec_wf(&f.pending_delta) && dec_wf(&f.projected_balance)) {
            assert(!accepted_at(fs, k as int));
            return false;
        }
        if !step_fits_exec(&totals, f, Ghost(fs.take(k as int))) {
            assert(!accepted_at(fs, k as int));
            return false;
        }
        proof {
            assert(fs.take(k + 1) =~= fs.take(k as int).push(*f));
            assert(accepted_at(fs, k as int));
        }
        add_forecast(&mut totals, f, Ghost(fs.take(k as int)));
        k = k + 1;
    }
    true
}

/// Group account forecasts by currency and sum their totals.
pub fn aggregate_by_currency(forecasts: &[AccountForecast]) -> (r: Vec<CurrencyTotal>)
    requires
        totals_accept(forecasts@),
    ensures
        totals_of(forecasts@, r@),
        totals_wf(r@),
{
    let ghost fs = forecasts@;
    let mut totals: Vec<CurrencyTotal> = Vec::new();
    let mut k: usize = 0;
    assert(fs.take(0) =~= Seq::<AccountForecast>::empty());
    while k < forecasts.len()
        invariant
            k <= fs.len(),
            fs == forecasts@,
            totals_accept(fs),
            totals_of(fs.take(k as int), totals@),
            totals_wf(totals@),
        decreases forecasts.len() - k,
    {
        let f = &forecasts[k];
        proof {
            assert(fs.take(k + 1) =~= fs.take(k as int).push(*f));
            assert(fs[k as int] == *f);
            assert(accepted_at(fs, k as int));
        }
        add_forecast(&mut totals, f, Ghost(fs.take(k as int)));
        k = k + 1;
    }
    assert(fs.take(fs.len() as int) =~= fs);
    totals
}

/// The forecast's projection is its booked balance plus its pending delta.
pub open spec fn projection_consistent(f: AccountForecast) -> bool {
    f.projected_balance.v() == f.booked_balance.v() + f.pending_delta.v()
}

proof fn lemma_currency_value_split(fs: Seq<AccountForecast>, c: Seq<char>)
    requires
        forall|k: int| 0 <= k < fs.len() ==> projection_consistent(#[trigger] fs[k]),
    ensures
        currency_value(fs, c, |f: AccountForecast| projected_of(f)) == currency_value(
            fs,
            c,
            |f: AccountForecast| booked_of(f),
        ) + currency_value(fs, c, |f: AccountForecast| pending_of(f)),
    decreases fs.len(),
{
    if fs.len() > 0 {
        let p = fs.drop_last();
        assert forall|k: int| 0 <= k < p.len() implies projection_consistent(#[trigger] p[k]) by {
            assert(p[k] == fs[k]);
        }
        lemma_currency_value_split(p, c);
        assert(projection_consistent(fs[fs.len() - 1]));
    }
}

/// Per currency, the projected total is the booked total plus the pending
/// total, when each forecast projects its booked balance plus its pending
/// delta (as `forecast` makes them).
pub proof fn law_totals_consistent(fs: Seq<AccountForecast>, r: Seq<CurrencyTotal>)
    requires
        totals_of(fs, r),
        forall|k: int| 0 <= k < fs.len() ==> projection_consistent(#[trigger] fs[k]),
    ensures
        forall|i: int| 0 <= i < r.len() ==> (#[trigger] r[i]).total_projected.v() == r[i].total_booked.v()
            + r[i].total_pending.v(),
{
    assert forall|i: int| 0 <= i < r.len() implies (#[trigger] r[i]).total_projected.v() == r[i].total_booked.v()
        + r[i].total_pending.v() by {
        lemma_currency_value_split(fs, r[i].currency@);
    }
}

/// Every currency of the forecasts has exactly one total.
pub proof fn law_totals_one_per_currency(fs: Seq<AccountForecast>, r: Seq<CurrencyTotal>)
    requires
        totals_of(fs, r),
    ensures
        forall|i: int, j: int| 0 <= i < r.len() && 0 <= j < r.len() && i != j ==> (#[trigger] r[i]).currency@
            != (#[trigger] r[j]).currency@,
        forall|k: int| 0 <= k < fs.len() ==> has_total(r, #[trigger] fs[k].currency@),
{
    assert forall|i: int, j: int| 0 <= i < r.len() && 0 <= j < r.len() && i != j implies (#[trigger] r[i]).currency@
        != (#[trigger] r[j]).currency@ by {
        if i < j {
            assert(lex_order(r[i].currency@, r[j].currency@) < 0);
            lemma_lex_zero(r[i].currency@, r[j].currency@);
        } else {
            assert(lex_order(r[j].currency@, r[i].currency@) < 0);
            lemma_lex_zero(r[j].currency@, r[i].currency@);
        }
    }
}

} // verus!
