use vstd::prelude::*;

use crate::dec::{
    abs_int, add_fits, add_fits_exec, dec_add, dec_display, dec_div, dec_from_u32, dec_is_zero, dec_mul,
    dec_parse, dec_round_dp, dec_sub, dec_zero, decimal_add, decimal_display, decimal_div, decimal_from_str,
    decimal_mul, decimal_round_dp, decimal_sub, lemma_at_mono, lemma_at_shift, lemma_pow10_pos,
    lemma_zero_add_fits, pow10, safe_bound, sub_fits, zero_spec, Dec,
};
use crate::models::TransactionRecord;
use crate::summary::{
    aligned_magnitude, bucket_key, bucket_key_spec, hundred, lemma_hundred_ratio, lemma_nonzero_v, percentage_defined,
    percentage_spec, valid_date, year_text, ymd_parse, CategoryAmount, CoverageInfo, Date,
    Period, PeriodSummary, SummaryInput,
};
use crate::text::{
    concat, copy_str, first_chars, i64_from_str, i64_to_string, int_digits, pad_left, pad_left_spec,
    pad_right, pad_right_spec, parse_i64, push_str, repeat, repeat_char, str_eq, take_chars,
};
use crate::ui::ReportPeriod;

verus! {

// ---------------------------------------------------------------------------
// What the report reads
// ---------------------------------------------------------------------------

/// A booked transaction as the spending summary reads it.
pub open spec fn is_summary_input(i: SummaryInput, t: TransactionRecord) -> bool {
    &&& i.booking_date@ == t.booking_date@
    &&& i.amount@ == t.amount@
    &&& i.currency@ == t.currency@
    &&& i.credit_debit_indicator@ == t.credit_debit_indicator@
    &&& i.category@ == t.category@
}

pub open spec fn booked(t: TransactionRecord) -> bool {
    !crate::models::is_pending_spec(t)
}

/// The positions of the first `n` transactions that are booked.
pub open spec fn booked_positions(txns: Seq<TransactionRecord>, n: int) -> Seq<int>
    decreases n,
{
    if n <= 0 {
        Seq::<int>::empty()
    } else if booked(txns[n - 1]) {
        booked_positions(txns, n - 1).push(n - 1)
    } else {
        booked_positions(txns, n - 1)
    }
}

/// The booked transactions of an account, in order, as summary inputs.
pub fn report_inputs(txns: &[TransactionRecord]) -> (r: Vec<SummaryInput>)
    ensures
        r@.len() == booked_positions(txns@, txns@.len() as int).len(),
        forall|k: int|
            0 <= k < r@.len() ==> is_summary_input(
                #[trigger] r@[k],
                txns@[booked_positions(txns@, txns@.len() as int)[k]],
            ),
{
    let mut out: Vec<SummaryInput> = Vec::new();
    let mut i: usize = 0;
    while i < txns.len()
        invariant
            i <= txns@.len(),
            out@.len() == booked_positions(txns@, i as int).len(),
            forall|k: int|
                0 <= k < out@.len() ==> is_summary_input(
                    #[trigger] out@[k],
                    txns@[booked_positions(txns@, i as int)[k]],
                ),
        decreases txns.len() - i,
    {
        let t = &txns[i];
        if !t.is_pending() {
            let ghost before = out@;
            out.push(SummaryInput {
                booking_date: copy_str(t.booking_date.as_str()),
                amount: copy_str(t.amount.as_str()),
                currency: copy_str(t.currency.as_str()),
                credit_debit_indicator: copy_str(t.credit_debit_indicator.as_str()),
                category: copy_str(t.category.as_str()),
            });
            proof {
                assert forall|k: int| 0 <= k < out@.len() implies is_summary_input(
                    #[trigger] out@[k],
                    txns@[booked_positions(txns@, i + 1)[k]],
                ) by {
                    if k < before.len() {
                        assert(out@[k] == before[k]);
                    }
                }
            }
        }
        i = i + 1;
    }
    out
}

// ---------------------------------------------------------------------------
// Income per period
// ---------------------------------------------------------------------------

/// The credits of one period key.
#[derive(Debug, Clone)]
pub struct PeriodIncome {
    pub key: String,
    pub amount: Dec,
}

/// A credit whose booking date has a key for the period.
pub open spec fn income_counted(inp: SummaryInput, period: Period) -> bool {
    inp.credit_debit_indicator@ == "CRDT"@ && bucket_key_spec(inp.booking_date@, period) is Ok
}

pub open spec fn income_key(inp: SummaryInput, period: Period) -> Seq<char> {
    bucket_key_spec(inp.booking_date@, period)->Ok_0
}

/// A credit's amount; zero when it does not parse.
pub open spec fn income_amount(inp: SummaryInput) -> Dec {
    match decimal_from_str(inp.amount@) {
        Some(d) => d,
        None => zero_spec(),
    }
}

/// The credits of period `key` among the first `n` inputs, added in order
/// starting from zero.
pub open spec fn income_sum(inputs: Seq<SummaryInput>, period: Period, key: Seq<char>, n: int) -> Dec
    decreases n,
{
    if n <= 0 {
        zero_spec()
    } else {
        let acc = income_sum(inputs, period, key, n - 1);
        let inp = inputs[n - 1];
        if income_counted(inp, period) && income_key(inp, period) == key {
            decimal_add(acc, income_amount(inp))
        } else {
            acc
        }
    }
}

/// Some credit among the first `n` inputs falls in period `key`.
pub open spec fn income_has(inputs: Seq<SummaryInput>, period: Period, key: Seq<char>, n: int) -> bool {
    exists|q: int| 0 <= q < n && #[trigger] income_counted(inputs[q], period) && income_key(inputs[q], period) == key
}

/// Adding credit `q` to the credits of its period before it is exact.
pub open spec fn income_step_fits(inputs: Seq<SummaryInput>, period: Period, q: int) -> bool {
    income_counted(inputs[q], period) ==> add_fits(
        income_sum(inputs, period, income_key(inputs[q], period), q),
        income_amount(inputs[q]),
    )
}

/// The credits add up per period without overflow.
pub open spec fn income_amounts_ok(inputs: Seq<SummaryInput>, period: Period) -> bool {
    forall|q: int| 0 <= q < inputs.len() ==> #[trigger] income_step_fits(inputs, period, q)
}

/// The income of period `key` in a list of incomes.
pub open spec fn income_of(incs: Seq<PeriodIncome>, key: Seq<char>) -> Option<Dec>
    decreases incs.len(),
{
    if incs.len() == 0 {
        None
    } else if incs[0].key@ == key {
        Some(incs[0].amount)
    } else {
        income_of(incs.drop_first(), key)
    }
}

/// One entry per period with credits, each with the sum of its credits.
pub open spec fn incomes_ok(inputs: Seq<SummaryInput>, period: Period, incs: Seq<PeriodIncome>, n: int) -> bool {
    &&& forall|a: int, b: int| 0 <= a < b < incs.len() ==> (#[trigger] incs[a]).key@ != (#[trigger] incs[b]).key@
    &&& forall|a: int|
        0 <= a < incs.len() ==> {
            let e = #[trigger] incs[a];
            &&& e.amount.wf()
            &&& income_has(inputs, period, e.key@, n)
            &&& e.amount == income_sum(inputs, period, e.key@, n)
        }
    &&& forall|q: int|
        0 <= q < n && #[trigger] income_counted(inputs[q], period) ==> exists|a: int|
            0 <= a < incs.len() && (#[trigger] incs[a]).key@ == income_key(inputs[q], period)
}

proof fn lemma_income_of(incs: Seq<PeriodIncome>, a: int, key: Seq<char>)
    requires
        forall|x: int, y: int| 0 <= x < y < incs.len() ==> (#[trigger] incs[x]).key@ != (#[trigger] incs[y]).key@,
        0 <= a < incs.len(),
        incs[a].key@ == key,
    ensures
        income_of(incs, key) == Some(incs[a].amount),
    decreases incs.len(),
{
    if a > 0 {
        let t = incs.drop_first();
        assert(incs[0].key@ != key) by {
            assert(incs[0].key@ != incs[a].key@);
        }
        assert forall|x: int, y: int| 0 <= x < y < t.len() implies (#[trigger] t[x]).key@ != (#[trigger] t[y]).key@ by {
            assert(t[x] == incs[x + 1] && t[y] == incs[y + 1]);
        }
        assert(t[a - 1] == incs[a]);
        lemma_income_of(t, a - 1, key);
    }
}

proof fn lemma_income_none(incs: Seq<PeriodIncome>, key: Seq<char>)
    requires
        forall|a: int| 0 <= a < incs.len() ==> (#[trigger] incs[a]).key@ != key,
    ensures
        income_of(incs, key) is None,
    decreases incs.len(),
{
    if incs.len() > 0 {
        let t = incs.drop_first();
        assert forall|a: int| 0 <= a < t.len() implies (#[trigger] t[a]).key@ != key by {
            assert(t[a] == incs[a + 1]);
        }
        lemma_income_none(t, key);
    }
}

fn find_income(incs: &Vec<PeriodIncome>, key: &str) -> (r: Option<usize>)
    ensures
        match r {
            Some(a) => a < incs@.len() && incs@[a as int].key@ == key@,
            None => forall|a: int| 0 <= a < incs@.len() ==> (#[trigger] incs@[a]).key@ != key@,
        },
{
    let mut a: usize = 0;
    while a < incs.len()
        invariant
            a <= incs@.len(),
            forall|b: int| 0 <= b < a ==> (#[trigger] incs@[b]).key@ != key@,
        decreases incs.len() - a,
    {
        if str_eq(incs[a].key.as_str(), key) {
            return Some(a);
        }
        a = a + 1;
    }
    None
}

/// The credits per period key, in the order the keys first occur.
pub fn income_by_period(inputs: &[SummaryInput], period: Period) -> (r: Vec<PeriodIncome>)
    requires
        income_amounts_ok(inputs@, period),
    ensures
        incomes_ok(inputs@, period, r@, inputs@.len() as int),
        forall|key: Seq<char>|
            #![trigger income_of(r@, key)]
            income_of(r@, key) == if income_has(inputs@, period, key, inputs@.len() as int) {
                Some(income_sum(inputs@, period, key, inputs@.len() as int))
            } else {
                None::<Dec>
            },
{
    let mut out: Vec<PeriodIncome> = Vec::new();
    let mut i: usize = 0;
    while i < inputs.len()
        invariant
            i <= inputs@.len(),
            income_amounts_ok(inputs@, period),
            incomes_ok(inputs@, period, out@, i as int),
        decreases inputs.len() - i,
    {
        assert(income_step_fits(inputs@, period, i as int));
        income_step(&mut out, inputs, i, period);
        i = i + 1;
    }
    proof {
        lemma_income_lookup(inputs@, period, out@);
    }
    out
}

proof fn lemma_income_lookup(inputs: Seq<SummaryInput>, period: Period, out: Seq<PeriodIncome>)
    requires
        incomes_ok(inputs, period, out, inputs.len() as int),
    ensures
        forall|key: Seq<char>|
            #![trigger income_of(out, key)]
            income_of(out, key) == if income_has(inputs, period, key, inputs.len() as int) {
                Some(income_sum(inputs, period, key, inputs.len() as int))
            } else {
                None::<Dec>
            },
{
    let n = inputs.len() as int;
    assert forall|key: Seq<char>|
        #![trigger income_of(out, key)]
        income_of(out, key) == if income_has(inputs, period, key, n) {
            Some(income_sum(inputs, period, key, n))
        } else {
            None::<Dec>
        } by {
        if income_has(inputs, period, key, n) {
            let q = choose|q: int|
                0 <= q < n && #[trigger] income_counted(inputs[q], period) && income_key(inputs[q], period) == key;
            let a = choose|a: int| 0 <= a < out.len() && (#[trigger] out[a]).key@ == income_key(inputs[q], period);
            lemma_income_of(out, a, key);
        } else {
            assert forall|a: int| 0 <= a < out.len() implies (#[trigger] out[a]).key@ != key by {
                assert(income_has(inputs, period, out[a].key@, n));
            }
            lemma_income_none(out, key);
        }
    }
}

/// Adds input `i` to the incomes.
fn income_step(out: &mut Vec<PeriodIncome>, inputs: &[SummaryInput], i: usize, period: Period)
    requires
        i < inputs@.len(),
        income_step_fits(inputs@, period, i as int),
        incomes_ok(inputs@, period, old(out)@, i as int),
    ensures
        incomes_ok(inputs@, period, final(out)@, i + 1),
{
    let inp = &inputs[i];
    if !str_eq(inp.credit_debit_indicator.as_str(), "CRDT") {
        proof {
            lemma_income_step_skip(inputs@, period, out@, i as int);
        }
        return;
    }
    match bucket_key(inp.booking_date.as_str(), period) {
        Err(_) => {
            proof {
                lemma_income_step_skip(inputs@, period, out@, i as int);
            }
        },
        Ok(k) => {
            assert(income_counted(inputs@[i as int], period));
            let amt = match dec_parse(inp.amount.as_str()) {
                Some(d) => d,
                None => dec_zero(),
            };
            assert(amt == income_amount(inputs@[i as int]));
            let ghost before = out@;
            match find_income(out, k.as_str()) {
                Some(a) => {
                    let acc = out[a].amount;
                    assert(out@[a as int].amount == acc);
                    assert(income_key(inputs@[i as int], period) == k@);
                    let sum = dec_add(acc, amt);
                    let key = copy_str(out[a].key.as_str());
                    out.set(a, PeriodIncome { key, amount: sum });
                    proof {
                        lemma_income_add_existing(inputs@, period, before, out@, i as int, a as int);
                    }
                },
                None => {
                    let z = dec_zero();
                    proof {
                        lemma_zero_add_fits(amt);
                    }
                    let sum = dec_add(z, amt);
                    out.push(PeriodIncome { key: k, amount: sum });
                    proof {
                        lemma_income_add_new(inputs@, period, before, out@, i as int);
                    }
                },
            }
        },
    }
}

proof fn lemma_income_add_existing(
    inputs: Seq<SummaryInput>,
    period: Period,
    before: Seq<PeriodIncome>,
    after: Seq<PeriodIncome>,
    i: int,
    a: int,
)
    requires
        0 <= i < inputs.len(),
        incomes_ok(inputs, period, before, i),
        income_counted(inputs[i], period),
        0 <= a < before.len(),
        before[a].key@ == income_key(inputs[i], period),
        after.len() == before.len(),
        forall|x: int| 0 <= x < before.len() && x != a ==> #[trigger] after[x] == before[x],
        after[a].key@ == before[a].key@,
        after[a].amount == decimal_add(before[a].amount, income_amount(inputs[i])),
        after[a].amount.wf(),
    ensures
        incomes_ok(inputs, period, after, i + 1),
{
    assert forall|x: int| 0 <= x < after.len() implies {
        let e = #[trigger] after[x];
        &&& e.amount.wf()
        &&& income_has(inputs, period, e.key@, i + 1)
        &&& e.amount == income_sum(inputs, period, e.key@, i + 1)
    } by {
        let e = after[x];
        assert(income_has(inputs, period, before[x].key@, i));
        if x != a {
            assert(e == before[x]);
            assert(before[x].key@ != before[a].key@);
        }
        let q = choose|q: int|
            0 <= q < i && #[trigger] income_counted(inputs[q], period) && income_key(inputs[q], period)
                == before[x].key@;
        assert(0 <= q < i + 1 && income_counted(inputs[q], period));
    }
    assert forall|q: int| 0 <= q < i + 1 && #[trigger] income_counted(inputs[q], period) implies exists|x: int|
        0 <= x < after.len() && (#[trigger] after[x]).key@ == income_key(inputs[q], period) by {
        if q < i {
            let x = choose|x: int| 0 <= x < before.len() && (#[trigger] before[x]).key@ == income_key(inputs[q], period);
            if x != a {
                assert(after[x] == before[x]);
            }
        } else {
            assert(after[a].key@ == income_key(inputs[i], period));
        }
    }
    assert forall|x: int, y: int| 0 <= x < y < after.len() implies (#[trigger] after[x]).key@
        != (#[trigger] after[y]).key@ by {
        assert(after[x].key@ == before[x].key@) by {
            if x != a {
                assert(after[x] == before[x]);
            }
        }
        assert(after[y].key@ == before[y].key@) by {
            if y != a {
                assert(after[y] == before[y]);
            }
        }
    }
}

proof fn lemma_income_add_new(
    inputs: Seq<SummaryInput>,
    period: Period,
    before: Seq<PeriodIncome>,
    after: Seq<PeriodIncome>,
    i: int,
)
    requires
        0 <= i < inputs.len(),
        incomes_ok(inputs, period, before, i),
        income_counted(inputs[i], period),
        forall|x: int| 0 <= x < before.len() ==> (#[trigger] before[x]).key@ != income_key(inputs[i], period),
        after.len() == before.len() + 1,
        forall|x: int| 0 <= x < before.len() ==> #[trigger] after[x] == before[x],
        after[before.len() as int].key@ == income_key(inputs[i], period),
        after[before.len() as int].amount == decimal_add(zero_spec(), income_amount(inputs[i])),
        after[before.len() as int].amount.wf(),
    ensures
        incomes_ok(inputs, period, after, i + 1),
{
    let k = income_key(inputs[i], period);
    let nb = before.len() as int;
    assert(!income_has(inputs, period, k, i)) by {
        if income_has(inputs, period, k, i) {
            let q = choose|q: int| 0 <= q < i && #[trigger] income_counted(inputs[q], period) && income_key(inputs[q], period) == k;
            let x = choose|x: int| 0 <= x < before.len() && (#[trigger] before[x]).key@ == income_key(inputs[q], period);
        }
    }
    lemma_income_sum_absent(inputs, period, k, i);
    assert forall|x: int| 0 <= x < after.len() implies {
        let e = #[trigger] after[x];
        &&& e.amount.wf()
        &&& income_has(inputs, period, e.key@, i + 1)
        &&& e.amount == income_sum(inputs, period, e.key@, i + 1)
    } by {
        if x < nb {
            let e = after[x];
            assert(e == before[x]);
            assert(before[x].key@ != k);
            let q = choose|q: int|
                0 <= q < i && #[trigger] income_counted(inputs[q], period) && income_key(inputs[q], period)
                    == before[x].key@;
            assert(0 <= q < i + 1 && income_counted(inputs[q], period));
        } else {
            assert(0 <= i < i + 1 && income_counted(inputs[i], period));
        }
    }
    assert forall|q: int| 0 <= q < i + 1 && #[trigger] income_counted(inputs[q], period) implies exists|x: int|
        0 <= x < after.len() && (#[trigger] after[x]).key@ == income_key(inputs[q], period) by {
        if q < i {
            let x = choose|x: int| 0 <= x < before.len() && (#[trigger] before[x]).key@ == income_key(inputs[q], period);
            assert(after[x] == before[x]);
        } else {
            assert(after[nb].key@ == k);
        }
    }
    assert forall|x: int, y: int| 0 <= x < y < after.len() implies (#[trigger] after[x]).key@
        != (#[trigger] after[y]).key@ by {
        if y < nb {
            assert(after[x] == before[x] && after[y] == before[y]);
        } else {
            assert(after[x] == before[x]);
        }
    }
}

proof fn lemma_income_sum_absent(inputs: Seq<SummaryInput>, period: Period, key: Seq<char>, n: int)
    requires
        0 <= n <= inputs.len(),
        !income_has(inputs, period, key, n),
    ensures
        income_sum(inputs, period, key, n) == zero_spec(),
    decreases n,
{
    if n > 0 {
        assert(!(income_counted(inputs[n - 1], period) && income_key(inputs[n - 1], period) == key));
        assert(!income_has(inputs, period, key, n - 1)) by {
            if income_has(inputs, period, key, n - 1) {
                let q = choose|q: int|
                    0 <= q < n - 1 && #[trigger] income_counted(inputs[q], period) && income_key(inputs[q], period)
                        == key;
                assert(0 <= q < n && income_counted(inputs[q], period));
            }
        }
        lemma_income_sum_absent(inputs, period, key, n - 1);
    }
}

/// An input that is not a counted credit changes nothing.
proof fn lemma_income_step_skip(inputs: Seq<SummaryInput>, period: Period, incs: Seq<PeriodIncome>, i: int)
    requires
        0 <= i < inputs.len(),
        incomes_ok(inputs, period, incs, i),
        !income_counted(inputs[i], period),
    ensures
        incomes_ok(inputs, period, incs, i + 1),
{
    assert forall|a: int| 0 <= a < incs.len() implies {
        let e = #[trigger] incs[a];
        &&& income_has(inputs, period, e.key@, i + 1)
        &&& e.amount == income_sum(inputs, period, e.key@, i + 1)
    } by {
        let e = incs[a];
        let q = choose|q: int|
            0 <= q < i && #[trigger] income_counted(inputs[q], period) && income_key(inputs[q], period) == e.key@;
        assert(0 <= q < i + 1 && income_counted(inputs[q], period));
    }
}

// ---------------------------------------------------------------------------
// Shares of spending
// ---------------------------------------------------------------------------

/// A category's share of the period's spending in whole percent, as the
/// report computes it: the quotient times a hundred, rounded, read back as
/// an integer; zero when the period spent nothing.
pub open spec fn share_percent_spec(part: Dec, whole: Dec) -> int {
    if whole.mantissa == 0 {
        0
    } else {
        let ratio = decimal_round_dp(decimal_mul(decimal_div(part, whole), hundred()), 0);
        match i64_from_str(decimal_display(ratio)) {
            Some(v) => v as int,
            None => 0,
        }
    }
}

/// A share can be computed without overflow: both amounts are `Decimal`
/// values and, when the whole is not zero, a hundred times the ratio of the
/// part to it fits with one more whole of room.
pub open spec fn share_defined(part: Dec, whole: Dec) -> bool {
    &&& part.wf()
    &&& whole.wf()
    &&& whole.mantissa != 0 ==> 100 * (abs_int(part.v()) + abs_int(whole.v())) < safe_bound() * abs_int(whole.v())
}

pub fn share_percent(part: Dec, whole: Dec) -> (r: i64)
    requires
        share_defined(part, whole),
    ensures
        r == share_percent_spec(part, whole),
{
    if dec_is_zero(whole) {
        0
    } else {
        proof {
            lemma_nonzero_v(whole);
        }
        let q = dec_div(part, whole);
        let h = dec_from_u32(100);
        assert(h == hundred());
        proof {
            lemma_hundred_ratio(q, abs_int(part.v()), abs_int(whole.v()));
            assert(h.signed() == 100);
            assert(q.scale + h.scale == q.scale);
        }
        let ratio = dec_mul(q, h);
        let rd = dec_round_dp(ratio, 0);
        let txt = dec_display(rd);
        match parse_i64(txt.as_str()) {
            Some(v) => v,
            None => 0,
        }
    }
}

/// The share condition read at a common scale `s`.
proof fn lemma_share_aligned(x: Dec, y: Dec, s: nat)
    requires
        x.scale <= s <= 28,
        y.scale <= s,
    ensures
        (100 * (abs_int(x.v()) + abs_int(y.v())) < safe_bound() * abs_int(y.v())) == (100 * (abs_int(x.at(s))
            + abs_int(y.at(s))) < safe_bound() * abs_int(y.at(s))),
{
    lemma_at_shift(x, s, 28);
    lemma_at_shift(y, s, 28);
    lemma_pow10_pos((28 - s) as nat);
    let p = pow10((28 - s) as nat);
    let a = x.at(s);
    let b = y.at(s);
    assert(abs_int(a * p) == abs_int(a) * p && abs_int(b * p) == abs_int(b) * p) by (nonlinear_arith)
        requires
            p >= 1,
    ;
    let m = safe_bound();
    assert((100 * (abs_int(a) * p + abs_int(b) * p) < m * (abs_int(b) * p)) == (100 * (abs_int(a) + abs_int(b))
        < m * abs_int(b))) by (nonlinear_arith)
        requires
            p >= 1,
    ;
}

proof fn lemma_at_own_scale(d: Dec)
    ensures
        abs_int(d.at(d.scale as nat)) == d.mantissa,
{
    let z = ((d.scale as nat) - d.scale) as nat;
    assert(z == 0);
    assert(pow10(0) == 1) by {
        reveal_with_fuel(pow10, 2);
    }
    assert(d.at(d.scale as nat) == d.signed());
}

/// Whether a share can be computed (`share_defined`).
pub fn share_accepted(part: Dec, whole: Dec) -> (r: bool)
    ensures
        r == share_defined(part, whole),
{
    if !(crate::dec::dec_wf(&part) && crate::dec::dec_wf(&whole)) {
        return false;
    }
    if whole.mantissa == 0 {
        return true;
    }
    let sb: u128 = 39614081257132168796771975168;
    proof {
        lemma_at_own_scale(part);
        lemma_at_own_scale(whole);
    }
    if part.scale >= whole.scale {
        proof {
            lemma_share_aligned(part, whole, part.scale as nat);
        }
        match aligned_magnitude(whole, part.scale, 1000) {
            None => true,
            Some(b) => 100 * (part.mantissa + b) < sb * b,
        }
    } else {
        let s = whole.scale;
        proof {
            lemma_share_aligned(part, whole, s as nat);
        }
        let b = whole.mantissa;
        let c: u128 = 39614081257132168796771975068;
        let mut g: u128 = part.mantissa / b;
        let mut r: u128 = part.mantissa % b;
        let mut t: u32 = part.scale;
        proof {
            vstd::arithmetic::div_mod::lemma_fundamental_div_mod(part.mantissa as int, b as int);
            vstd::arithmetic::div_mod::lemma_mod_pos_bound(part.mantissa as int, b as int);
            assert(part.mantissa == g * b + r) by (nonlinear_arith)
                requires
                    part.mantissa == b * (part.mantissa / b) + (part.mantissa % b),
                    g == part.mantissa / b,
                    r == part.mantissa % b,
            ;
        }
        if 100 * g >= c {
            proof {
                lemma_at_mono(part, t as nat, s as nat);
                let a = abs_int(part.at(s as nat));
                assert(100 * a >= c * b) by (nonlinear_arith)
                    requires
                        a >= g * b + r,
                        100 * g >= c,
                        r >= 0,
                        b >= 1,
                ;
            }
            return false;
        }
        while t < s
            invariant
                part.scale <= t <= s <= 28,
                s == whole.scale,
                part.wf(),
                whole.wf(),
                whole.mantissa != 0,
                b == abs_int(whole.at(s as nat)),
                1 <= b < 79228162514264337593543950336,
                abs_int(part.at(t as nat)) == g * b + r,
                0 <= r < b,
                100 * g < c,
                c == 39614081257132168796771975068,
            decreases s - t,
        {
            proof {
                lemma_at_shift(part, t as nat, (t + 1) as nat);
                assert(pow10(1) == 10) by {
                    reveal_with_fuel(pow10, 2);
                }
                assert(abs_int(part.at(t as nat) * 10) == abs_int(part.at(t as nat)) * 10);
            }
            let ten_r: u128 = 10 * r;
            proof {
                assert(ten_r / b <= ten_r) by (nonlinear_arith)
                    requires
                        b >= 1,
                        ten_r >= 0,
                ;
            }
            let ng: u128 = 10 * g + ten_r / b;
            let nr: u128 = ten_r % b;
            proof {
                let q = ten_r / b;
                vstd::arithmetic::div_mod::lemma_fundamental_div_mod(ten_r as int, b as int);
                vstd::arithmetic::div_mod::lemma_mod_pos_bound(ten_r as int, b as int);
                assert((g * b + r) * 10 == ng * b + nr) by (nonlinear_arith)
                    requires
                        ten_r == 10 * r,
                        ten_r == b * q + nr,
                        ng == 10 * g + q,
                ;
            }
            t = t + 1;
            if 100 * ng >= c {
                proof {
                    lemma_share_aligned(part, whole, s as nat);
                    lemma_at_mono(part, t as nat, s as nat);
                    let a = abs_int(part.at(s as nat));
                    assert(100 * a >= c * b) by (nonlinear_arith)
                        requires
                            a >= ng * b + nr,
                            100 * ng >= c,
                            nr >= 0,
                            b >= 1,
                    ;
                }
                return false;
            }
            g = ng;
            r = nr;
        }
        let d: u128 = c - 100 * g;
        proof {
            lemma_share_aligned(part, whole, s as nat);
        }
        if d >= 100 {
            proof {
                assert(100 * r < d * b) by (nonlinear_arith)
                    requires
                        r < b,
                        d >= 100,
                        r >= 0,
                ;
                assert(100 * (g * b + r) < c * b) by (nonlinear_arith)
                    requires
                        100 * r < d * b,
                        d == c - 100 * g,
                ;
            }
            true
        } else {
            proof {
                assert((100 * (g * b + r) < c * b) == (100 * r < d * b)) by (nonlinear_arith)
                    requires
                        d == c - 100 * g,
                ;
                assert(d * b < 100 * 79228162514264337593543950336) by (nonlinear_arith)
                    requires
                        d < 100,
                        b < 79228162514264337593543950336,
                ;
            }
            100 * r < d * b
        }
    }
}

/// The length of a category's bar: three tenths of its percentage, at most
/// thirty; no bar for a negative share.
pub open spec fn bar_len_spec(pct: int) -> nat {
    if pct <= 0 {
        0
    } else if pct >= 100 {
        30
    } else {
        (pct * 30 / 100) as nat
    }
}

pub fn bar_len(pct: i64) -> (r: usize)
    ensures
        r == bar_len_spec(pct as int),
{
    if pct <= 0 {
        0
    } else if pct >= 100 {
        30
    } else {
        (pct * 30 / 100) as usize
    }
}

/// Whether the credits can be added up (`income_amounts_ok`).
#[verifier::rlimit(40)]
pub fn income_accepts(inputs: &[SummaryInput], period: Period) -> (r: bool)
    ensures
        r == income_amounts_ok(inputs@, period),
{
    let mut out: Vec<PeriodIncome> = Vec::new();
    let mut i: usize = 0;
    while i < inputs.len()
        invariant
            i <= inputs@.len(),
            incomes_ok(inputs@, period, out@, i as int),
            forall|q: int| 0 <= q < i ==> #[trigger] income_step_fits(inputs@, period, q),
        decreases inputs.len() - i,
    {
        let inp = &inputs[i];
        assert(inputs@[i as int] == *inp);
        if str_eq(inp.credit_debit_indicator.as_str(), "CRDT") {
            match bucket_key(inp.booking_date.as_str(), period) {
                Ok(k) => {
                    assert(income_counted(inputs@[i as int], period));
                    assert(income_key(inputs@[i as int], period) == k@);
                    let amt = match dec_parse(inp.amount.as_str()) {
                        Some(d) => d,
                        None => dec_zero(),
                    };
                    assert(amt == income_amount(inputs@[i as int]));
                    match find_income(&out, k.as_str()) {
                        Some(a) => {
                            assert(out@[a as int].amount == income_sum(inputs@, period, k@, i as int));
                            if !add_fits_exec(out[a].amount, amt) {
                                assert(!income_step_fits(inputs@, period, i as int));
                                return false;
                            }
                        },
                        None => {
                            proof {
                                assert(!income_has(inputs@, period, k@, i as int)) by {
                                    if income_has(inputs@, period, k@, i as int) {
                                        let q = choose|q: int|
                                            0 <= q < i && #[trigger] income_counted(inputs@[q], period) && income_key(
                                                inputs@[q],
                                                period,
                                            ) == k@;
                                        let x = choose|x: int| 0 <= x < out@.len() && (#[trigger] out@[x]).key@ == income_key(inputs@[q], period);
                                    }
                                }
                                lemma_income_sum_absent(inputs@, period, k@, i as int);
                                lemma_zero_add_fits(amt);
                            }
                        },
                    }
                },
                Err(_) => {},
            }
        }
        assert(income_step_fits(inputs@, period, i as int));
        income_step(&mut out, inputs, i, period);
        i = i + 1;
    }
    true
}

// ---------------------------------------------------------------------------
// The report's lines
// ---------------------------------------------------------------------------

/// How a piece of the report is shown.
#[derive(Debug, Clone, Copy, PartialEq, Eq, Structural)]
pub enum Tone {
    Plain,
    Dim,
    Bold,
    Heading,
    Income,
    Spending,
    SpendingTotal,
    NetNegative,
    NetPositive,
}

/// A piece of a line with its tone.
#[derive(Debug, Clone)]
pub struct ReportSpan {
    pub text: String,
    pub tone: Tone,
}

/// A line of the report.
#[derive(Debug, Clone)]
pub struct ReportLine {
    pub spans: Vec<ReportSpan>,
}

pub open spec fn line_view(l: ReportLine) -> Seq<(Seq<char>, Tone)> {
    l.spans@.map_values(|s: ReportSpan| (s.text@, s.tone))
}

pub open spec fn lines_view(ls: Seq<ReportLine>) -> Seq<Seq<(Seq<char>, Tone)>> {
    ls.map_values(|l: ReportLine| line_view(l))
}

pub open spec fn single(t: Seq<char>, tone: Tone) -> Seq<(Seq<char>, Tone)> {
    seq![(t, tone)]
}

pub open spec fn rule_text() -> Seq<char> {
    repeat_char('\u{2500}', 55)
}

pub open spec fn header_text() -> Seq<char> {
    "Category          Amount        %"@
}

/// An amount rounded to cents, as `Display` writes it.
pub open spec fn money(d: Dec) -> Seq<char> {
    decimal_display(decimal_round_dp(d, 2))
}

/// The English name of a month.
pub open spec fn month_name(m: u32) -> Seq<char> {
    if m == 1 {
        "January"@
    } else if m == 2 {
        "February"@
    } else if m == 3 {
        "March"@
    } else if m == 4 {
        "April"@
    } else if m == 5 {
        "May"@
    } else if m == 6 {
        "June"@
    } else if m == 7 {
        "July"@
    } else if m == 8 {
        "August"@
    } else if m == 9 {
        "September"@
    } else if m == 10 {
        "October"@
    } else if m == 11 {
        "November"@
    } else {
        "December"@
    }
}

/// What `NaiveDate::format("%B %Y")` writes: the month's name, a space and
/// the year.
#[verifier::opaque]
pub open spec fn month_year_text(d: Date) -> Seq<char> {
    month_name(d.month) + " "@ + year_text(d.year as int)
}

/// Calls `NaiveDate::format("%B %Y")`. Claimed: the text `month_year_text`
/// states.
#[verifier::external_body]
fn format_month_year(d: Date) -> (r: String)
    requires
        valid_date(d),
    ensures
        r@ == month_year_text(d),
{
    chrono::NaiveDate::from_ymd_opt(d.year, d.month, d.day).unwrap().format("%B %Y").to_string()
}

/// The title of a period: the day, `Week <key>`, or the month's name and
/// year (the key itself when it is not a month).
pub open spec fn period_label(period: ReportPeriod, key: Seq<char>) -> Seq<char> {
    match period {
        ReportPeriod::Day => key,
        ReportPeriod::Week => "Week "@ + key,
        ReportPeriod::Month => match ymd_parse(key + "-01"@) {
            Ok(d) => month_year_text(d),
            Err(_) => key,
        },
    }
}

pub open spec fn income_line(inc: Dec) -> Seq<(Seq<char>, Tone)> {
    single("  Income            +"@ + pad_left_spec(money(inc), 8), Tone::Income)
}

pub open spec fn category_line(c: CategoryAmount, total: Dec) -> Seq<(Seq<char>, Tone)> {
    let pct = share_percent_spec(c.amount, total);
    seq![
        (pad_right_spec(take_chars(c.name@, 16), 16) + " "@, Tone::Plain),
        ("-"@ + pad_left_spec(money(c.amount), 7), Tone::Spending),
        (" "@ + pad_left_spec(int_digits(pct), 3) + "%  "@ + repeat_char('\u{2588}', bar_len_spec(pct)), Tone::Plain),
    ]
}

pub open spec fn category_lines(cats: Seq<CategoryAmount>, total: Dec) -> Seq<Seq<(Seq<char>, Tone)>> {
    Seq::new(cats.len(), |i: int| category_line(cats[i], total))
}

/// The period's income less its spending.
pub open spec fn net_of(p: PeriodSummary, incs: Seq<PeriodIncome>) -> Dec {
    let inc = match income_of(incs, p.key@) {
        Some(d) => d,
        None => zero_spec(),
    };
    decimal_sub(inc, p.total)
}

pub open spec fn net_line(net: Dec) -> Seq<(Seq<char>, Tone)> {
    single(
        pad_right_spec("Net"@, 16) + " "@ + (if net.negative {
            Seq::<char>::empty()
        } else {
            "+"@
        }) + money(net),
        if net.negative {
            Tone::NetNegative
        } else {
            Tone::NetPositive
        },
    )
}

/// The block of one period: a blank line, its title and currency, its income
/// when it has any, one line per category, then its spending and its net.
pub open spec fn period_block(p: PeriodSummary, incs: Seq<PeriodIncome>, period: ReportPeriod) -> Seq<
    Seq<(Seq<char>, Tone)>,
> {
    seq![
        single(Seq::<char>::empty(), Tone::Plain),
        single("\u{2500}\u{2500} "@ + period_label(period, p.key@) + " "@ + p.currency@ + " \u{2500}\u{2500}"@, Tone::Heading),
    ] + (match income_of(incs, p.key@) {
        Some(inc) => seq![income_line(inc)],
        None => Seq::<Seq<(Seq<char>, Tone)>>::empty(),
    }) + category_lines(p.categories@, p.total) + seq![
        single(rule_text(), Tone::Plain),
        single(pad_right_spec("Spending"@, 16) + " -"@ + pad_left_spec(money(p.total), 7), Tone::SpendingTotal),
        net_line(net_of(p, incs)),
    ]
}

pub open spec fn period_blocks(ps: Seq<PeriodSummary>, incs: Seq<PeriodIncome>, period: ReportPeriod, n: int) -> Seq<
    Seq<(Seq<char>, Tone)>,
>
    decreases n,
{
    if n <= 0 {
        Seq::empty()
    } else {
        period_blocks(ps, incs, period, n - 1) + period_block(ps[n - 1], incs, period)
    }
}

pub open spec fn coverage_line(c: CoverageInfo) -> Seq<char> {
    "Coverage: "@ + int_digits(percentage_spec(c)) + "% ("@ + int_digits(c.categorized as int) + "/"@ + int_digits(
        c.total as int,
    ) + ")"@
}

/// The spending report: a note when there is nothing, else a header and one
/// block per period, then the coverage of the last period.
pub open spec fn report_spec(ps: Seq<PeriodSummary>, incs: Seq<PeriodIncome>, period: ReportPeriod) -> Seq<
    Seq<(Seq<char>, Tone)>,
> {
    if ps.len() == 0 {
        seq![single("No spending data found."@, Tone::Plain)]
    } else {
        seq![single(header_text(), Tone::Bold), single(rule_text(), Tone::Plain)] + period_blocks(
            ps,
            incs,
            period,
            ps.len() as int,
        ) + seq![single(Seq::<char>::empty(), Tone::Plain), single(coverage_line(ps.last().coverage), Tone::Dim)]
    }
}

/// The income of period `key`, zero when it has none.
pub open spec fn income_or_zero(incs: Seq<PeriodIncome>, key: Seq<char>) -> Dec {
    match income_of(incs, key) {
        Some(d) => d,
        None => zero_spec(),
    }
}

/// What the report computes of a period does not overflow: each category's
/// share, the net of income and spending, and the coverage percentage.
pub open spec fn block_defined(p: PeriodSummary, incs: Seq<PeriodIncome>) -> bool {
    &&& p.total.wf()
    &&& forall|c: int| 0 <= c < p.categories@.len() ==> share_defined(#[trigger] p.categories@[c].amount, p.total)
    &&& sub_fits(income_or_zero(incs, p.key@), p.total)
    &&& percentage_defined(p.coverage)
}

/// The amounts of the report are ones its arithmetic handles.
pub open spec fn report_amounts_ok(ps: Seq<PeriodSummary>, incs: Seq<PeriodIncome>) -> bool {
    &&& forall|i: int| 0 <= i < ps.len() ==> block_defined(#[trigger] ps[i], incs)
    &&& forall|a: int| 0 <= a < incs.len() ==> (#[trigger] incs[a]).amount.wf()
}

fn span(text: String, tone: Tone) -> (r: ReportSpan)
    ensures
        r.text@ == text@,
        r.tone == tone,
{
    ReportSpan { text, tone }
}

fn line1(text: String, tone: Tone) -> (r: ReportLine)
    ensures
        line_view(r) == single(text@, tone),
{
    let mut spans: Vec<ReportSpan> = Vec::new();
    spans.push(span(text, tone));
    let r = ReportLine { spans };
    assert(line_view(r) =~= single(text@, tone));
    r
}

fn push_line(out: &mut Vec<ReportLine>, l: ReportLine)
    ensures
        lines_view(final(out)@) == lines_view(old(out)@).push(line_view(l)),
{
    out.push(l);
    assert(lines_view(out@) =~= lines_view(old(out)@).push(line_view(l)));
}

fn money_text(d: Dec) -> (r: String)
    requires
        d.wf(),
    ensures
        r@ == money(d),
{
    let rd = dec_round_dp(d, 2);
    dec_display(rd)
}

fn label_of(period: ReportPeriod, key: &str) -> (r: String)
    ensures
        r@ == period_label(period, key@),
{
    match period {
        ReportPeriod::Day => copy_str(key),
        ReportPeriod::Week => concat("Week ", key),
        ReportPeriod::Month => {
            let day1 = concat(key, "-01");
            match crate::summary::parse_ymd(day1.as_str()) {
                Ok(d) => format_month_year(d),
                Err(_) => copy_str(key),
            }
        },
    }
}

fn category_row(c: &CategoryAmount, total: Dec) -> (r: ReportLine)
    requires
        share_defined(c.amount, total),
    ensures
        line_view(r) == category_line(*c, total),
{
    let pct = share_percent(c.amount, total);
    let name = first_chars(c.name.as_str(), 16);
    let mut t1 = pad_right(name.as_str(), 16);
    push_str(&mut t1, " ");
    let m = money_text(c.amount);
    let t2 = concat("-", pad_left(m.as_str(), 7).as_str());
    let digits = i64_to_string(pct);
    let mut t3 = concat(" ", pad_left(digits.as_str(), 3).as_str());
    push_str(&mut t3, "%  ");
    let bar = repeat('\u{2588}', bar_len(pct));
    push_str(&mut t3, bar.as_str());
    let mut spans: Vec<ReportSpan> = Vec::new();
    spans.push(span(t1, Tone::Plain));
    spans.push(span(t2, Tone::Spending));
    spans.push(span(t3, Tone::Plain));
    let r = ReportLine { spans };
    assert(line_view(r) =~= category_line(*c, total));
    r
}

fn find_income_amount(incs: &Vec<PeriodIncome>, key: &str) -> (r: Option<Dec>)
    ensures
        r == income_of(incs@, key@),
{
    let mut a: usize = 0;
    assert(incs@.skip(0) =~= incs@);
    while a < incs.len()
        invariant
            a <= incs@.len(),
            income_of(incs@, key@) == income_of(incs@.skip(a as int), key@),
        decreases incs.len() - a,
    {
        assert(incs@.skip(a as int)[0] == incs@[a as int]);
        if str_eq(incs[a].key.as_str(), key) {
            return Some(incs[a].amount);
        }
        assert(incs@.skip(a as int).drop_first() =~= incs@.skip(a + 1));
        a = a + 1;
    }
    None
}

fn append_block(out: &mut Vec<ReportLine>, p: &PeriodSummary, incs: &Vec<PeriodIncome>, period: ReportPeriod)
    requires
        block_defined(*p, incs@),
        forall|a: int| 0 <= a < incs@.len() ==> (#[trigger] incs@[a]).amount.wf(),
    ensures
        lines_view(final(out)@) == lines_view(old(out)@) + period_block(*p, incs@, period),
{
    let ghost start = lines_view(out@);
    push_line(out, line1(String::new(), Tone::Plain));
    let label = label_of(period, p.key.as_str());
    let mut title = concat("\u{2500}\u{2500} ", label.as_str());
    push_str(&mut title, " ");
    push_str(&mut title, p.currency.as_str());
    push_str(&mut title, " \u{2500}\u{2500}");
    push_line(out, line1(title, Tone::Heading));
    let inc = find_income_amount(incs, p.key.as_str());
    proof {
        if let Some(d) = inc {
            lemma_income_amount_ok(incs@, p.key@);
        }
    }
    let ghost head = lines_view(out@);
    match inc {
        Some(d) => {
            let m = money_text(d);
            let t = concat("  Income            +", pad_left(m.as_str(), 8).as_str());
            push_line(out, line1(t, Tone::Income));
        },
        None => {},
    }
    let ghost mid = lines_view(out@);
    let mut c: usize = 0;
    while c < p.categories.len()
        invariant
            c <= p.categories@.len(),
            block_defined(*p, incs@),
            lines_view(out@) == mid + category_lines(p.categories@, p.total).take(c as int),
        decreases p.categories.len() - c,
    {
        let row = category_row(&p.categories[c], p.total);
        push_line(out, row);
        assert(category_lines(p.categories@, p.total).take(c + 1) =~= category_lines(p.categories@, p.total).take(
            c as int,
        ).push(category_line(p.categories@[c as int], p.total)));
        c = c + 1;
    }
    assert(category_lines(p.categories@, p.total).take(p.categories@.len() as int) =~= category_lines(
        p.categories@,
        p.total,
    ));
    push_line(out, line1(repeat('\u{2500}', 55), Tone::Plain));
    let m = money_text(p.total);
    let mut sp = pad_right("Spending", 16);
    push_str(&mut sp, " -");
    push_str(&mut sp, pad_left(m.as_str(), 7).as_str());
    push_line(out, line1(sp, Tone::SpendingTotal));
    let base = match inc {
        Some(d) => d,
        None => dec_zero(),
    };
    assert(base == income_or_zero(incs@, p.key@));
    let net = dec_sub(base, p.total);
    let mut nt = pad_right("Net", 16);
    push_str(&mut nt, " ");
    if !net.negative {
        push_str(&mut nt, "+");
    }
    let nm = money_text(net);
    push_str(&mut nt, nm.as_str());
    let tone = if net.negative {
        Tone::NetNegative
    } else {
        Tone::NetPositive
    };
    push_line(out, line1(nt, tone));
    proof {
        assert(lines_view(out@) =~= start + period_block(*p, incs@, period));
    }
}

proof fn lemma_income_amount_ok(incs: Seq<PeriodIncome>, key: Seq<char>)
    requires
        forall|a: int| 0 <= a < incs.len() ==> (#[trigger] incs[a]).amount.wf(),
        income_of(incs, key) is Some,
    ensures
        (income_of(incs, key)->Some_0).wf(),
    decreases incs.len(),
{
    if incs[0].key@ != key {
        let t = incs.drop_first();
        assert forall|a: int| 0 <= a < t.len() implies (#[trigger] t[a]).amount.wf() by {
            assert(t[a] == incs[a + 1]);
        }
        lemma_income_amount_ok(t, key);
    }
}

/// The lines of the spending report for the periods of a summary and the
/// credits per period.
pub fn report_lines(periods: &Vec<PeriodSummary>, incs: &Vec<PeriodIncome>, period: ReportPeriod) -> (r: Vec<ReportLine>)
    requires
        report_amounts_ok(periods@, incs@),
    ensures
        lines_view(r@) == report_spec(periods@, incs@, period),
{
    let mut out: Vec<ReportLine> = Vec::new();
    if periods.len() == 0 {
        push_line(&mut out, line1(copy_str("No spending data found."), Tone::Plain));
        assert(lines_view(out@) =~= report_spec(periods@, incs@, period));
        return out;
    }
    push_line(&mut out, line1(copy_str("Category          Amount        %"), Tone::Bold));
    push_line(&mut out, line1(repeat('\u{2500}', 55), Tone::Plain));
    let ghost head = lines_view(out@);
    let mut i: usize = 0;
    while i < periods.len()
        invariant
            i <= periods@.len(),
            report_amounts_ok(periods@, incs@),
            lines_view(out@) == head + period_blocks(periods@, incs@, period, i as int),
        decreases periods.len() - i,
    {
        let ghost before = lines_view(out@);
        assert(block_defined(periods@[i as int], incs@));
        append_block(&mut out, &periods[i], incs, period);
        assert(lines_view(out@) =~= head + period_blocks(periods@, incs@, period, i + 1));
        i = i + 1;
    }
    let last = &periods[periods.len() - 1];
    push_line(&mut out, line1(String::new(), Tone::Plain));
    let pct = last.coverage.percentage();
    let mut cov = concat("Coverage: ", i64_to_string(pct as i64).as_str());
    push_str(&mut cov, "% (");
    push_str(&mut cov, i64_to_string(last.coverage.categorized as i64).as_str());
    push_str(&mut cov, "/");
    push_str(&mut cov, i64_to_string(last.coverage.total as i64).as_str());
    push_str(&mut cov, ")");
    push_line(&mut out, line1(cov, Tone::Dim));
    assert(lines_view(out@) =~= report_spec(periods@, incs@, period));
    out
}

/// The report's control line: its keys, the period and whether it compares.
pub open spec fn controls_spec(period: ReportPeriod, compare: bool) -> Seq<char> {
    "m:month  w:week  D:day  Period: "@ + (match period {
        ReportPeriod::Day => "day"@,
        ReportPeriod::Week => "week"@,
        ReportPeriod::Month => "month"@,
    }) + "  Compare: "@ + if compare {
        "on (vs prior)"@
    } else {
        "off"@
    }
}

pub fn report_controls(period: ReportPeriod, compare: bool) -> (r: String)
    ensures
        r@ == controls_spec(period, compare),
{
    let mut s = copy_str("m:month  w:week  D:day  Period: ");
    match period {
        ReportPeriod::Day => push_str(&mut s, "day"),
        ReportPeriod::Week => push_str(&mut s, "week"),
        ReportPeriod::Month => push_str(&mut s, "month"),
    }
    push_str(&mut s, "  Compare: ");
    if compare {
        push_str(&mut s, "on (vs prior)");
    } else {
        push_str(&mut s, "off");
    }
    s
}

/// Whether what the report computes of a period does not overflow
/// (`block_defined`).
fn block_accepted(p: &PeriodSummary, incs: &Vec<PeriodIncome>) -> (r: bool)
    requires
        forall|a: int| 0 <= a < incs@.len() ==> (#[trigger] incs@[a]).amount.wf(),
    ensures
        r == block_defined(*p, incs@),
{
    if !crate::dec::dec_wf(&p.total) {
        return false;
    }
    let mut c: usize = 0;
    while c < p.categories.len()
        invariant
            c <= p.categories@.len(),
            p.total.wf(),
            forall|k: int| 0 <= k < c ==> share_defined(#[trigger] p.categories@[k].amount, p.total),
        decreases p.categories.len() - c,
    {
        if !share_accepted(p.categories[c].amount, p.total) {
            return false;
        }
        c = c + 1;
    }
    let inc = find_income_amount(incs, p.key.as_str());
    let base = match inc {
        Some(d) => d,
        None => dec_zero(),
    };
    proof {
        if let Some(d) = inc {
            lemma_income_amount_ok(incs@, p.key@);
        }
    }
    assert(base == income_or_zero(incs@, p.key@));
    if !crate::dec::sub_fits_exec(base, p.total) {
        return false;
    }
    let n: i64 = p.coverage.categorized as i64 * 100;
    !(p.coverage.total != 0 && (n < -2147483648 || n > 2147483647))
}

/// Whether the report's amounts are ones its arithmetic handles
/// (`report_amounts_ok`).
pub fn report_accepts(periods: &Vec<PeriodSummary>, incs: &Vec<PeriodIncome>) -> (r: bool)
    ensures
        r == report_amounts_ok(periods@, incs@),
{
    let mut a: usize = 0;
    while a < incs.len()
        invariant
            a <= incs@.len(),
            forall|b: int| 0 <= b < a ==> (#[trigger] incs@[b]).amount.wf(),
        decreases incs.len() - a,
    {
        if !crate::dec::dec_wf(&incs[a].amount) {
            return false;
        }
        a = a + 1;
    }
    let mut i: usize = 0;
    while i < periods.len()
        invariant
            i <= periods@.len(),
            forall|b: int| 0 <= b < incs@.len() ==> (#[trigger] incs@[b]).amount.wf(),
            forall|j: int| 0 <= j < i ==> block_defined(#[trigger] periods@[j], incs@),
        decreases periods.len() - i,
    {
        if !block_accepted(&periods[i], incs) {
            return false;
        }
        i = i + 1;
    }
    true
}

} // verus!
