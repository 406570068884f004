use vstd::prelude::*;

use crate::dec::{
    Dec, abs_int, dec_add, dec_parse, dec_zero, decimal_add, decimal_from_str, zero_spec,
    mantissa_bound, dec_div, dec_from_u32, dec_is_zero, dec_mul, dec_round_dp, dec_sub, dec_to_i32,
    decimal_div, decimal_mul, decimal_round_dp, decimal_sub, decimal_to_i32, lemma_pow10_pos,
    pow10, safe_bound, sub_fits, add_fits, max_scale, lemma_at_shift,
    lemma_pow10_mono, lemma_at_mono,
};
use crate::text::{
    chars_of, concat, copy_str, debug_quoted, debug_str, digit_char_spec, i64_to_string, int_digits, nat_digits,
    push_char, push_str, split_once_spec, split_once_str, str_eq, string_of, sub_at, u64_to_string,
    lex_order, lemma_lex_antisym, lemma_lex_trans, lemma_lex_zero, str_order, views, signed_text_value, unsigned_text_value,
};

verus! {

/// The length of a summary period.
#[derive(Debug, Clone, Copy, PartialEq, Eq, Structural)]
pub enum Period {
    Day,
    Week,
    Month,
}

pub open spec fn period_text(p: Period) -> Seq<char> {
    match p {
        Period::Day => "day"@,
        Period::Week => "week"@,
        Period::Month => "month"@,
    }
}

impl Period {
    /// The period's name, as `Display` writes it.
    pub fn to_text(&self) -> (r: String)
        ensures
            r@ == period_text(*self),
    {
        match self {
            Period::Day => copy_str("day"),
            Period::Week => copy_str("week"),
            Period::Month => copy_str("month"),
        }
    }
}

#[derive(Debug, Clone)]
pub struct SummaryInput {
    pub booking_date: String,
    pub amount: String,
    pub currency: String,
    pub credit_debit_indicator: String,
    pub category: String,
}

#[derive(Debug, Clone)]
pub struct SummaryOpts {
    pub period: Period,
    pub compare: bool,
}

#[derive(Debug, Clone)]
pub struct SummaryResult {
    pub periods: Vec<PeriodSummary>,
    pub warnings: Vec<String>,
}

#[derive(Debug, Clone)]
pub struct PeriodSummary {
    pub key: String,
    pub currency: String,
    pub total: Dec,
    pub categories: Vec<CategoryAmount>,
    pub delta: Option<DeltaInfo>,
    pub coverage: CoverageInfo,
}

#[derive(Debug, Clone)]
pub struct CategoryAmount {
    pub name: String,
    pub amount: Dec,
    pub delta: Option<DeltaInfo>,
}

#[derive(Debug, Clone)]
pub struct DeltaInfo {
    pub absolute_diff: Dec,
    pub percentage: String,
}

#[derive(Debug, Clone, Copy)]
pub struct CoverageInfo {
    pub categorized: i32,
    pub total: i32,
}

/// Integer division rounding towards zero, as Rust's `/` does.
pub open spec fn trunc_div(a: int, b: int) -> int {
    if (a >= 0) == (b > 0) {
        abs_int(a) / abs_int(b)
    } else {
        -(abs_int(a) / abs_int(b))
    }
}

pub open spec fn percentage_spec(c: CoverageInfo) -> int {
    if c.total == 0 {
        0
    } else {
        trunc_div(c.categorized * 100, c.total as int)
    }
}

/// The percentage can be computed in `i32` arithmetic (nothing is computed
/// when there are no transactions).
pub open spec fn percentage_defined(c: CoverageInfo) -> bool {
    c.total != 0 ==> i32::MIN <= c.categorized * 100 <= i32::MAX
}

pub open spec fn coverage_text(c: CoverageInfo) -> Seq<char> {
    int_digits(percentage_spec(c)) + "% of transactions categorized ("@ + int_digits(c.categorized as int)
        + "/"@ + int_digits(c.total as int) + ")"@
}

impl CoverageInfo {
    /// The share of categorized transactions, in whole percent rounded
    /// towards zero; zero when there are no transactions.
    pub fn percentage(&self) -> (r: i32)
        requires
            percentage_defined(*self),
        ensures
            r == percentage_spec(*self),
    {
        if self.total == 0 {
            0
        } else {
            let n: i64 = self.categorized as i64 * 100;
            let d: i64 = self.total as i64;
            let an: i64 = if n < 0 { -n } else { n };
            let ad: i64 = if d < 0 { -d } else { d };
            let q: i64 = an / ad;
            assert(q <= an);
            if (n >= 0) == (d > 0) {
                q as i32
            } else {
                (-q) as i32
            }
        }
    }

    /// `"<p>% of transactions categorized (<categorized>/<total>)"`.
    pub fn display(&self) -> (r: String)
        requires
            percentage_defined(*self),
        ensures
            r@ == coverage_text(*self),
    {
        let p = self.percentage();
        let mut r = i64_to_string(p as i64);
        push_str(&mut r, "% of transactions categorized (");
        let a = i64_to_string(self.categorized as i64);
        push_str(&mut r, a.as_str());
        push_str(&mut r, "/");
        let b = i64_to_string(self.total as i64);
        push_str(&mut r, b.as_str());
        push_str(&mut r, ")");
        r
    }
}

pub open spec fn unknown_period_error(s: Seq<char>) -> Seq<char> {
    "unknown period "@ + debug_quoted(s) + ": must be day, week, or month"@
}

/// Parse a string into a Period. Accepts "day", "week", or "month".
pub fn parse_period(s: &str) -> (r: Result<Period, String>)
    ensures
        r is Ok <==> (s@ == "day"@ || s@ == "week"@ || s@ == "month"@),
        r matches Ok(p) ==> period_text(p) == s@,
        r matches Err(e) ==> e@ == unknown_period_error(s@),
{
    proof {
        reveal_strlit("day");
        reveal_strlit("week");
        reveal_strlit("month");
    }
    if str_eq(s, "day") {
        Ok(Period::Day)
    } else if str_eq(s, "week") {
        Ok(Period::Week)
    } else if str_eq(s, "month") {
        Ok(Period::Month)
    } else {
        let mut e = concat("unknown period ", debug_str(s).as_str());
        push_str(&mut e, ": must be day, week, or month");
        Err(e)
    }
}

// ---------------------------------------------------------------------------
// Period-over-period changes
// ---------------------------------------------------------------------------

/// The percentage text of a change: empty when both amounts are zero, `new`
/// when only the prior one is, else the rounded percentage with a `+` when it
/// is positive.
pub open spec fn delta_percentage(current: Dec, prior: Dec) -> Seq<char> {
    if prior.mantissa == 0 && current.mantissa == 0 {
        Seq::<char>::empty()
    } else if prior.mantissa == 0 {
        "new"@
    } else {
        let ratio = decimal_mul(decimal_div(decimal_sub(current, prior), prior), hundred());
        let rounded = match decimal_to_i32(decimal_round_dp(ratio, 0)) {
            Some(v) => v as int,
            None => 0,
        };
        if rounded > 0 {
            "+"@ + int_digits(rounded) + "%"@
        } else {
            int_digits(rounded) + "%"@
        }
    }
}

pub open spec fn hundred() -> Dec {
    Dec { negative: false, mantissa: 100, scale: 0 }
}

/// The change from `prior` to `current`.
pub open spec fn delta_spec(current: Dec, prior: Dec, d: DeltaInfo) -> bool {
    &&& d.absolute_diff == decimal_sub(current, prior)
    &&& d.absolute_diff.v() == current.v() - prior.v()
    &&& d.percentage@ == delta_percentage(current, prior)
}

/// The change from `prior` to `current` can be computed without overflow:
/// both are `Decimal` values, their difference fits, and, when `prior` is
/// not zero, a hundred times the ratio of the difference to it fits with one
/// more `prior` of room.
pub open spec fn delta_defined(current: Dec, prior: Dec) -> bool {
    &&& current.wf()
    &&& prior.wf()
    &&& sub_fits(current, prior)
    &&& prior.mantissa != 0 ==> 100 * (abs_int(current.v() - prior.v()) + abs_int(prior.v())) < safe_bound()
        * abs_int(prior.v())
}

pub proof fn lemma_nonzero_v(d: Dec)
    requires
        d.mantissa != 0,
        d.scale <= 28,
    ensures
        abs_int(d.v()) >= 1,
{
    lemma_pow10_pos((28 - d.scale) as nat);
    let q = pow10((28 - d.scale) as nat);
    assert(d.signed() != 0);
    assert(abs_int(d.signed() * q) >= 1) by (nonlinear_arith)
        requires
            d.signed() != 0,
            q >= 1,
    ;
}

/// A hundred times the quotient fits when the ratio bound of `delta_defined`
/// holds.
pub proof fn lemma_hundred_ratio(q: Dec, a: int, b: int)
    requires
        b >= 1,
        a >= 0,
        abs_int(q.signed()) * b <= (a + b) * pow10(q.scale as nat),
        100 * (a + b) < safe_bound() * b,
    ensures
        abs_int(q.signed() * 100) < safe_bound() * pow10(q.scale as nat),
{
    lemma_pow10_pos(q.scale as nat);
    let t = pow10(q.scale as nat);
    let r = abs_int(q.signed());
    assert(abs_int(q.signed() * 100) == r * 100) by (nonlinear_arith)
        requires
            r == abs_int(q.signed()),
    ;
    assert(r * 100 * b < safe_bound() * t * b) by (nonlinear_arith)
        requires
            r * b <= (a + b) * t,
            100 * (a + b) < safe_bound() * b,
            t >= 1,
            r >= 0,
    ;
    assert(r * 100 < safe_bound() * t) by (nonlinear_arith)
        requires
            r * 100 * b < safe_bound() * t * b,
            b >= 1,
    ;
}

/// The change from `prior` to `current`: the difference and its percentage
/// of the prior amount.
pub fn compute_delta(current: Dec, prior: Dec) -> (r: DeltaInfo)
    requires
        delta_defined(current, prior),
    ensures
        delta_spec(current, prior, r),
{
    let diff = dec_sub(current, prior);
    let percentage = if dec_is_zero(prior) && dec_is_zero(current) {
        String::new()
    } else if dec_is_zero(prior) {
        copy_str("new")
    } else {
        proof {
            lemma_nonzero_v(prior);
            assert(abs_int(diff.v()) < safe_bound() * abs_int(prior.v()));
        }
        let q = dec_div(diff, prior);
        let h = dec_from_u32(100);
        assert(h == hundred());
        proof {
            lemma_hundred_ratio(q, abs_int(diff.v()), abs_int(prior.v()));
            assert(h.signed() == 100);
            assert(q.scale + h.scale == q.scale);
        }
        let ratio = dec_mul(q, h);
        let rd = dec_round_dp(ratio, 0);
        let rounded: i32 = match dec_to_i32(rd) {
            Some(v) => v,
            None => 0,
        };
        let digits = i64_to_string(rounded as i64);
        if rounded > 0 {
            let mut t = concat("+", digits.as_str());
            push_str(&mut t, "%");
            t
        } else {
            concat(digits.as_str(), "%")
        }
    };
    DeltaInfo { absolute_diff: diff, percentage }
}

// ---------------------------------------------------------------------------
// Calendar dates
// ---------------------------------------------------------------------------

/// A calendar date (proleptic Gregorian), as `chrono::NaiveDate` holds one.
#[derive(Debug, Clone, Copy, PartialEq, Eq, Structural)]
pub struct Date {
    pub year: i32,
    pub month: u32,
    pub day: u32,
}

pub open spec fn is_leap_year(y: int) -> bool {
    (y % 4 == 0 && y % 100 != 0) || y % 400 == 0
}

pub open spec fn days_in_month(y: int, m: int) -> int {
    if m == 2 {
        if is_leap_year(y) {
            29
        } else {
            28
        }
    } else if m == 4 || m == 6 || m == 9 || m == 11 {
        30
    } else {
        31
    }
}

/// The first and last years a `NaiveDate` holds.
pub open spec fn min_year() -> int {
    -262143
}

pub open spec fn max_year() -> int {
    262142
}

/// A date that exists and that a `NaiveDate` can hold.
pub open spec fn valid_date(d: Date) -> bool {
    &&& min_year() <= d.year <= max_year()
    &&& 1 <= d.month <= 12
    &&& 1 <= d.day <= days_in_month(d.year as int, d.month as int)
}

fn is_leap(y: i32) -> (r: bool)
    ensures
        r == is_leap_year(y as int),
{
    let a: i64 = if y < 0 { -(y as i64) } else { y as i64 };
    assert((y as int) % 4 == 0 <==> (a as int) % 4 == 0) by {
        if y < 0 {
            assert(a == -(y as int));
            assert(((y as int) % 4 == 0) <==> ((-(y as int)) % 4 == 0)) by (nonlinear_arith);
        }
    }
    assert((y as int) % 100 == 0 <==> (a as int) % 100 == 0) by {
        if y < 0 {
            assert(((y as int) % 100 == 0) <==> ((-(y as int)) % 100 == 0)) by (nonlinear_arith);
        }
    }
    assert((y as int) % 400 == 0 <==> (a as int) % 400 == 0) by {
        if y < 0 {
            assert(((y as int) % 400 == 0) <==> ((-(y as int)) % 400 == 0)) by (nonlinear_arith);
        }
    }
    (a % 4 == 0 && a % 100 != 0) || a % 400 == 0
}

/// `NaiveDate::from_ymd_opt`: the date, when it exists and is in range.
pub fn date_from_ymd(year: i32, month: u32, day: u32) -> (r: Option<Date>)
    ensures
        r == (if valid_date(Date { year, month, day }) {
            Some(Date { year, month, day })
        } else {
            None::<Date>
        }),
{
    if year < -262143 || year > 262142 || month < 1 || month > 12 || day < 1 {
        return None;
    }
    let dim: u32 = if month == 2 {
        if is_leap(year) {
            29
        } else {
            28
        }
    } else if month == 4 || month == 6 || month == 9 || month == 11 {
        30
    } else {
        31
    };
    if day > dim {
        None
    } else {
        Some(Date { year, month, day })
    }
}

/// What `NaiveDate::parse_from_str(s, "%Y-%m-%d")` gives: the date, or the
/// text of the parse error.
pub uninterp spec fn ymd_parse(s: Seq<char>) -> Result<Date, Seq<char>>;

/// Four digits of a number below 10000, with leading zeros.
pub open spec fn four_digits(n: nat) -> Seq<char> {
    seq![
        digit_char_spec(n / 1000 % 10),
        digit_char_spec(n / 100 % 10),
        digit_char_spec(n / 10 % 10),
        digit_char_spec(n % 10),
    ]
}

/// Two digits of a number below 100, with a leading zero.
pub open spec fn two_digits(n: nat) -> Seq<char> {
    seq![digit_char_spec(n / 10 % 10), digit_char_spec(n % 10)]
}

/// How `%Y` writes a year: four digits with leading zeros from 0 to 9999,
/// else its sign and at least four digits.
pub open spec fn year_text(y: int) -> Seq<char> {
    if 0 <= y <= 9999 {
        four_digits(y as nat)
    } else {
        let m = abs_int(y) as nat;
        (if y < 0 {
            "-"@
        } else {
            "+"@
        }) + if m < 10000 {
            four_digits(m)
        } else {
            nat_digits(m)
        }
    }
}

/// What `NaiveDate::format("%Y-%m")` writes: the year, a dash, and the month
/// in two digits.
#[verifier::opaque]
pub open spec fn ym_text(d: Date) -> Seq<char> {
    year_text(d.year as int) + "-"@ + two_digits(d.month as nat)
}

/// What `NaiveDate::format("%Y-%m-%d")` writes: the year, the month and the
/// day, the last two in two digits, joined by dashes.
#[verifier::opaque]
pub open spec fn ymd_text(d: Date) -> Seq<char> {
    year_text(d.year as int) + "-"@ + two_digits(d.month as nat) + "-"@ + two_digits(d.day as nat)
}

/// What `NaiveDate::iso_week` gives: the ISO year and week number.
pub uninterp spec fn iso_week_spec(d: Date) -> (i32, u32);

/// What `NaiveDate::checked_add_signed(TimeDelta::days(n))` gives.
pub uninterp spec fn date_plus_days(d: Date, n: int) -> Option<Date>;

/// The number of days from 1970-01-01 to a date of the proleptic Gregorian
/// calendar (negative before it).
pub open spec fn days_from_epoch(y: int, m: int, d: int) -> int {
    let y2 = if m <= 2 {
        y - 1
    } else {
        y
    };
    let era = y2 / 400;
    let yoe = y2 - era * 400;
    let doy = (153 * ((m + 9) % 12) + 2) / 5 + d - 1;
    let doe = yoe * 365 + yoe / 4 - yoe / 100 + doy;
    era * 146097 + doe - 719468
}

/// What `Weekday::num_days_from_monday` gives for the date's weekday: 0 for
/// a Monday to 6 for a Sunday (1970-01-01 was a Thursday).
#[verifier::opaque]
pub open spec fn weekday_index(d: Date) -> u32 {
    ((days_from_epoch(d.year as int, d.month as int, d.day as int) + 3) % 7) as u32
}

/// What `i32::from_str` gives: the value of an optional sign followed by
/// digits, when it fits.
pub open spec fn i32_from_str(s: Seq<char>) -> Option<i32> {
    match signed_text_value(s) {
        Some(v) => if i32::MIN <= v <= i32::MAX {
            Some(v as i32)
        } else {
            None
        },
        None => None,
    }
}

/// What `u32::from_str` gives: the value of an optional `+` followed by
/// digits, when it fits.
pub open spec fn u32_from_str(s: Seq<char>) -> Option<u32> {
    match unsigned_text_value(s) {
        Some(v) => if 0 <= v <= u32::MAX {
            Some(v as u32)
        } else {
            None
        },
        None => None,
    }
}

/// Calls `NaiveDate::parse_from_str(s, "%Y-%m-%d")`. Claimed: the named
/// result, the error as its `Display` text; a parsed date is one a
/// `NaiveDate` holds.
#[verifier::external_body]
pub(crate) fn parse_ymd(s: &str) -> (r: Result<Date, String>)
    ensures
        match r {
            Ok(d) => ymd_parse(s@) == Ok::<Date, Seq<char>>(d) && valid_date(d),
            Err(e) => ymd_parse(s@) == Err::<Date, Seq<char>>(e@),
        },
{
    match chrono::NaiveDate::parse_from_str(s, "%Y-%m-%d") {
        Ok(t) => Ok(Date {
            year: chrono::Datelike::year(&t),
            month: chrono::Datelike::month(&t),
            day: chrono::Datelike::day(&t),
        }),
        Err(e) => Err(e.to_string()),
    }
}

/// Calls `NaiveDate::format("%Y-%m")`. Claimed: the text `ym_text` states.
#[verifier::external_body]
fn format_ym(d: Date) -> (r: String)
    requires
        valid_date(d),
    ensures
        r@ == ym_text(d),
{
    chrono::NaiveDate::from_ymd_opt(d.year, d.month, d.day).unwrap().format("%Y-%m").to_string()
}

/// Calls `NaiveDate::format("%Y-%m-%d")`. Claimed: the text `ymd_text`
/// states.
#[verifier::external_body]
pub(crate) fn format_ymd(d: Date) -> (r: String)
    requires
        valid_date(d),
    ensures
        r@ == ymd_text(d),
{
    chrono::NaiveDate::from_ymd_opt(d.year, d.month, d.day).unwrap().format("%Y-%m-%d").to_string()
}

/// Calls `NaiveDate::iso_week`. Claimed: the named ISO year and week; the
/// week number runs from 1 to 53, as `IsoWeek::week` documents.
#[verifier::external_body]
fn iso_week_of(d: Date) -> (r: (i32, u32))
    requires
        valid_date(d),
    ensures
        r == iso_week_spec(d),
        1 <= r.1 <= 53,
{
    let w = chrono::Datelike::iso_week(&chrono::NaiveDate::from_ymd_opt(d.year, d.month, d.day).unwrap());
    (w.year(), w.week())
}

/// Calls `NaiveDate::checked_add_signed(TimeDelta::days(n))`, which is
/// `NaiveDate + TimeDelta` without its panic. Claimed: the named result; a
/// result is a date a `NaiveDate` holds, and there is one when the date is
/// more than two years inside `NaiveDate`'s range and moves by at most 400
/// days. `TimeDelta::days` panics once `n * 86400` seconds pass
/// `i64::MAX / 1000`, so `|n|` stays within 106751991167.
#[verifier::external_body]
pub(crate) fn add_days(d: Date, n: i64) -> (r: Option<Date>)
    requires
        valid_date(d),
        -106751991167 <= n <= 106751991167,
    ensures
        r == date_plus_days(d, n as int),
        r matches Some(x) ==> valid_date(x),
        min_year() + 1 < d.year < max_year() - 1 && -400 <= n <= 400 ==> r is Some,
{
    let t = chrono::NaiveDate::from_ymd_opt(d.year, d.month, d.day).unwrap();
    match t.checked_add_signed(chrono::TimeDelta::days(n)) {
        Some(x) => Some(Date {
            year: chrono::Datelike::year(&x),
            month: chrono::Datelike::month(&x),
            day: chrono::Datelike::day(&x),
        }),
        None => None,
    }
}

/// Calls `Weekday::num_days_from_monday` on the date's weekday. Claimed: the
/// index `weekday_index` states, below 7.
#[verifier::external_body]
pub(crate) fn days_from_monday(d: Date) -> (r: u32)
    requires
        valid_date(d),
    ensures
        r == weekday_index(d),
        r < 7,
{
    chrono::Datelike::weekday(&chrono::NaiveDate::from_ymd_opt(d.year, d.month, d.day).unwrap()).num_days_from_monday()
}

/// Calls `str::parse::<i32>`. Claimed, as its documentation says: an
/// optional sign followed by digits is read when its value fits.
#[verifier::external_body]
fn parse_i32(s: &str) -> (r: Option<i32>)
    ensures
        r == i32_from_str(s@),
{
    s.parse::<i32>().ok()
}

/// Calls `str::parse::<u32>`. Claimed, as its documentation says: an
/// optional `+` followed by digits is read when its value fits.
#[verifier::external_body]
fn parse_u32(s: &str) -> (r: Option<u32>)
    ensures
        r == u32_from_str(s@),
{
    s.parse::<u32>().ok()
}

/// `format!("{:0w$}", n)`: the sign, then zeros up to the width, then the
/// digits.
pub open spec fn zero_pad(n: int, width: nat) -> Seq<char> {
    let sign = if n < 0 {
        seq!['-']
    } else {
        Seq::<char>::empty()
    };
    let digits = nat_digits(abs_int(n) as nat);
    let used = sign.len() + digits.len();
    let fill: nat = if used < width {
        (width - used) as nat
    } else {
        0
    };
    sign + Seq::new(fill, |i: int| '0') + digits
}

/// Zero-padded decimal text of `n`, at least `width` characters wide.
pub fn pad_int(n: i64, width: usize) -> (r: String)
    requires
        n > i64::MIN,
    ensures
        r@ == zero_pad(n as int, width as nat),
{
    let a: u64 = if n < 0 { (-n) as u64 } else { n as u64 };
    let digits = u64_to_string(a);
    let dv = chars_of(digits.as_str());
    let mut out: Vec<char> = Vec::new();
    if n < 0 {
        out.push('-');
    }
    let sl: usize = out.len();
    let ghost sign = out@;
    if dv.len() < width && sl < width - dv.len() {
        let fill = width - dv.len() - sl;
        let mut k: usize = 0;
        while k < fill
            invariant
                k <= fill,
                out@ == sign + Seq::new(k as nat, |i: int| '0'),
            decreases fill - k,
        {
            out.push('0');
            assert(sign + Seq::new((k + 1) as nat, |i: int| '0') =~= (sign + Seq::new(k as nat, |i: int| '0')).push('0'));
            k = k + 1;
        }
    } else {
        assert(out@ =~= sign + Seq::new(0, |i: int| '0'));
    }
    let mut j: usize = 0;
    let ghost pre = out@;
    while j < dv.len()
        invariant
            j <= dv@.len(),
            out@ == pre + dv@.take(j as int),
        decreases dv.len() - j,
    {
        out.push(dv[j]);
        assert(pre + dv@.take(j + 1) =~= (pre + dv@.take(j as int)).push(dv@[j as int]));
        j = j + 1;
    }
    assert(dv@.take(dv@.len() as int) =~= dv@);
    assert(abs_int(n as int) == a);
    assert(out@ =~= zero_pad(n as int, width as nat));
    string_of(&out)
}

/// The key of an ISO week: `YYYY-Www`.
pub open spec fn week_key(year: int, week: int) -> Seq<char> {
    zero_pad(year, 4) + "-W"@ + zero_pad(week, 2)
}

fn format_week_key(year: i32, week: u32) -> (r: String)
    ensures
        r@ == week_key(year as int, week as int),
{
    let mut r = pad_int(year as i64, 4);
    push_str(&mut r, "-W");
    let w = pad_int(week as i64, 2);
    push_str(&mut r, w.as_str());
    r
}

/// The bucket a booking date falls in: the date itself, its `YYYY-MM` month
/// or its `YYYY-Www` ISO week; an error text when the date does not parse.
pub open spec fn bucket_key_spec(date: Seq<char>, period: Period) -> Result<Seq<char>, Seq<char>> {
    if date.len() == 0 {
        Err("empty date"@)
    } else {
        match ymd_parse(date) {
            Err(e) => Err("parse date "@ + debug_quoted(date) + ": "@ + e),
            Ok(t) => match period {
                Period::Day => Ok(date),
                Period::Month => Ok(ym_text(t)),
                Period::Week => {
                    let w = iso_week_spec(t);
                    Ok(week_key(w.0 as int, w.1 as int))
                },
            },
        }
    }
}

pub open spec fn res_view(r: Result<String, String>) -> Result<Seq<char>, Seq<char>> {
    match r {
        Ok(s) => Ok(s@),
        Err(e) => Err(e@),
    }
}

/// The bucket key of a booking date for a period.
pub fn bucket_key(date: &str, period: Period) -> (r: Result<String, String>)
    ensures
        res_view(r) == bucket_key_spec(date@, period),
{
    if date.is_empty() {
        return Err(copy_str("empty date"));
    }
    match parse_ymd(date) {
        Err(e) => {
            let mut m = concat("parse date ", debug_str(date).as_str());
            push_str(&mut m, ": ");
            push_str(&mut m, e.as_str());
            Err(m)
        },
        Ok(t) => match period {
            Period::Day => Ok(copy_str(date)),
            Period::Month => Ok(format_ym(t)),
            Period::Week => {
                let (y, w) = iso_week_of(t);
                Ok(format_week_key(y, w))
            },
        },
    }
}

/// The Monday of an ISO year and week, found from January 4th; `None` where
/// the date arithmetic leaves the range of `NaiveDate` (there the computation
/// panics).
pub open spec fn iso_week_start_spec(year: i32, week: u32) -> Option<Date> {
    let j = Date { year, month: 1, day: 4 };
    if !valid_date(j) {
        None
    } else {
        match date_plus_days(j, -(weekday_index(j) as int)) {
            Some(m) => date_plus_days(m, (week - 1) * 7),
            None => None,
        }
    }
}

/// Returns the Monday of the given ISO year/week (Jan 4 method).
fn iso_week_start(year: i32, week: u32) -> (r: Date)
    requires
        iso_week_start_spec(year, week) is Some,
    ensures
        iso_week_start_spec(year, week) == Some(r),
        valid_date(r),
{
    let jan4 = match date_from_ymd(year, 1, 4) {
        Some(j) => j,
        None => {
            proof {
                assert(false);
            }
            Date { year, month: 1, day: 4 }
        },
    };
    let dfm = days_from_monday(jan4);
    let monday1 = match add_days(jan4, -(dfm as i64)) {
        Some(m) => m,
        None => {
            proof {
                assert(false);
            }
            jan4
        },
    };
    match add_days(monday1, (week as i64 - 1) * 7) {
        Some(m) => m,
        None => {
            proof {
                assert(false);
            }
            monday1
        },
    }
}

/// The key of the period before `key`: `None` where the date arithmetic
/// would leave the range of `NaiveDate`, else the key
/// or an error text for a key that does not parse.
pub open spec fn prior_key_spec(key: Seq<char>, period: Period) -> Option<Result<Seq<char>, Seq<char>>> {
    match period {
        Period::Day => match ymd_parse(key) {
            Err(e) => Some(Err("parse date "@ + debug_quoted(key) + ": "@ + e)),
            Ok(t) => match date_plus_days(t, -1) {
                Some(p) => Some(Ok(ymd_text(p))),
                None => None,
            },
        },
        Period::Month => match ymd_parse(key + "-01"@) {
            Err(e) => Some(Err("parse month "@ + debug_quoted(key) + ": "@ + e)),
            Ok(t) => match date_plus_days(t, -1) {
                Some(p) => Some(Ok(ym_text(p))),
                None => Some(Err("cannot compute prior month for "@ + debug_quoted(key))),
            },
        },
        Period::Week => match split_once_spec(key, "-W"@) {
            None => Some(Err("invalid week key format: "@ + debug_quoted(key))),
            Some(parts) => match i32_from_str(parts.0) {
                None => Some(Err("invalid year in week key: "@ + debug_quoted(key))),
                Some(y) => match u32_from_str(parts.1) {
                    None => Some(Err("invalid week in week key: "@ + debug_quoted(key))),
                    Some(w) => match iso_week_start_spec(y, w) {
                        None => None,
                        Some(m) => match date_plus_days(m, -7) {
                            None => None,
                            Some(p) => {
                                let iw = iso_week_spec(p);
                                Some(Ok(week_key(iw.0 as int, iw.1 as int)))
                            },
                        },
                    },
                },
            },
        },
    }
}

fn key_error(prefix: &str, key: &str) -> (r: String)
    ensures
        r@ == prefix@ + debug_quoted(key@),
{
    concat(prefix, debug_str(key).as_str())
}

/// The key of the period before `key`.
pub fn prior_period_key(key: &str, period: Period) -> (r: Result<String, String>)
    requires
        prior_key_spec(key@, period) is Some,
    ensures
        prior_key_spec(key@, period) == Some(res_view(r)),
{
    match period {
        Period::Day => match parse_ymd(key) {
            Err(e) => {
                let mut m = key_error("parse date ", key);
                push_str(&mut m, ": ");
                push_str(&mut m, e.as_str());
                Err(m)
            },
            Ok(t) => match add_days(t, -1) {
                Some(p) => Ok(format_ymd(p)),
                None => {
                    proof {
                        assert(false);
                    }
                    Err(String::new())
                },
            },
        },
        Period::Month => {
            let k1 = concat(key, "-01");
            match parse_ymd(k1.as_str()) {
                Err(e) => {
                    let mut m = key_error("parse month ", key);
                    push_str(&mut m, ": ");
                    push_str(&mut m, e.as_str());
                    Err(m)
                },
                Ok(t) => match add_days(t, -1) {
                    Some(p) => Ok(format_ym(p)),
                    None => Err(key_error("cannot compute prior month for ", key)),
                },
            }
        },
        Period::Week => match split_once_str(key, "-W") {
            None => Err(key_error("invalid week key format: ", key)),
            Some(parts) => match parse_i32(parts.0.as_str()) {
                None => Err(key_error("invalid year in week key: ", key)),
                Some(y) => match parse_u32(parts.1.as_str()) {
                    None => Err(key_error("invalid week in week key: ", key)),
                    Some(w) => {
                        let monday = iso_week_start(y, w);
                        match add_days(monday, -7) {
                            Some(p) => {
                                let (iy, iw) = iso_week_of(p);
                                Ok(format_week_key(iy, iw))
                            },
                            None => {
                                proof {
                                    assert(false);
                                }
                                Err(String::new())
                            },
                        }
                    },
                },
            },
        },
    }
}

// ---------------------------------------------------------------------------
// Spending summaries: what is counted
// ---------------------------------------------------------------------------

/// One counted transaction: its currency, bucket key, amount and category.
pub struct Entry {
    pub currency: Seq<char>,
    pub key: Seq<char>,
    pub amount: Dec,
    pub category: Seq<char>,
}

/// The category a transaction counts under: `uncategorized` when it has none.
pub open spec fn category_of(inp: SummaryInput) -> Seq<char> {
    if inp.category@.len() == 0 {
        "uncategorized"@
    } else {
        inp.category@
    }
}

/// A debit whose date and amount parse is counted.
pub open spec fn input_entry(inp: SummaryInput, period: Period) -> Option<Entry> {
    if inp.credit_debit_indicator@ != "DBIT"@ {
        None
    } else {
        match bucket_key_spec(inp.booking_date@, period) {
            Err(_) => None,
            Ok(k) => match decimal_from_str(inp.amount@) {
                None => None,
                Some(a) => Some(Entry { currency: inp.currency@, key: k, amount: a, category: category_of(inp) }),
            },
        }
    }
}

/// The counted transactions, in input order.
pub open spec fn entries(inputs: Seq<SummaryInput>, period: Period) -> Seq<Entry>
    decreases inputs.len(),
{
    if inputs.len() == 0 {
        Seq::<Entry>::empty()
    } else {
        let p = entries(inputs.drop_last(), period);
        match input_entry(inputs.last(), period) {
            Some(e) => p.push(e),
            None => p,
        }
    }
}

/// The warning for a debit that is skipped.
pub open spec fn input_warning(inp: SummaryInput, period: Period) -> Option<Seq<char>> {
    if inp.credit_debit_indicator@ != "DBIT"@ {
        None
    } else {
        match bucket_key_spec(inp.booking_date@, period) {
            Err(e) => Some("skipping transaction with date "@ + debug_quoted(inp.booking_date@) + ": "@ + e),
            Ok(_) => match decimal_from_str(inp.amount@) {
                None => Some("skipping transaction with invalid amount "@ + debug_quoted(inp.amount@)),
                Some(_) => None,
            },
        }
    }
}

/// The warnings for the skipped debits, in input order.
pub open spec fn summary_warnings(inputs: Seq<SummaryInput>, period: Period) -> Seq<Seq<char>>
    decreases inputs.len(),
{
    if inputs.len() == 0 {
        Seq::<Seq<char>>::empty()
    } else {
        let p = summary_warnings(inputs.drop_last(), period);
        match input_warning(inputs.last(), period) {
            Some(w) => p.push(w),
            None => p,
        }
    }
}

pub open spec fn in_bucket(e: Entry, cur: Seq<char>, key: Seq<char>) -> bool {
    e.currency == cur && e.key == key
}

/// Some counted transaction falls in the bucket.
pub open spec fn has_bucket(es: Seq<Entry>, cur: Seq<char>, key: Seq<char>) -> bool {
    exists|k: int| 0 <= k < es.len() && #[trigger] in_bucket(es[k], cur, key)
}

/// Some counted transaction of the bucket has the category.
pub open spec fn has_cat(es: Seq<Entry>, cur: Seq<char>, key: Seq<char>, name: Seq<char>) -> bool {
    exists|k: int| 0 <= k < es.len() && #[trigger] in_bucket(es[k], cur, key) && es[k].category == name
}

/// The bucket's total, added in order from zero with `Decimal` addition.
pub open spec fn bucket_sum(es: Seq<Entry>, cur: Seq<char>, key: Seq<char>) -> Dec
    decreases es.len(),
{
    if es.len() == 0 {
        zero_spec()
    } else {
        let s = bucket_sum(es.drop_last(), cur, key);
        if in_bucket(es.last(), cur, key) {
            decimal_add(s, es.last().amount)
        } else {
            s
        }
    }
}

/// The bucket's exact total (times 10^28).
pub open spec fn bucket_value(es: Seq<Entry>, cur: Seq<char>, key: Seq<char>) -> int
    decreases es.len(),
{
    if es.len() == 0 {
        0
    } else {
        let s = bucket_value(es.drop_last(), cur, key);
        if in_bucket(es.last(), cur, key) {
            s + es.last().amount.v()
        } else {
            s
        }
    }
}

/// The number of counted transactions in the bucket.
pub open spec fn bucket_count(es: Seq<Entry>, cur: Seq<char>, key: Seq<char>) -> nat
    decreases es.len(),
{
    if es.len() == 0 {
        0
    } else {
        let s = bucket_count(es.drop_last(), cur, key);
        if in_bucket(es.last(), cur, key) {
            s + 1
        } else {
            s
        }
    }
}

/// The number of counted transactions in the bucket that have a category.
pub open spec fn bucket_cat_count(es: Seq<Entry>, cur: Seq<char>, key: Seq<char>) -> nat
    decreases es.len(),
{
    if es.len() == 0 {
        0
    } else {
        let s = bucket_cat_count(es.drop_last(), cur, key);
        if in_bucket(es.last(), cur, key) && es.last().category != "uncategorized"@ {
            s + 1
        } else {
            s
        }
    }
}

/// The bucket's amount in one category, added in order from zero.
pub open spec fn cat_sum(es: Seq<Entry>, cur: Seq<char>, key: Seq<char>, name: Seq<char>) -> Dec
    decreases es.len(),
{
    if es.len() == 0 {
        zero_spec()
    } else {
        let s = cat_sum(es.drop_last(), cur, key, name);
        if in_bucket(es.last(), cur, key) && es.last().category == name {
            decimal_add(s, es.last().amount)
        } else {
            s
        }
    }
}

/// The bucket's exact amount in one category (times 10^28).
pub open spec fn cat_value(es: Seq<Entry>, cur: Seq<char>, key: Seq<char>, name: Seq<char>) -> int
    decreases es.len(),
{
    if es.len() == 0 {
        0
    } else {
        let s = cat_value(es.drop_last(), cur, key, name);
        if in_bucket(es.last(), cur, key) && es.last().category == name {
            s + es.last().amount.v()
        } else {
            s
        }
    }
}

/// Buckets are ordered by currency, then by key.
pub open spec fn pair_before(c1: Seq<char>, k1: Seq<char>, c2: Seq<char>, k2: Seq<char>) -> bool {
    lex_order(c1, c2) < 0 || (c1 == c2 && lex_order(k1, k2) < 0)
}

proof fn lemma_pair_trans(c1: Seq<char>, k1: Seq<char>, c2: Seq<char>, k2: Seq<char>, c3: Seq<char>, k3: Seq<char>)
    requires
        pair_before(c1, k1, c2, k2),
        pair_before(c2, k2, c3, k3),
    ensures
        pair_before(c1, k1, c3, k3),
{
    if lex_order(c1, c2) < 0 && lex_order(c2, c3) < 0 {
        lemma_lex_trans(c1, c2, c3);
    } else if lex_order(c1, c2) < 0 {
        assert(c2 == c3);
    } else if lex_order(c2, c3) < 0 {
        assert(c1 == c2);
    } else {
        lemma_lex_trans(k1, k2, k3);
    }
}

proof fn lemma_pair_irrefl(c1: Seq<char>, k1: Seq<char>, c2: Seq<char>, k2: Seq<char>)
    requires
        pair_before(c1, k1, c2, k2),
    ensures
        !pair_before(c2, k2, c1, k1),
        !(c1 == c2 && k1 == k2),
{
    lemma_lex_antisym(c1, c2);
    lemma_lex_antisym(k1, k2);
    lemma_lex_zero(c1, c2);
    lemma_lex_zero(k1, k2);
}

proof fn lemma_pair_total(c1: Seq<char>, k1: Seq<char>, c2: Seq<char>, k2: Seq<char>)
    ensures
        pair_before(c1, k1, c2, k2) || pair_before(c2, k2, c1, k1) || (c1 == c2 && k1 == k2),
{
    lemma_lex_antisym(c1, c2);
    lemma_lex_antisym(k1, k2);
    lemma_lex_zero(c1, c2);
    lemma_lex_zero(k1, k2);
}

// ---------------------------------------------------------------------------
// Spending summaries: accumulation
// ---------------------------------------------------------------------------

/// The running amount of one category of a bucket.
pub struct CatAcc {
    pub name: String,
    pub amount: Dec,
}

/// The running totals of one (currency, period key) bucket.
pub struct Bucket {
    pub currency: String,
    pub key: String,
    pub total: Dec,
    pub cats: Vec<CatAcc>,
    pub total_count: u64,
    pub cat_count: u64,
}

/// The amounts of the counted transactions.
pub open spec fn amounts_of(es: Seq<Entry>) -> Seq<Dec> {
    es.map_values(|e: Entry| e.amount)
}

/// The magnitudes of the amounts added up (each times 10^28).
pub open spec fn mass(amts: Seq<Dec>) -> int
    decreases amts.len(),
{
    if amts.len() == 0 {
        0
    } else {
        mass(amts.drop_last()) + abs_int(amts.last().v())
    }
}

/// The largest scale among the amounts (zero for none).
pub open spec fn amounts_scale(amts: Seq<Dec>) -> nat
    decreases amts.len(),
{
    if amts.len() == 0 {
        0
    } else {
        let s = amounts_scale(amts.drop_last());
        if amts.last().scale > s {
            amts.last().scale as nat
        } else {
            s
        }
    }
}

/// The magnitudes of the amounts added up, aligned to scale `s`.
pub open spec fn aligned_mass(amts: Seq<Dec>, s: nat) -> int
    decreases amts.len(),
{
    if amts.len() == 0 {
        0
    } else {
        aligned_mass(amts.drop_last(), s) + abs_int(amts.last().at(s))
    }
}

/// No sum a summary computes overflows: aligned to the largest scale among
/// them, the magnitudes of the amounts added up stay below 2^96.
pub open spec fn mass_ok(amts: Seq<Dec>) -> bool {
    &&& amounts_scale(amts) <= 28
    &&& mass(amts) < mantissa_bound() * pow10((28 - amounts_scale(amts)) as nat)
}

/// No change between periods overflows either: aligned to the largest scale,
/// three hundred times the magnitudes of the amounts added up stay below
/// 2^95 (room for a difference and a hundred times a ratio).
pub open spec fn compare_mass_ok(amts: Seq<Dec>) -> bool {
    300 * mass(amts) < safe_bound() * pow10((28 - amounts_scale(amts)) as nat)
}

/// An accumulated amount of the counted transactions `es`: a `Decimal` value
/// no finer than the finest of them and no larger than their magnitudes
/// together.
pub open spec fn within(d: Dec, es: Seq<Entry>) -> bool {
    &&& d.wf()
    &&& d.scale <= amounts_scale(amounts_of(es))
    &&& abs_int(d.v()) <= mass(amounts_of(es))
}

proof fn lemma_amounts_push(pre: Seq<Entry>, e: Entry)
    ensures
        amounts_of(pre.push(e)) == amounts_of(pre).push(e.amount),
        mass(amounts_of(pre.push(e))) == mass(amounts_of(pre)) + abs_int(e.amount.v()),
        amounts_scale(amounts_of(pre.push(e))) == (if e.amount.scale > amounts_scale(amounts_of(pre)) {
            e.amount.scale as nat
        } else {
            amounts_scale(amounts_of(pre))
        }),
{
    assert(amounts_of(pre.push(e)) =~= amounts_of(pre).push(e.amount));
    assert(amounts_of(pre).push(e.amount).drop_last() =~= amounts_of(pre));
}

proof fn lemma_mass_nonneg(amts: Seq<Dec>)
    ensures
        mass(amts) >= 0,
        aligned_mass(amts, 0) >= 0,
    decreases amts.len(),
{
    if amts.len() > 0 {
        lemma_mass_nonneg(amts.drop_last());
    }
}

proof fn lemma_aligned_nonneg(amts: Seq<Dec>, s: nat)
    ensures
        aligned_mass(amts, s) >= 0,
    decreases amts.len(),
{
    if amts.len() > 0 {
        lemma_aligned_nonneg(amts.drop_last(), s);
    }
}

/// The magnitudes at scale 28 are those at a coarser common scale, shifted.
proof fn lemma_mass_aligned(amts: Seq<Dec>, s: nat)
    requires
        amounts_scale(amts) <= s <= 28,
    ensures
        mass(amts) == aligned_mass(amts, s) * pow10((28 - s) as nat),
    decreases amts.len(),
{
    if amts.len() > 0 {
        let d = amts.last();
        lemma_mass_aligned(amts.drop_last(), s);
        lemma_at_shift(d, s, 28);
        let q = pow10((28 - s) as nat);
        lemma_pow10_pos((28 - s) as nat);
        assert(abs_int(d.at(s) * q) == abs_int(d.at(s)) * q) by (nonlinear_arith)
            requires
                q >= 1,
        ;
        assert((aligned_mass(amts.drop_last(), s) + abs_int(d.at(s))) * q == aligned_mass(amts.drop_last(), s) * q
            + abs_int(d.at(s)) * q) by (nonlinear_arith);
    }
}

/// Sums of amounts whose magnitudes together stay below 2^96 at the largest
/// scale are exact.
proof fn lemma_fits_by_value(a: Dec, b: Dec, s: nat, k: int)
    requires
        a.scale <= s,
        b.scale <= s,
        s <= 28,
        abs_int(a.v()) + abs_int(b.v()) <= k,
        k < mantissa_bound() * pow10((28 - s) as nat),
    ensures
        add_fits(a, b),
        sub_fits(a, b),
{
    let t = max_scale(a, b);
    lemma_at_shift(a, t, 28);
    lemma_at_shift(b, t, 28);
    let p = pow10((28 - t) as nat);
    let q = pow10((28 - s) as nat);
    lemma_pow10_mono((28 - s) as nat, (28 - t) as nat);
    lemma_pow10_pos((28 - s) as nat);
    let x = a.at(t);
    let y = b.at(t);
    let mb = mantissa_bound();
    assert(abs_int(x) < mb && abs_int(y) < mb && abs_int(x + y) < mb && abs_int(x - y) < mb) by (nonlinear_arith)
        requires
            a.v() == x * p,
            b.v() == y * p,
            abs_int(a.v()) + abs_int(b.v()) <= k,
            k < mb * q,
            1 <= q <= p,
            mb > 0,
    ;
}

proof fn lemma_within_mono(d: Dec, pre: Seq<Entry>, e: Entry)
    requires
        within(d, pre),
    ensures
        within(d, pre.push(e)),
{
    lemma_amounts_push(pre, e);
}

proof fn lemma_within_zero(pre: Seq<Entry>)
    ensures
        within(zero_spec(), pre),
{
    lemma_mass_nonneg(amounts_of(pre));
    assert(zero_spec().signed() == 0);
}

proof fn lemma_mass_ok_push(pre: Seq<Entry>, e: Entry)
    requires
        mass_ok(amounts_of(pre.push(e))),
    ensures
        mass_ok(amounts_of(pre)),
{
    lemma_amounts_push(pre, e);
    let s = amounts_scale(amounts_of(pre));
    let t = amounts_scale(amounts_of(pre.push(e)));
    lemma_pow10_mono((28 - t) as nat, (28 - s) as nat);
    assert(mantissa_bound() * pow10((28 - t) as nat) <= mantissa_bound() * pow10((28 - s) as nat)) by (nonlinear_arith)
        requires
            pow10((28 - t) as nat) <= pow10((28 - s) as nat),
    ;
}

/// Adding a counted amount to a running sum of the ones before it is exact,
/// and the sum is again an accumulated amount.
proof fn lemma_add_step(a: Dec, pre: Seq<Entry>, e: Entry)
    requires
        within(a, pre),
        e.amount.wf(),
        mass_ok(amounts_of(pre.push(e))),
    ensures
        add_fits(a, e.amount),
        forall|r: Dec|
            r.wf() && r.scale <= max_scale(a, e.amount) && r.v() == a.v() + e.amount.v() ==> #[trigger] within(
                r,
                pre.push(e),
            ),
{
    lemma_amounts_push(pre, e);
    let s = amounts_scale(amounts_of(pre.push(e)));
    let m = mass(amounts_of(pre.push(e)));
    lemma_fits_by_value(a, e.amount, s, m);
}

/// Comparing two accumulated amounts of transactions that a summary accepts
/// does not overflow.
proof fn lemma_within_delta(x: Dec, p: Dec, es: Seq<Entry>)
    requires
        within(x, es),
        within(p, es),
        mass_ok(amounts_of(es)),
        compare_mass_ok(amounts_of(es)),
    ensures
        delta_defined(x, p),
{
    let s = amounts_scale(amounts_of(es));
    let m = mass(amounts_of(es));
    let q = pow10((28 - s) as nat);
    lemma_pow10_pos((28 - s) as nat);
    assert(2 * m < mantissa_bound() * q) by (nonlinear_arith)
        requires
            300 * m < safe_bound() * q,
            q >= 1,
    ;
    lemma_fits_by_value(x, p, s, 2 * m);
    if p.mantissa != 0 {
        lemma_pow10_mono((28 - s) as nat, (28 - p.scale) as nat);
        let r = pow10((28 - p.scale) as nat);
        assert(p.signed() != 0);
        assert(abs_int(p.v()) >= q) by (nonlinear_arith)
            requires
                p.v() == p.signed() * r,
                p.signed() != 0,
                r >= q,
                q >= 1,
        ;
        assert(100 * (abs_int(x.v() - p.v()) + abs_int(p.v())) < safe_bound() * abs_int(p.v())) by (nonlinear_arith)
            requires
                abs_int(x.v()) <= m,
                abs_int(p.v()) <= m,
                300 * m < safe_bound() * q,
                abs_int(p.v()) >= q,
        ;
    }
}

pub open spec fn has_cat_acc(cats: Seq<CatAcc>, name: Seq<char>) -> bool {
    exists|i: int| 0 <= i < cats.len() && #[trigger] cats[i].name@ == name
}

/// The categories of bucket `(c, k)`: distinct names, each with the in-order
/// sum of its transactions, every category of the bucket present.
pub open spec fn cats_ok(es: Seq<Entry>, c: Seq<char>, k: Seq<char>, cats: Seq<CatAcc>) -> bool {
    &&& forall|i: int, j: int| 0 <= i < j < cats.len() ==> (#[trigger] cats[i]).name@ != (#[trigger] cats[j]).name@
    &&& forall|i: int| 0 <= i < cats.len() ==> {
        let nm = (#[trigger] cats[i]).name@;
        &&& has_cat(es, c, k, nm)
        &&& cats[i].amount == cat_sum(es, c, k, nm)
        &&& cats[i].amount.v() == cat_value(es, c, k, nm)
        &&& within(cats[i].amount, es)
    }
    &&& forall|q: int| 0 <= q < es.len() && #[trigger] in_bucket(es[q], c, k) ==> has_cat_acc(cats, es[q].category)
}

pub open spec fn bucket_ok(es: Seq<Entry>, b: Bucket) -> bool {
    let c = b.currency@;
    let k = b.key@;
    &&& has_bucket(es, c, k)
    &&& b.total == bucket_sum(es, c, k)
    &&& b.total.v() == bucket_value(es, c, k)
    &&& within(b.total, es)
    &&& b.total_count == bucket_count(es, c, k)
    &&& b.cat_count == bucket_cat_count(es, c, k)
    &&& cats_ok(es, c, k, b.cats@)
}

pub open spec fn has_bucket_in(bs: Seq<Bucket>, c: Seq<char>, k: Seq<char>) -> bool {
    exists|i: int| 0 <= i < bs.len() && #[trigger] bs[i].currency@ == c && bs[i].key@ == k
}

/// The buckets of the counted transactions `es`, in (currency, key) order.
pub open spec fn buckets_ok(es: Seq<Entry>, bs: Seq<Bucket>) -> bool {
    &&& forall|i: int, j: int| 0 <= i < j < bs.len() ==> pair_before(
        (#[trigger] bs[i]).currency@,
        bs[i].key@,
        (#[trigger] bs[j]).currency@,
        bs[j].key@,
    )
    &&& forall|i: int| 0 <= i < bs.len() ==> bucket_ok(es, #[trigger] bs[i])
    &&& forall|q: int| 0 <= q < es.len() ==> has_bucket_in(bs, (#[trigger] es[q]).currency, es[q].key)
}

proof fn lemma_sums_push(pre: Seq<Entry>, e: Entry, c: Seq<char>, k: Seq<char>, name: Seq<char>)
    ensures
        bucket_sum(pre.push(e), c, k) == (if in_bucket(e, c, k) {
            decimal_add(bucket_sum(pre, c, k), e.amount)
        } else {
            bucket_sum(pre, c, k)
        }),
        bucket_value(pre.push(e), c, k) == bucket_value(pre, c, k) + (if in_bucket(e, c, k) {
            e.amount.v()
        } else {
            0
        }),
        bucket_count(pre.push(e), c, k) == bucket_count(pre, c, k) + (if in_bucket(e, c, k) {
            1int
        } else {
            0int
        }),
        bucket_cat_count(pre.push(e), c, k) == bucket_cat_count(pre, c, k) + (if in_bucket(e, c, k)
            && e.category != "uncategorized"@ {
            1int
        } else {
            0int
        }),
        cat_sum(pre.push(e), c, k, name) == (if in_bucket(e, c, k) && e.category == name {
            decimal_add(cat_sum(pre, c, k, name), e.amount)
        } else {
            cat_sum(pre, c, k, name)
        }),
        cat_value(pre.push(e), c, k, name) == cat_value(pre, c, k, name) + (if in_bucket(e, c, k)
            && e.category == name {
            e.amount.v()
        } else {
            0
        }),
{
    assert(pre.push(e).drop_last() =~= pre);
}

proof fn lemma_has_push(pre: Seq<Entry>, e: Entry, c: Seq<char>, k: Seq<char>, name: Seq<char>)
    ensures
        has_bucket(pre.push(e), c, k) == (has_bucket(pre, c, k) || in_bucket(e, c, k)),
        has_cat(pre.push(e), c, k, name) == (has_cat(pre, c, k, name) || (in_bucket(e, c, k)
            && e.category == name)),
{
    let post = pre.push(e);
    if has_bucket(pre, c, k) {
        let q = choose|q: int| 0 <= q < pre.len() && #[trigger] in_bucket(pre[q], c, k);
        assert(post[q] == pre[q]);
    }
    if in_bucket(e, c, k) {
        assert(post[pre.len() as int] == e);
    }
    if has_bucket(post, c, k) {
        let q = choose|q: int| 0 <= q < post.len() && #[trigger] in_bucket(post[q], c, k);
        if q < pre.len() {
            assert(post[q] == pre[q]);
        }
    }
    if has_cat(pre, c, k, name) {
        let q = choose|q: int| 0 <= q < pre.len() && #[trigger] in_bucket(pre[q], c, k) && pre[q].category == name;
        assert(post[q] == pre[q]);
    }
    if has_cat(post, c, k, name) {
        let q = choose|q: int| 0 <= q < post.len() && #[trigger] in_bucket(post[q], c, k) && post[q].category == name;
        if q < pre.len() {
            assert(post[q] == pre[q]);
        }
    }
}

proof fn lemma_absent_bucket(es: Seq<Entry>, c: Seq<char>, k: Seq<char>)
    requires
        !has_bucket(es, c, k),
    ensures
        bucket_sum(es, c, k) == zero_spec(),
        bucket_value(es, c, k) == 0,
        bucket_count(es, c, k) == 0,
        bucket_cat_count(es, c, k) == 0,
    decreases es.len(),
{
    if es.len() > 0 {
        let p = es.drop_last();
        assert(!has_bucket(p, c, k)) by {
            if has_bucket(p, c, k) {
                let q = choose|q: int| 0 <= q < p.len() && #[trigger] in_bucket(p[q], c, k);
                assert(es[q] == p[q]);
            }
        }
        assert(!in_bucket(es[es.len() - 1], c, k));
        lemma_absent_bucket(p, c, k);
    }
}

proof fn lemma_absent_cat(es: Seq<Entry>, c: Seq<char>, k: Seq<char>, name: Seq<char>)
    requires
        !has_cat(es, c, k, name),
    ensures
        cat_sum(es, c, k, name) == zero_spec(),
        cat_value(es, c, k, name) == 0,
    decreases es.len(),
{
    if es.len() > 0 {
        let p = es.drop_last();
        assert(!has_cat(p, c, k, name)) by {
            if has_cat(p, c, k, name) {
                let q = choose|q: int| 0 <= q < p.len() && #[trigger] in_bucket(p[q], c, k) && p[q].category == name;
                assert(es[q] == p[q]);
            }
        }
        assert(!(in_bucket(es[es.len() - 1], c, k) && es[es.len() - 1].category == name));
        lemma_absent_cat(p, c, k, name);
    }
}

proof fn lemma_count_le(es: Seq<Entry>, c: Seq<char>, k: Seq<char>)
    ensures
        bucket_count(es, c, k) <= es.len(),
        bucket_cat_count(es, c, k) <= bucket_count(es, c, k),
    decreases es.len(),
{
    if es.len() > 0 {
        lemma_count_le(es.drop_last(), c, k);
    }
}

/// Adds one counted transaction to the categories of its bucket.
fn add_to_cats(
    cats: &mut Vec<CatAcc>,
    name: &str,
    amount: Dec,
    Ghost(pre): Ghost<Seq<Entry>>,
    Ghost(c): Ghost<Seq<char>>,
    Ghost(k): Ghost<Seq<char>>,
)
    requires
        cats_ok(pre, c, k, old(cats)@),
        amount.wf(),
        mass_ok(amounts_of(pre.push(Entry { currency: c, key: k, amount, category: name@ }))),
    ensures
        cats_ok(pre.push(Entry { currency: c, key: k, amount, category: name@ }), c, k, final(cats)@),
{
    let ghost e = Entry { currency: c, key: k, amount, category: name@ };
    let ghost post = pre.push(e);
    let ghost old_cats = cats@;
    proof {
        assert(in_bucket(e, c, k));
        assert(post[pre.len() as int] == e);
    }
    let mut i: usize = 0;
    while i < cats.len()
        invariant
            i <= cats@.len(),
            cats@ == old_cats,
            forall|j: int| 0 <= j < i ==> (#[trigger] cats@[j]).name@ != name@,
        ensures
            i <= cats@.len(),
            cats@ == old_cats,
            forall|j: int| 0 <= j < i ==> (#[trigger] cats@[j]).name@ != name@,
            i < cats@.len() ==> cats@[i as int].name@ == name@,
        decreases cats.len() - i,
    {
        if str_eq(cats[i].name.as_str(), name) {
            break;
        }
        i = i + 1;
    }
    if i < cats.len() {
        let old_amt = cats[i].amount;
        proof {
            lemma_sums_push(pre, e, c, k, name@);
            lemma_has_push(pre, e, c, k, name@);
            lemma_add_step(old_amt, pre, e);
        }
        let nc = CatAcc { name: copy_str(cats[i].name.as_str()), amount: dec_add(old_amt, amount) };
        cats.set(i, nc);
        proof {
            assert forall|j: int| 0 <= j < cats@.len() implies {
                let nm = (#[trigger] cats@[j]).name@;
                &&& has_cat(post, c, k, nm)
                &&& cats@[j].amount == cat_sum(post, c, k, nm)
                &&& cats@[j].amount.v() == cat_value(post, c, k, nm)
                &&& within(cats@[j].amount, post)
            } by {
                let nm = cats@[j].name@;
                lemma_sums_push(pre, e, c, k, nm);
                lemma_has_push(pre, e, c, k, nm);
                if j != i {
                    assert(cats@[j] == old_cats[j]);
                    assert(old_cats[j].name@ != old_cats[i as int].name@);
                    lemma_within_mono(old_cats[j].amount, pre, e);
                }
            }
            assert forall|q: int| 0 <= q < post.len() && #[trigger] in_bucket(post[q], c, k) implies has_cat_acc(cats@, post[q].category) by {
                if q < pre.len() {
                    assert(post[q] == pre[q]);
                    assert(in_bucket(pre[q], c, k));
                    let j = choose|j: int| 0 <= j < old_cats.len() && #[trigger] old_cats[j].name@ == pre[q].category;
                    assert(cats@[j].name@ == old_cats[j].name@);
                } else {
                    assert(cats@[i as int].name@ == name@);
                }
            }
            assert forall|a: int, b: int| 0 <= a < b < cats@.len() implies (#[trigger] cats@[a]).name@ != (#[trigger] cats@[b]).name@ by {
                assert(cats@[a].name@ == old_cats[a].name@);
                assert(cats@[b].name@ == old_cats[b].name@);
            }
        }
    } else {
        proof {
            assert(!has_cat(pre, c, k, name@)) by {
                if has_cat(pre, c, k, name@) {
                    let q = choose|q: int| 0 <= q < pre.len() && #[trigger] in_bucket(pre[q], c, k) && pre[q].category == name@;
                    let j = choose|j: int| 0 <= j < old_cats.len() && #[trigger] old_cats[j].name@ == pre[q].category;
                    assert(old_cats[j].name@ != name@);
                }
            }
            lemma_absent_cat(pre, c, k, name@);
            lemma_sums_push(pre, e, c, k, name@);
            lemma_has_push(pre, e, c, k, name@);
        }
        let z = dec_zero();
        proof {
            lemma_within_zero(pre);
            lemma_add_step(z, pre, e);
        }
        let nc = CatAcc { name: copy_str(name), amount: dec_add(z, amount) };
        cats.push(nc);
        proof {
            assert forall|j: int| 0 <= j < cats@.len() implies {
                let nm = (#[trigger] cats@[j]).name@;
                &&& has_cat(post, c, k, nm)
                &&& cats@[j].amount == cat_sum(post, c, k, nm)
                &&& cats@[j].amount.v() == cat_value(post, c, k, nm)
                &&& within(cats@[j].amount, post)
            } by {
                let nm = cats@[j].name@;
                lemma_sums_push(pre, e, c, k, nm);
                lemma_has_push(pre, e, c, k, nm);
                if j < old_cats.len() {
                    assert(cats@[j] == old_cats[j]);
                    lemma_within_mono(old_cats[j].amount, pre, e);
                }
            }
            assert forall|q: int| 0 <= q < post.len() && #[trigger] in_bucket(post[q], c, k) implies has_cat_acc(cats@, post[q].category) by {
                if q < pre.len() {
                    assert(post[q] == pre[q]);
                    assert(in_bucket(pre[q], c, k));
                    let j = choose|j: int| 0 <= j < old_cats.len() && #[trigger] old_cats[j].name@ == pre[q].category;
                    assert(cats@[j] == old_cats[j]);
                } else {
                    assert(cats@[old_cats.len() as int].name@ == name@);
                }
            }
            assert forall|a: int, b: int| 0 <= a < b < cats@.len() implies (#[trigger] cats@[a]).name@ != (#[trigger] cats@[b]).name@ by {
                if b < old_cats.len() {
                    assert(cats@[a] == old_cats[a]);
                    assert(cats@[b] == old_cats[b]);
                } else {
                    assert(cats@[a] == old_cats[a]);
                }
            }
        }
    }
}

pub open spec fn entry_with(c: Seq<char>, k: Seq<char>, amount: Dec, category: Seq<char>) -> Entry {
    Entry { currency: c, key: k, amount, category }
}

proof fn lemma_cats_other(pre: Seq<Entry>, e: Entry, c: Seq<char>, k: Seq<char>, cats: Seq<CatAcc>)
    requires
        cats_ok(pre, c, k, cats),
        !in_bucket(e, c, k),
    ensures
        cats_ok(pre.push(e), c, k, cats),
{
    let post = pre.push(e);
    assert forall|j: int| 0 <= j < cats.len() implies {
        let nm = (#[trigger] cats[j]).name@;
        &&& has_cat(post, c, k, nm)
        &&& cats[j].amount == cat_sum(post, c, k, nm)
        &&& cats[j].amount.v() == cat_value(post, c, k, nm)
        &&& within(cats[j].amount, post)
    } by {
        let nm = cats[j].name@;
        lemma_sums_push(pre, e, c, k, nm);
        lemma_has_push(pre, e, c, k, nm);
        lemma_within_mono(cats[j].amount, pre, e);
    }
    assert forall|q: int| 0 <= q < post.len() && #[trigger] in_bucket(post[q], c, k) implies has_cat_acc(cats, post[q].category) by {
        if q < pre.len() {
            assert(post[q] == pre[q]);
            assert(in_bucket(pre[q], c, k));
        } else {
            assert(post[q] == e);
        }
    }
}

proof fn lemma_bucket_other(pre: Seq<Entry>, e: Entry, b: Bucket)
    requires
        bucket_ok(pre, b),
        !in_bucket(e, b.currency@, b.key@),
    ensures
        bucket_ok(pre.push(e), b),
{
    let c = b.currency@;
    let k = b.key@;
    lemma_sums_push(pre, e, c, k, Seq::<char>::empty());
    lemma_has_push(pre, e, c, k, Seq::<char>::empty());
    lemma_within_mono(b.total, pre, e);
    lemma_cats_other(pre, e, c, k, b.cats@);
}

/// Adds one counted transaction to its (existing) bucket.
fn update_bucket(b: Bucket, amount: Dec, category: &str, Ghost(pre): Ghost<Seq<Entry>>) -> (r: Bucket)
    requires
        bucket_ok(pre, b),
        amount.wf(),
        mass_ok(amounts_of(pre.push(entry_with(b.currency@, b.key@, amount, category@)))),
        pre.len() < 2147483647,
    ensures
        r.currency@ == b.currency@,
        r.key@ == b.key@,
        bucket_ok(pre.push(entry_with(b.currency@, b.key@, amount, category@)), r),
{
    let ghost c = b.currency@;
    let ghost k = b.key@;
    let ghost e = entry_with(c, k, amount, category@);
    let Bucket { currency, key, total, cats, total_count, cat_count } = b;
    let mut cats = cats;
    add_to_cats(&mut cats, category, amount, Ghost(pre), Ghost(c), Ghost(k));
    proof {
        lemma_sums_push(pre, e, c, k, category@);
        lemma_has_push(pre, e, c, k, category@);
        lemma_add_step(total, pre, e);
        lemma_count_le(pre, c, k);
        assert(e == Entry { currency: c, key: k, amount, category: category@ });
    }
    let uncategorized = str_eq(category, "uncategorized");
    let new_cat_count = if uncategorized { cat_count } else { cat_count + 1 };
    Bucket {
        currency,
        key,
        total: dec_add(total, amount),
        cats,
        total_count: total_count + 1,
        cat_count: new_cat_count,
    }
}

/// A bucket holding one counted transaction.
fn new_bucket(currency: &str, key: &str, amount: Dec, category: &str, Ghost(pre): Ghost<Seq<Entry>>) -> (r: Bucket)
    requires
        !has_bucket(pre, currency@, key@),
        amount.wf(),
        mass_ok(amounts_of(pre.push(entry_with(currency@, key@, amount, category@)))),
    ensures
        r.currency@ == currency@,
        r.key@ == key@,
        bucket_ok(pre.push(entry_with(currency@, key@, amount, category@)), r),
{
    let ghost c = currency@;
    let ghost k = key@;
    let ghost e = entry_with(c, k, amount, category@);
    let ghost post = pre.push(e);
    let mut cats: Vec<CatAcc> = Vec::new();
    proof {
        lemma_absent_bucket(pre, c, k);
        assert forall|q: int| 0 <= q < pre.len() && #[trigger] in_bucket(pre[q], c, k) implies has_cat_acc(cats@, pre[q].category) by {
            assert(has_bucket(pre, c, k));
        }
        assert(cats_ok(pre, c, k, cats@));
    }
    add_to_cats(&mut cats, category, amount, Ghost(pre), Ghost(c), Ghost(k));
    let z = dec_zero();
    proof {
        lemma_sums_push(pre, e, c, k, category@);
        lemma_has_push(pre, e, c, k, category@);
        lemma_within_zero(pre);
        lemma_add_step(z, pre, e);
        assert(e == Entry { currency: c, key: k, amount, category: category@ });
    }
    let uncategorized = str_eq(category, "uncategorized");
    Bucket {
        currency: copy_str(currency),
        key: copy_str(key),
        total: dec_add(z, amount),
        cats,
        total_count: 1,
        cat_count: if uncategorized { 0 } else { 1 },
    }
}

/// Whether bucket `(c1, k1)` comes before `(c2, k2)`.
fn pair_less(c1: &str, k1: &str, c2: &str, k2: &str) -> (r: bool)
    ensures
        r == pair_before(c1@, k1@, c2@, k2@),
{
    let o = str_order(c1, c2);
    proof {
        lemma_lex_zero(c1@, c2@);
    }
    if o < 0 {
        true
    } else if o > 0 {
        false
    } else {
        proof {
            lemma_lex_zero(c1@, c2@);
        }
        str_order(k1, k2) < 0
    }
}

proof fn lemma_buckets_update(pre: Seq<Entry>, e: Entry, old_bs: Seq<Bucket>, new_bs: Seq<Bucket>, p: int)
    requires
        buckets_ok(pre, old_bs),
        0 <= p < old_bs.len(),
        in_bucket(e, old_bs[p].currency@, old_bs[p].key@),
        new_bs.len() == old_bs.len(),
        forall|i: int| 0 <= i < new_bs.len() && i != p ==> new_bs[i] == old_bs[i],
        new_bs[p].currency@ == old_bs[p].currency@,
        new_bs[p].key@ == old_bs[p].key@,
        bucket_ok(pre.push(e), new_bs[p]),
    ensures
        buckets_ok(pre.push(e), new_bs),
{
    let post = pre.push(e);
    assert forall|i: int, j: int| 0 <= i < j < new_bs.len() implies pair_before(
        (#[trigger] new_bs[i]).currency@,
        new_bs[i].key@,
        (#[trigger] new_bs[j]).currency@,
        new_bs[j].key@,
    ) by {
        assert(pair_before(old_bs[i].currency@, old_bs[i].key@, old_bs[j].currency@, old_bs[j].key@));
    }
    assert forall|i: int| 0 <= i < new_bs.len() implies bucket_ok(post, #[trigger] new_bs[i]) by {
        if i != p {
            assert(bucket_ok(pre, old_bs[i]));
            if in_bucket(e, old_bs[i].currency@, old_bs[i].key@) {
                if i < p {
                    lemma_pair_irrefl(old_bs[i].currency@, old_bs[i].key@, old_bs[p].currency@, old_bs[p].key@);
                } else {
                    lemma_pair_irrefl(old_bs[p].currency@, old_bs[p].key@, old_bs[i].currency@, old_bs[i].key@);
                }
            }
            lemma_bucket_other(pre, e, old_bs[i]);
        }
    }
    assert forall|q: int| 0 <= q < post.len() implies has_bucket_in(new_bs, (#[trigger] post[q]).currency, post[q].key) by {
        if q < pre.len() {
            assert(post[q] == pre[q]);
            let i = choose|i: int| 0 <= i < old_bs.len() && #[trigger] old_bs[i].currency@ == pre[q].currency && old_bs[i].key@ == pre[q].key;
            assert(new_bs[i].currency@ == old_bs[i].currency@ && new_bs[i].key@ == old_bs[i].key@);
        } else {
            assert(post[q] == e);
            assert(new_bs[p].currency@ == e.currency && new_bs[p].key@ == e.key);
        }
    }
}

#[verifier::spinoff_prover]
#[verifier::rlimit(40)]
proof fn lemma_buckets_insert(pre: Seq<Entry>, e: Entry, old_bs: Seq<Bucket>, nb: Bucket, p: int)
    requires
        buckets_ok(pre, old_bs),
        0 <= p <= old_bs.len(),
        forall|i: int| 0 <= i < p ==> pair_before((#[trigger] old_bs[i]).currency@, old_bs[i].key@, e.currency, e.key),
        p < old_bs.len() ==> pair_before(e.currency, e.key, old_bs[p].currency@, old_bs[p].key@),
        nb.currency@ == e.currency,
        nb.key@ == e.key,
        bucket_ok(pre.push(e), nb),
    ensures
        buckets_ok(pre.push(e), old_bs.insert(p, nb)),
{
    let post = pre.push(e);
    let new_bs = old_bs.insert(p, nb);
    assert forall|i: int| 0 <= i < old_bs.len() implies !in_bucket(e, (#[trigger] old_bs[i]).currency@, old_bs[i].key@) by {
        if i < p {
            lemma_pair_irrefl(old_bs[i].currency@, old_bs[i].key@, e.currency, e.key);
        } else {
            if i > p {
                lemma_pair_trans(e.currency, e.key, old_bs[p].currency@, old_bs[p].key@, old_bs[i].currency@, old_bs[i].key@);
            }
            lemma_pair_irrefl(e.currency, e.key, old_bs[i].currency@, old_bs[i].key@);
        }
    }
    assert forall|i: int, j: int| 0 <= i < j < new_bs.len() implies pair_before(
        (#[trigger] new_bs[i]).currency@,
        new_bs[i].key@,
        (#[trigger] new_bs[j]).currency@,
        new_bs[j].key@,
    ) by {
        if j < p {
            assert(new_bs[i] == old_bs[i] && new_bs[j] == old_bs[j]);
        } else if j == p {
            assert(new_bs[i] == old_bs[i]);
        } else if i < p {
            assert(new_bs[i] == old_bs[i] && new_bs[j] == old_bs[j - 1]);
            if j - 1 > p {
                lemma_pair_trans(e.currency, e.key, old_bs[p].currency@, old_bs[p].key@, old_bs[j - 1].currency@, old_bs[j - 1].key@);
            }
            lemma_pair_trans(old_bs[i].currency@, old_bs[i].key@, e.currency, e.key, old_bs[j - 1].currency@, old_bs[j - 1].key@);
        } else if i == p {
            assert(new_bs[j] == old_bs[j - 1]);
            if j - 1 > p {
                lemma_pair_trans(e.currency, e.key, old_bs[p].currency@, old_bs[p].key@, old_bs[j - 1].currency@, old_bs[j - 1].key@);
            }
        } else {
            assert(new_bs[i] == old_bs[i - 1] && new_bs[j] == old_bs[j - 1]);
        }
    }
    assert forall|i: int| 0 <= i < new_bs.len() implies bucket_ok(post, #[trigger] new_bs[i]) by {
        if i < p {
            assert(new_bs[i] == old_bs[i]);
            assert(bucket_ok(pre, old_bs[i]));
            lemma_bucket_other(pre, e, old_bs[i]);
        } else if i > p {
            assert(new_bs[i] == old_bs[i - 1]);
            assert(bucket_ok(pre, old_bs[i - 1]));
            lemma_bucket_other(pre, e, old_bs[i - 1]);
        }
    }
    assert forall|q: int| 0 <= q < post.len() implies has_bucket_in(new_bs, (#[trigger] post[q]).currency, post[q].key) by {
        if q < pre.len() {
            assert(post[q] == pre[q]);
            let i = choose|i: int| 0 <= i < old_bs.len() && #[trigger] old_bs[i].currency@ == pre[q].currency && old_bs[i].key@ == pre[q].key;
            if i < p {
                assert(new_bs[i] == old_bs[i]);
            } else {
                assert(new_bs[i + 1] == old_bs[i]);
            }
        } else {
            assert(post[q] == e);
            assert(new_bs[p] == nb);
        }
    }
}

/// Adds one counted transaction to the sorted buckets.
fn add_entry(
    bs: &mut Vec<Bucket>,
    currency: &str,
    key: &str,
    amount: Dec,
    category: &str,
    Ghost(pre): Ghost<Seq<Entry>>,
)
    requires
        buckets_ok(pre, old(bs)@),
        amount.wf(),
        mass_ok(amounts_of(pre.push(entry_with(currency@, key@, amount, category@)))),
        pre.len() < 2147483647,
    ensures
        buckets_ok(pre.push(entry_with(currency@, key@, amount, category@)), final(bs)@),
{
    let ghost e = entry_with(currency@, key@, amount, category@);
    let ghost old_bs = bs@;
    let mut p: usize = 0;
    while p < bs.len() && pair_less(bs[p].currency.as_str(), bs[p].key.as_str(), currency, key)
        invariant
            p <= bs@.len(),
            bs@ == old_bs,
            forall|i: int| 0 <= i < p ==> pair_before((#[trigger] bs@[i]).currency@, bs@[i].key@, currency@, key@),
        decreases bs.len() - p,
    {
        p = p + 1;
    }
    let found = p < bs.len() && str_eq(bs[p].currency.as_str(), currency) && str_eq(bs[p].key.as_str(), key);
    if found {
        let b = bs.remove(p);
        proof {
            assert(b == old_bs[p as int]);
            assert(bucket_ok(pre, b));
        }
        let nb = update_bucket(b, amount, category, Ghost(pre));
        bs.insert(p, nb);
        proof {
            assert(bs@ =~= old_bs.update(p as int, nb));
            assert(e == entry_with(old_bs[p as int].currency@, old_bs[p as int].key@, amount, category@));
            lemma_buckets_update(pre, e, old_bs, bs@, p as int);
        }
    } else {
        proof {
            if p < old_bs.len() {
                lemma_pair_total(old_bs[p as int].currency@, old_bs[p as int].key@, currency@, key@);
            }
            assert(!has_bucket(pre, currency@, key@)) by {
                if has_bucket(pre, currency@, key@) {
                    let q = choose|q: int| 0 <= q < pre.len() && #[trigger] in_bucket(pre[q], currency@, key@);
                    let i = choose|i: int| 0 <= i < old_bs.len() && #[trigger] old_bs[i].currency@ == pre[q].currency && old_bs[i].key@ == pre[q].key;
                    if i < p {
                        lemma_pair_irrefl(old_bs[i].currency@, old_bs[i].key@, currency@, key@);
                    } else if i > p {
                        lemma_pair_trans(currency@, key@, old_bs[p as int].currency@, old_bs[p as int].key@, old_bs[i].currency@, old_bs[i].key@);
                        lemma_pair_irrefl(currency@, key@, old_bs[i].currency@, old_bs[i].key@);
                    }
                }
            }
        }
        let nb = new_bucket(currency, key, amount, category, Ghost(pre));
        bs.insert(p, nb);
        proof {
            lemma_buckets_insert(pre, e, old_bs, nb, p as int);
        }
    }
}

/// The inputs a summary accepts: fewer than 2^31 - 1 of them, and counted
/// amounts whose sums and changes do not overflow (`mass_ok`).
pub open spec fn summary_amounts_ok(inputs: Seq<SummaryInput>, period: Period) -> bool {
    &&& inputs.len() < 2147483647
    &&& mass_ok(amounts_of(entries(inputs, period)))
}

proof fn lemma_entries_mass_ok(inputs: Seq<SummaryInput>, i: int, period: Period)
    requires
        0 <= i <= inputs.len(),
        mass_ok(amounts_of(entries(inputs, period))),
    ensures
        mass_ok(amounts_of(entries(inputs.take(i), period))),
    decreases inputs.len(),
{
    if i == inputs.len() {
        assert(inputs.take(i) =~= inputs);
    } else {
        let d = inputs.drop_last();
        assert(inputs.take(i) =~= d.take(i));
        match input_entry(inputs.last(), period) {
            Some(e) => {
                lemma_mass_ok_push(entries(d, period), e);
            },
            None => {},
        }
        lemma_entries_mass_ok(d, i, period);
    }
}

proof fn lemma_entries_len(inputs: Seq<SummaryInput>, period: Period)
    ensures
        entries(inputs, period).len() <= inputs.len(),
    decreases inputs.len(),
{
    if inputs.len() > 0 {
        lemma_entries_len(inputs.drop_last(), period);
    }
}

/// The buckets of the counted inputs and the warnings for the skipped ones.
fn collect_buckets(inputs: &[SummaryInput], period: Period) -> (r: (Vec<Bucket>, Vec<String>))
    requires
        summary_amounts_ok(inputs@, period),
    ensures
        buckets_ok(entries(inputs@, period), r.0@),
        views(r.1@) == summary_warnings(inputs@, period),
{
    let mut bs: Vec<Bucket> = Vec::new();
    let mut warnings: Vec<String> = Vec::new();
    let mut i: usize = 0;
    proof {
        assert(inputs@.take(0) =~= Seq::<SummaryInput>::empty());
        assert(views(warnings@) =~= Seq::<Seq<char>>::empty());
    }
    while i < inputs.len()
        invariant
            i <= inputs@.len(),
            summary_amounts_ok(inputs@, period),
            buckets_ok(entries(inputs@.take(i as int), period), bs@),
            views(warnings@) == summary_warnings(inputs@.take(i as int), period),
        decreases inputs.len() - i,
    {
        let inp = &inputs[i];
        let ghost pre_in = inputs@.take(i as int);
        let ghost post_in = inputs@.take(i + 1);
        let ghost pre = entries(pre_in, period);
        proof {
            assert(post_in.drop_last() =~= pre_in);
            assert(post_in.last() == *inp);
            lemma_entries_len(pre_in, period);
            reveal_strlit("DBIT");
        }
        if str_eq(inp.credit_debit_indicator.as_str(), "DBIT") {
            match bucket_key(inp.booking_date.as_str(), period) {
                Err(e) => {
                    let ghost before = warnings@;
                    let mut w = concat("skipping transaction with date ", debug_str(inp.booking_date.as_str()).as_str());
                    push_str(&mut w, ": ");
                    push_str(&mut w, e.as_str());
                    warnings.push(w);
                    proof {
                        assert(views(warnings@) =~= views(before).push(w@));
                    }
                },
                Ok(key) => match dec_parse(inp.amount.as_str()) {
                    None => {
                        let ghost before = warnings@;
                        let w = concat("skipping transaction with invalid amount ", debug_str(inp.amount.as_str()).as_str());
                        warnings.push(w);
                        proof {
                            assert(views(warnings@) =~= views(before).push(w@));
                        }
                    },
                    Some(amount) => {
                        let category = if inp.category.as_str().is_empty() {
                            copy_str("uncategorized")
                        } else {
                            copy_str(inp.category.as_str())
                        };
                        proof {
                            assert(input_entry(*inp, period) == Some(entry_with(inp.currency@, key@, amount, category@)));
                            lemma_entries_mass_ok(inputs@, i + 1, period);
                            assert(entries(post_in, period) == pre.push(entry_with(inp.currency@, key@, amount, category@)));
                        }
                        add_entry(&mut bs, inp.currency.as_str(), key.as_str(), amount, category.as_str(), Ghost(pre));
                    },
                },
            }
        }
        i = i + 1;
    }
    assert(inputs@.take(inputs@.len() as int) =~= inputs@);
    (bs, warnings)
}

// ---------------------------------------------------------------------------
// Spending summaries: ordering the categories
// ---------------------------------------------------------------------------

pub open spec fn has_cat_amount(cats: Seq<CategoryAmount>, name: Seq<char>) -> bool {
    exists|i: int| 0 <= i < cats.len() && #[trigger] cats[i].name@ == name
}

/// Categories are listed by amount, largest first, with `uncategorized` last.
pub open spec fn categories_ranked(cats: Seq<CategoryAmount>) -> bool {
    forall|i: int, j: int| 0 <= i < j < cats.len() ==> {
        &&& (#[trigger] cats[i]).name@ != "uncategorized"@
        &&& ((#[trigger] cats[j]).name@ != "uncategorized"@ ==> cats[i].amount.v() >= cats[j].amount.v())
    }
}

/// The categories of bucket `(c, k)`: one per category that occurs, with the
/// in-order sum of its amounts, ranked.
pub open spec fn categories_match(es: Seq<Entry>, c: Seq<char>, k: Seq<char>, cats: Seq<CategoryAmount>) -> bool {
    &&& forall|i: int, j: int| 0 <= i < j < cats.len() ==> (#[trigger] cats[i]).name@ != (#[trigger] cats[j]).name@
    &&& forall|i: int| 0 <= i < cats.len() ==> {
        let nm = (#[trigger] cats[i]).name@;
        &&& has_cat(es, c, k, nm)
        &&& cats[i].amount == cat_sum(es, c, k, nm)
        &&& cats[i].amount.v() == cat_value(es, c, k, nm)
    }
    &&& forall|q: int| 0 <= q < es.len() && #[trigger] in_bucket(es[q], c, k) ==> has_cat_amount(cats, es[q].category)
    &&& categories_ranked(cats)
}

pub open spec fn no_cat_deltas(cats: Seq<CategoryAmount>) -> bool {
    forall|i: int| 0 <= i < cats.len() ==> (#[trigger] cats[i]).delta is None
}

pub open spec fn all_within(cats: Seq<CategoryAmount>, es: Seq<Entry>) -> bool {
    forall|i: int| 0 <= i < cats.len() ==> within((#[trigger] cats[i]).amount, es)
}

pub open spec fn names_distinct(out: Seq<CategoryAmount>) -> bool {
    forall|a: int, b: int| 0 <= a < b < out.len() ==> (#[trigger] out[a]).name@ != (#[trigger] out[b]).name@
}

/// Every listed category is one of the first `i` accumulated ones.
pub open spec fn from_cats(out: Seq<CategoryAmount>, cats: Seq<CatAcc>, i: int) -> bool {
    forall|a: int| 0 <= a < out.len() ==> exists|b: int| 0 <= b < i && (#[trigger] out[a]).name@ == cats[b].name@
        && out[a].amount == cats[b].amount
}

/// Each of the first `i` accumulated categories is listed.
pub open spec fn covers_cats(out: Seq<CategoryAmount>, cats: Seq<CatAcc>, i: int) -> bool {
    forall|b: int| 0 <= b < i ==> has_cat_amount(out, (#[trigger] cats[b]).name@)
}

pub open spec fn cat_names_distinct(cats: Seq<CatAcc>) -> bool {
    forall|i: int, j: int| 0 <= i < j < cats.len() ==> (#[trigger] cats[i]).name@ != (#[trigger] cats[j]).name@
}

proof fn lemma_insert_ranked(old_out: Seq<CategoryAmount>, x: CategoryAmount, p: int)
    requires
        categories_ranked(old_out),
        0 <= p <= old_out.len(),
        forall|a: int| 0 <= a < old_out.len() ==> (#[trigger] old_out[a]).name@ != x.name@,
        x.name@ == "uncategorized"@ ==> p == old_out.len(),
        x.name@ != "uncategorized"@ ==> forall|a: int| 0 <= a < p ==> (#[trigger] old_out[a]).name@ != "uncategorized"@
            && old_out[a].amount.v() >= x.amount.v(),
        x.name@ != "uncategorized"@ && p < old_out.len() ==> (old_out[p].name@ == "uncategorized"@
            || old_out[p].amount.v() < x.amount.v()),
    ensures
        categories_ranked(old_out.insert(p, x)),
{
    let out = old_out.insert(p, x);
    assert forall|a: int, b: int| 0 <= a < b < out.len() implies {
        &&& (#[trigger] out[a]).name@ != "uncategorized"@
        &&& ((#[trigger] out[b]).name@ != "uncategorized"@ ==> out[a].amount.v() >= out[b].amount.v())
    } by {
        if b < p {
            assert(out[a] == old_out[a] && out[b] == old_out[b]);
        } else if b == p {
            assert(out[a] == old_out[a]);
            assert(out[b] == x);
            assert(old_out[a].name@ != x.name@);
        } else if a < p {
            assert(out[a] == old_out[a] && out[b] == old_out[b - 1]);
        } else if a == p {
            assert(out[a] == x);
            assert(out[b] == old_out[b - 1]);
            assert(x.name@ != "uncategorized"@);
            if old_out[p].name@ != "uncategorized"@ {
                if b - 1 > p {
                    assert(old_out[b - 1].name@ != "uncategorized"@ ==> old_out[p].amount.v() >= old_out[b - 1].amount.v());
                }
            } else {
                if b - 1 > p {
                    assert(old_out[p].name@ != "uncategorized"@);
                }
            }
        } else {
            assert(out[a] == old_out[a - 1] && out[b] == old_out[b - 1]);
        }
    }
}

proof fn lemma_rank_step(old_out: Seq<CategoryAmount>, cats: Seq<CatAcc>, i: int, p: int, x: CategoryAmount)
    requires
        0 <= i < cats.len(),
        0 <= p <= old_out.len(),
        cat_names_distinct(cats),
        names_distinct(old_out),
        from_cats(old_out, cats, i),
        covers_cats(old_out, cats, i),
        x.name@ == cats[i].name@,
        x.amount == cats[i].amount,
    ensures
        forall|a: int| 0 <= a < old_out.len() ==> (#[trigger] old_out[a]).name@ != x.name@,
        names_distinct(old_out.insert(p, x)),
        from_cats(old_out.insert(p, x), cats, i + 1),
        covers_cats(old_out.insert(p, x), cats, i + 1),
{
    let out = old_out.insert(p, x);
    assert forall|a: int| 0 <= a < old_out.len() implies (#[trigger] old_out[a]).name@ != x.name@ by {
        let b = choose|b: int| 0 <= b < i && (#[trigger] old_out[a]).name@ == cats[b].name@
            && old_out[a].amount == cats[b].amount;
        assert(cats[b].name@ != cats[i].name@);
    }
    assert forall|a: int, b: int| 0 <= a < b < out.len() implies (#[trigger] out[a]).name@ != (#[trigger] out[b]).name@ by {
        if b < p {
            assert(out[a] == old_out[a] && out[b] == old_out[b]);
        } else if b == p {
            assert(out[a] == old_out[a]);
        } else if a < p {
            assert(out[a] == old_out[a] && out[b] == old_out[b - 1]);
        } else if a == p {
            assert(out[b] == old_out[b - 1]);
        } else {
            assert(out[a] == old_out[a - 1] && out[b] == old_out[b - 1]);
        }
    }
    assert forall|a: int| 0 <= a < out.len() implies exists|b: int| 0 <= b < i + 1 && (#[trigger] out[a]).name@ == cats[b].name@
        && out[a].amount == cats[b].amount by {
        if a < p {
            assert(out[a] == old_out[a]);
        } else if a == p {
            assert(out[a] == x);
        } else {
            assert(out[a] == old_out[a - 1]);
        }
    }
    assert forall|b: int| 0 <= b < i + 1 implies has_cat_amount(out, (#[trigger] cats[b]).name@) by {
        if b < i {
            let a = choose|a: int| 0 <= a < old_out.len() && #[trigger] old_out[a].name@ == cats[b].name@;
            if a < p {
                assert(out[a] == old_out[a]);
            } else {
                assert(out[a + 1] == old_out[a]);
            }
        } else {
            assert(out[p] == x);
        }
    }
}

proof fn lemma_rank_done(es: Seq<Entry>, c: Seq<char>, k: Seq<char>, cats: Seq<CatAcc>, out: Seq<CategoryAmount>)
    requires
        cats_ok(es, c, k, cats),
        from_cats(out, cats, cats.len() as int),
        covers_cats(out, cats, cats.len() as int),
        names_distinct(out),
        categories_ranked(out),
    ensures
        categories_match(es, c, k, out),
        all_within(out, es),
{
    assert forall|a: int| 0 <= a < out.len() implies {
        let nm = (#[trigger] out[a]).name@;
        &&& has_cat(es, c, k, nm)
        &&& out[a].amount == cat_sum(es, c, k, nm)
        &&& out[a].amount.v() == cat_value(es, c, k, nm)
        &&& within(out[a].amount, es)
    } by {
        let b = choose|b: int| 0 <= b < cats.len() && (#[trigger] out[a]).name@ == cats[b].name@
            && out[a].amount == cats[b].amount;
        let nm = cats[b].name@;
        assert(has_cat(es, c, k, nm));
    }
    assert forall|q: int| 0 <= q < es.len() && #[trigger] in_bucket(es[q], c, k) implies has_cat_amount(out, es[q].category) by {
        let b = choose|b: int| 0 <= b < cats.len() && #[trigger] cats[b].name@ == es[q].category;
        assert(has_cat_amount(out, cats[b].name@));
    }
}

/// The categories of one bucket, ranked.
fn rank_categories(
    cats: &Vec<CatAcc>,
    Ghost(es): Ghost<Seq<Entry>>,
    Ghost(c): Ghost<Seq<char>>,
    Ghost(k): Ghost<Seq<char>>,
) -> (r: Vec<CategoryAmount>)
    requires
        cats_ok(es, c, k, cats@),
    ensures
        categories_match(es, c, k, r@),
        no_cat_deltas(r@),
        all_within(r@, es),
{
    let mut out: Vec<CategoryAmount> = Vec::new();
    let mut i: usize = 0;
    while i < cats.len()
        invariant
            i <= cats@.len(),
            cats_ok(es, c, k, cats@),
            categories_ranked(out@),
            no_cat_deltas(out@),
            names_distinct(out@),
            from_cats(out@, cats@, i as int),
            covers_cats(out@, cats@, i as int),
        decreases cats.len() - i,
    {
        let x = &cats[i];
        let is_unc = str_eq(x.name.as_str(), "uncategorized");
        let mut p: usize = 0;
        if is_unc {
            p = out.len();
        } else {
            while p < out.len() && !str_eq(out[p].name.as_str(), "uncategorized") && !crate::dec::dec_lt(out[p].amount, x.amount)
                invariant
                    p <= out@.len(),
                    cats_ok(es, c, k, cats@),
                    i < cats@.len(),
                    *x == cats@[i as int],
                    from_cats(out@, cats@, i as int),
                    forall|a: int| 0 <= a < p ==> (#[trigger] out@[a]).name@ != "uncategorized"@ && out@[a].amount.v() >= x.amount.v(),
                decreases out.len() - p,
            {
                proof {
                    let b = choose|b: int| 0 <= b < i && (#[trigger] out@[p as int]).name@ == cats@[b].name@
                        && out@[p as int].amount == cats@[b].amount;
                    assert(within(cats@[b].amount, es));
                }
                p = p + 1;
            }
            proof {
                if p < out@.len() {
                    let b = choose|b: int| 0 <= b < i && (#[trigger] out@[p as int]).name@ == cats@[b].name@
                        && out@[p as int].amount == cats@[b].amount;
                    assert(within(cats@[b].amount, es));
                    assert(within(x.amount, es));
                }
            }
        }
        let ghost old_out = out@;
        let ca = CategoryAmount { name: copy_str(x.name.as_str()), amount: x.amount, delta: None };
        proof {
            lemma_rank_step(old_out, cats@, i as int, p as int, ca);
            lemma_insert_ranked(old_out, ca, p as int);
        }
        out.insert(p, ca);
        proof {
            assert forall|a: int| 0 <= a < out@.len() implies (#[trigger] out@[a]).delta is None by {
                if a < p {
                    assert(out@[a] == old_out[a]);
                } else if a > p {
                    assert(out@[a] == old_out[a - 1]);
                }
            }
        }
        i = i + 1;
    }
    proof {
        lemma_rank_done(es, c, k, cats@, out@);
    }
    out
}

// ---------------------------------------------------------------------------
// Spending summaries: periods
// ---------------------------------------------------------------------------

/// `p` summarizes bucket `(p.currency, p.key)` of the counted transactions.
pub open spec fn period_matches(es: Seq<Entry>, p: PeriodSummary) -> bool {
    let c = p.currency@;
    let k = p.key@;
    &&& has_bucket(es, c, k)
    &&& p.total == bucket_sum(es, c, k)
    &&& p.total.v() == bucket_value(es, c, k)
    &&& p.coverage.total == bucket_count(es, c, k)
    &&& p.coverage.categorized == bucket_cat_count(es, c, k)
    &&& categories_match(es, c, k, p.categories@)
}

pub open spec fn has_period(ps: Seq<PeriodSummary>, c: Seq<char>, k: Seq<char>) -> bool {
    exists|i: int| 0 <= i < ps.len() && #[trigger] ps[i].currency@ == c && ps[i].key@ == k
}

/// One period per bucket of the counted transactions, ordered by currency
/// and then by key.
pub open spec fn periods_match(es: Seq<Entry>, ps: Seq<PeriodSummary>) -> bool {
    &&& forall|i: int, j: int| 0 <= i < j < ps.len() ==> pair_before(
        (#[trigger] ps[i]).currency@,
        ps[i].key@,
        (#[trigger] ps[j]).currency@,
        ps[j].key@,
    )
    &&& forall|i: int| 0 <= i < ps.len() ==> period_matches(es, #[trigger] ps[i])
    &&& forall|q: int| 0 <= q < es.len() ==> has_period(ps, (#[trigger] es[q]).currency, es[q].key)
}

pub open spec fn period_within(p: PeriodSummary, es: Seq<Entry>) -> bool {
    within(p.total, es) && all_within(p.categories@, es)
}

pub open spec fn no_deltas(p: PeriodSummary) -> bool {
    p.delta is None && no_cat_deltas(p.categories@)
}

/// The periods of the buckets, with no changes computed yet.
fn finalize(bs: &Vec<Bucket>, Ghost(es): Ghost<Seq<Entry>>) -> (r: Vec<PeriodSummary>)
    requires
        buckets_ok(es, bs@),
        es.len() < 2147483647,
    ensures
        periods_match(es, r@),
        forall|i: int| 0 <= i < r@.len() ==> period_within(#[trigger] r@[i], es),
        forall|i: int| 0 <= i < r@.len() ==> no_deltas(#[trigger] r@[i]),
{
    let mut out: Vec<PeriodSummary> = Vec::new();
    let mut i: usize = 0;
    while i < bs.len()
        invariant
            i <= bs@.len(),
            buckets_ok(es, bs@),
            es.len() < 2147483647,
            out@.len() == i,
            forall|a: int| 0 <= a < i ==> (#[trigger] out@[a]).currency@ == bs@[a].currency@ && out@[a].key@ == bs@[a].key@,
            forall|a: int| 0 <= a < i ==> period_matches(es, #[trigger] out@[a]),
            forall|a: int| 0 <= a < i ==> period_within(#[trigger] out@[a], es),
            forall|a: int| 0 <= a < i ==> no_deltas(#[trigger] out@[a]),
        decreases bs.len() - i,
    {
        let b = &bs[i];
        proof {
            assert(bucket_ok(es, bs@[i as int]));
            lemma_count_le(es, b.currency@, b.key@);
        }
        let cats = rank_categories(&b.cats, Ghost(es), Ghost(b.currency@), Ghost(b.key@));
        let ps = PeriodSummary {
            key: copy_str(b.key.as_str()),
            currency: copy_str(b.currency.as_str()),
            total: b.total,
            categories: cats,
            delta: None,
            coverage: CoverageInfo { categorized: b.cat_count as i32, total: b.total_count as i32 },
        };
        let ghost before = out@;
        out.push(ps);
        proof {
            assert forall|a: int| 0 <= a < i + 1 implies (#[trigger] out@[a]).currency@ == bs@[a].currency@ && out@[a].key@ == bs@[a].key@ by {
                if a < i {
                    assert(out@[a] == before[a]);
                }
            }
            assert forall|a: int| 0 <= a < i + 1 implies period_matches(es, #[trigger] out@[a]) && period_within(out@[a], es) && no_deltas(out@[a]) by {
                if a < i {
                    assert(out@[a] == before[a]);
                }
            }
        }
        i = i + 1;
    }
    proof {
        assert forall|a: int, j: int| 0 <= a < j < out@.len() implies pair_before(
            (#[trigger] out@[a]).currency@,
            out@[a].key@,
            (#[trigger] out@[j]).currency@,
            out@[j].key@,
        ) by {
            assert(pair_before(bs@[a].currency@, bs@[a].key@, bs@[j].currency@, bs@[j].key@));
        }
        assert forall|q: int| 0 <= q < es.len() implies has_period(out@, (#[trigger] es[q]).currency, es[q].key) by {
            let a = choose|a: int| 0 <= a < bs@.len() && #[trigger] bs@[a].currency@ == es[q].currency && bs@[a].key@ == es[q].key;
            assert(out@[a].currency@ == es[q].currency);
        }
    }
    out
}

// ---------------------------------------------------------------------------
// Spending summaries: period-over-period changes
// ---------------------------------------------------------------------------

/// Period `j` is the period before period `i`: same currency, and its key is
/// the prior key of period `i`'s key.
pub open spec fn is_prior(ps: Seq<PeriodSummary>, i: int, j: int, period: Period) -> bool {
    &&& 0 <= j < ps.len()
    &&& ps[j].currency@ == ps[i].currency@
    &&& prior_key_spec(ps[i].key@, period) == Some(Ok::<Seq<char>, Seq<char>>(ps[j].key@))
}

pub open spec fn has_prior(ps: Seq<PeriodSummary>, i: int, period: Period) -> bool {
    exists|j: int| #[trigger] is_prior(ps, i, j, period)
}

/// The amount of the first category of a list with the given name, zero when
/// there is none.
pub open spec fn prior_cat_amount(cats: Seq<CategoryAmount>, name: Seq<char>) -> Dec
    decreases cats.len(),
{
    if cats.len() == 0 {
        zero_spec()
    } else if cats[0].name@ == name {
        cats[0].amount
    } else {
        prior_cat_amount(cats.drop_first(), name)
    }
}

/// Each category's change against the same category of `prior` (zero when
/// it is absent there).
pub open spec fn cat_deltas_ok(cats: Seq<CategoryAmount>, prior: Seq<CategoryAmount>) -> bool {
    forall|c: int| 0 <= c < cats.len() ==> ((#[trigger] cats[c]).delta matches Some(d) && delta_spec(
        cats[c].amount,
        prior_cat_amount(prior, cats[c].name@),
        d,
    ))
}

/// With comparison on and more than one period, a period whose prior period
/// exists carries its change and its categories' changes against it; every
/// other period carries none.
pub open spec fn deltas_ok(ps: Seq<PeriodSummary>, period: Period, compare: bool) -> bool {
    &&& forall|i: int| 0 <= i < ps.len() && !(compare && ps.len() > 1 && has_prior(ps, i, period)) ==> no_deltas(
        #[trigger] ps[i],
    )
    &&& forall|i: int, j: int| 0 <= i < ps.len() && compare && ps.len() > 1 && #[trigger] is_prior(ps, i, j, period) ==> {
        &&& ps[i].delta matches Some(d) && delta_spec(ps[i].total, ps[j].total, d)
        &&& cat_deltas_ok(ps[i].categories@, ps[j].categories@)
    }
}

/// `b` is `a` with (possibly) changes filled in.
pub open spec fn same_but_deltas(a: PeriodSummary, b: PeriodSummary) -> bool {
    &&& a.key@ == b.key@
    &&& a.currency@ == b.currency@
    &&& a.total == b.total
    &&& a.coverage == b.coverage
    &&& a.categories@.len() == b.categories@.len()
    &&& forall|c: int| 0 <= c < a.categories@.len() ==> (#[trigger] a.categories@[c]).name@ == b.categories@[c].name@
        && a.categories@[c].amount == b.categories@[c].amount
}

fn find_period(ps: &Vec<PeriodSummary>, c: &str, k: &str) -> (r: Option<usize>)
    ensures
        match r {
            Some(j) => j < ps@.len() && ps@[j as int].currency@ == c@ && ps@[j as int].key@ == k@,
            None => !has_period(ps@, c@, k@),
        },
{
    let mut j: usize = 0;
    while j < ps.len()
        invariant
            j <= ps@.len(),
            forall|a: int| 0 <= a < j ==> !((#[trigger] ps@[a]).currency@ == c@ && ps@[a].key@ == k@),
        decreases ps.len() - j,
    {
        if str_eq(ps[j].currency.as_str(), c) && str_eq(ps[j].key.as_str(), k) {
            return Some(j);
        }
        j = j + 1;
    }
    None
}

fn find_cat_amount(cats: &Vec<CategoryAmount>, name: &str) -> (r: Dec)
    ensures
        r == prior_cat_amount(cats@, name@),
        r == zero_spec() || exists|j: int| 0 <= j < cats@.len() && #[trigger] cats@[j].amount == r,
{
    let mut j: usize = 0;
    assert(cats@.skip(0) =~= cats@);
    while j < cats.len()
        invariant
            j <= cats@.len(),
            prior_cat_amount(cats@, name@) == prior_cat_amount(cats@.skip(j as int), name@),
        decreases cats.len() - j,
    {
        assert(cats@.skip(j as int)[0] == cats@[j as int]);
        if str_eq(cats[j].name.as_str(), name) {
            return cats[j].amount;
        }
        assert(cats@.skip(j as int).drop_first() =~= cats@.skip(j + 1));
        j = j + 1;
    }
    assert(cats@.skip(j as int).len() == 0);
    dec_zero()
}

fn copy_categories(cats: &Vec<CategoryAmount>) -> (r: Vec<CategoryAmount>)
    ensures
        r@.len() == cats@.len(),
        forall|c: int| 0 <= c < cats@.len() ==> (#[trigger] cats@[c]).name@ == r@[c].name@ && cats@[c].amount
            == r@[c].amount,
        no_cat_deltas(r@),
{
    let mut out: Vec<CategoryAmount> = Vec::new();
    let mut i: usize = 0;
    while i < cats.len()
        invariant
            i <= cats@.len(),
            out@.len() == i,
            forall|c: int| 0 <= c < i ==> (#[trigger] cats@[c]).name@ == out@[c].name@ && cats@[c].amount
                == out@[c].amount,
            no_cat_deltas(out@),
        decreases cats.len() - i,
    {
        out.push(CategoryAmount { name: copy_str(cats[i].name.as_str()), amount: cats[i].amount, delta: None });
        i = i + 1;
    }
    out
}

fn categories_with_deltas(cats: &Vec<CategoryAmount>, prior: &Vec<CategoryAmount>, Ghost(es): Ghost<Seq<Entry>>) -> (r: Vec<
    CategoryAmount,
>)
    requires
        names_distinct(prior@),
        all_within(cats@, es),
        all_within(prior@, es),
        mass_ok(amounts_of(es)),
        compare_mass_ok(amounts_of(es)),
    ensures
        r@.len() == cats@.len(),
        forall|c: int| 0 <= c < cats@.len() ==> (#[trigger] cats@[c]).name@ == r@[c].name@ && cats@[c].amount
            == r@[c].amount,
        cat_deltas_ok(r@, prior@),
{
    let mut out: Vec<CategoryAmount> = Vec::new();
    let mut i: usize = 0;
    while i < cats.len()
        invariant
            i <= cats@.len(),
            names_distinct(prior@),
            all_within(cats@, es),
            all_within(prior@, es),
            mass_ok(amounts_of(es)),
            compare_mass_ok(amounts_of(es)),
            out@.len() == i,
            forall|c: int| 0 <= c < i ==> (#[trigger] cats@[c]).name@ == out@[c].name@ && cats@[c].amount
                == out@[c].amount,
            cat_deltas_ok(out@, prior@),
        decreases cats.len() - i,
    {
        let prior_amount = find_cat_amount(prior, cats[i].name.as_str());
        proof {
            assert(within(cats@[i as int].amount, es));
            if prior_amount == zero_spec() {
                lemma_within_zero(es);
            } else {
                let x = choose|j: int| 0 <= j < prior@.len() && #[trigger] prior@[j].amount == prior_amount;
                assert(within(prior@[x].amount, es));
            }
            lemma_within_delta(cats@[i as int].amount, prior_amount, es);
        }
        let d = compute_delta(cats[i].amount, prior_amount);
        let ghost before = out@;
        out.push(CategoryAmount { name: copy_str(cats[i].name.as_str()), amount: cats[i].amount, delta: Some(d) });
        proof {
            assert forall|c: int| 0 <= c < out@.len() implies ((#[trigger] out@[c]).delta matches Some(dd) && delta_spec(
                out@[c].amount,
                prior_cat_amount(prior@, out@[c].name@),
                dd,
            )) by {
                if c < i {
                    assert(out@[c] == before[c]);
                }
            }
        }
        i = i + 1;
    }
    out
}

proof fn lemma_prior_cat_amount_eq(a: Seq<CategoryAmount>, b: Seq<CategoryAmount>, name: Seq<char>)
    requires
        a.len() == b.len(),
        forall|c: int| 0 <= c < a.len() ==> (#[trigger] a[c]).name@ == b[c].name@ && a[c].amount == b[c].amount,
    ensures
        prior_cat_amount(a, name) == prior_cat_amount(b, name),
    decreases a.len(),
{
    if a.len() > 0 {
        assert(a[0].name@ == b[0].name@ && a[0].amount == b[0].amount);
        let a1 = a.drop_first();
        let b1 = b.drop_first();
        assert forall|c: int| 0 <= c < a1.len() implies (#[trigger] a1[c]).name@ == b1[c].name@ && a1[c].amount == b1[c].amount by {
            assert(a1[c] == a[c + 1]);
            assert(b1[c] == b[c + 1]);
        }
        lemma_prior_cat_amount_eq(a1, b1, name);
    }
}

/// The unique period with a currency and a key, in strictly ordered periods.
proof fn lemma_prior_unique(ps: Seq<PeriodSummary>, i: int, j1: int, j2: int, period: Period)
    requires
        forall|a: int, b: int| 0 <= a < b < ps.len() ==> pair_before(
            (#[trigger] ps[a]).currency@,
            ps[a].key@,
            (#[trigger] ps[b]).currency@,
            ps[b].key@,
        ),
        is_prior(ps, i, j1, period),
        is_prior(ps, i, j2, period),
    ensures
        j1 == j2,
{
    if j1 < j2 {
        lemma_pair_irrefl(ps[j1].currency@, ps[j1].key@, ps[j2].currency@, ps[j2].key@);
    } else if j2 < j1 {
        lemma_pair_irrefl(ps[j2].currency@, ps[j2].key@, ps[j1].currency@, ps[j1].key@);
    }
}

pub open spec fn periods_sorted(ps: Seq<PeriodSummary>) -> bool {
    forall|a: int, b: int| 0 <= a < b < ps.len() ==> pair_before(
        (#[trigger] ps[a]).currency@,
        ps[a].key@,
        (#[trigger] ps[b]).currency@,
        ps[b].key@,
    )
}

fn copy_period(p: &PeriodSummary, categories: Vec<CategoryAmount>, delta: Option<DeltaInfo>) -> (r: PeriodSummary)
    ensures
        r.key@ == p.key@,
        r.currency@ == p.currency@,
        r.total == p.total,
        r.coverage == p.coverage,
        r.categories == categories,
        r.delta == delta,
{
    PeriodSummary {
        key: copy_str(p.key.as_str()),
        currency: copy_str(p.currency.as_str()),
        total: p.total,
        categories,
        delta,
        coverage: p.coverage,
    }
}

/// The periods with their changes against the prior periods filled in.
fn with_deltas(base: &Vec<PeriodSummary>, period: Period, compare: bool, Ghost(es): Ghost<Seq<Entry>>) -> (r: Vec<PeriodSummary>)
    requires
        periods_sorted(base@),
        forall|i: int| 0 <= i < base@.len() ==> names_distinct((#[trigger] base@[i]).categories@) && period_within(
            base@[i],
            es,
        ),
        mass_ok(amounts_of(es)),
        compare && base@.len() > 1 ==> compare_mass_ok(amounts_of(es)),
        compare && base@.len() > 1 ==> forall|i: int| 0 <= i < base@.len() ==> (prior_key_spec(
            (#[trigger] base@[i]).key@,
            period,
        ) is Some),
    ensures
        r@.len() == base@.len(),
        forall|i: int| 0 <= i < base@.len() ==> same_but_deltas(#[trigger] base@[i], r@[i]),
        deltas_ok(r@, period, compare),
{
    let ghost bp = base@;
    let active = compare && base.len() > 1;
    let mut out: Vec<PeriodSummary> = Vec::new();
    let mut i: usize = 0;
    while i < base.len()
        invariant
            i <= bp.len(),
            bp == base@,
            active == (compare && bp.len() > 1),
            periods_sorted(bp),
            forall|a: int| 0 <= a < bp.len() ==> names_distinct((#[trigger] bp[a]).categories@) && period_within(bp[a], es),
            mass_ok(amounts_of(es)),
            active ==> compare_mass_ok(amounts_of(es)),
            active ==> forall|a: int| 0 <= a < bp.len() ==> (prior_key_spec((#[trigger] bp[a]).key@, period) is Some),
            out@.len() == i,
            forall|a: int| 0 <= a < i ==> same_but_deltas(#[trigger] bp[a], out@[a]),
            forall|a: int| 0 <= a < i && !(active && has_prior(bp, a, period)) ==> no_deltas(#[trigger] out@[a]),
            forall|a: int, j: int| 0 <= a < i && active && #[trigger] is_prior(bp, a, j, period) ==> {
                &&& out@[a].delta matches Some(d) && delta_spec(bp[a].total, bp[j].total, d)
                &&& cat_deltas_ok(out@[a].categories@, bp[j].categories@)
            },
        decreases base.len() - i,
    {
        let p = &base[i];
        let ghost before = out@;
        let mut done = false;
        if active {
            proof {
                assert(prior_key_spec(bp[i as int].key@, period) is Some);
            }
            match prior_period_key(p.key.as_str(), period) {
                Err(_) => {},
                Ok(pk) => match find_period(base, p.currency.as_str(), pk.as_str()) {
                    None => {
                        proof {
                            assert(!has_prior(bp, i as int, period)) by {
                                if has_prior(bp, i as int, period) {
                                    let j = choose|j: int| #[trigger] is_prior(bp, i as int, j, period);
                                    assert(bp[j].currency@ == p.currency@ && bp[j].key@ == pk@);
                                }
                            }
                        }
                    },
                    Some(j) => {
                        proof {
                            assert(is_prior(bp, i as int, j as int, period));
                            assert(period_within(bp[i as int], es));
                            assert(period_within(bp[j as int], es));
                            lemma_within_delta(p.total, base[j as int].total, es);
                        }
                        let d = compute_delta(p.total, base[j].total);
                        let cats = categories_with_deltas(&p.categories, &base[j].categories, Ghost(es));
                        let np = copy_period(p, cats, Some(d));
                        out.push(np);
                        done = true;
                        proof {
                            assert forall|a: int, jj: int| 0 <= a < i + 1 && active && #[trigger] is_prior(bp, a, jj, period) implies {
                                &&& out@[a].delta matches Some(dd) && delta_spec(bp[a].total, bp[jj].total, dd)
                                &&& cat_deltas_ok(out@[a].categories@, bp[jj].categories@)
                            } by {
                                if a < i {
                                    assert(out@[a] == before[a]);
                                } else {
                                    lemma_prior_unique(bp, a, jj, j as int, period);
                                }
                            }
                            assert forall|a: int| 0 <= a < i + 1 implies same_but_deltas(#[trigger] bp[a], out@[a]) by {
                                if a < i {
                                    assert(out@[a] == before[a]);
                                }
                            }
                            assert forall|a: int| 0 <= a < i + 1 && !(active && has_prior(bp, a, period)) implies no_deltas(#[trigger] out@[a]) by {
                                if a < i {
                                    assert(out@[a] == before[a]);
                                } else {
                                    assert(has_prior(bp, a, period));
                                }
                            }
                        }
                    },
                },
            }
        }
        if !done {
            proof {
                if active {
                    match prior_key_spec(bp[i as int].key@, period) {
                        Some(Ok(pk)) => {},
                        _ => {
                            assert(!has_prior(bp, i as int, period)) by {
                                if has_prior(bp, i as int, period) {
                                    let j = choose|j: int| #[trigger] is_prior(bp, i as int, j, period);
                                }
                            }
                        },
                    }
                }
            }
            let cats = copy_categories(&p.categories);
            let np = copy_period(p, cats, None);
            out.push(np);
            proof {
                assert(!(active && has_prior(bp, i as int, period)));
                assert forall|a: int, jj: int| 0 <= a < i + 1 && active && #[trigger] is_prior(bp, a, jj, period) implies {
                    &&& out@[a].delta matches Some(dd) && delta_spec(bp[a].total, bp[jj].total, dd)
                    &&& cat_deltas_ok(out@[a].categories@, bp[jj].categories@)
                } by {
                    if a < i {
                        assert(out@[a] == before[a]);
                    } else {
                        assert(has_prior(bp, a, period));
                    }
                }
                assert forall|a: int| 0 <= a < i + 1 implies same_but_deltas(#[trigger] bp[a], out@[a]) by {
                    if a < i {
                        assert(out@[a] == before[a]);
                    }
                }
                assert forall|a: int| 0 <= a < i + 1 && !(active && has_prior(bp, a, period)) implies no_deltas(#[trigger] out@[a]) by {
                    if a < i {
                        assert(out@[a] == before[a]);
                    }
                }
            }
        }
        i = i + 1;
    }
    proof {
        lemma_deltas_transfer(bp, out@, period, compare);
    }
    out
}

proof fn lemma_deltas_transfer(bp: Seq<PeriodSummary>, ps: Seq<PeriodSummary>, period: Period, compare: bool)
    requires
        ps.len() == bp.len(),
        forall|a: int| 0 <= a < bp.len() ==> names_distinct((#[trigger] bp[a]).categories@),
        forall|a: int| 0 <= a < bp.len() ==> same_but_deltas(#[trigger] bp[a], ps[a]),
        forall|a: int| 0 <= a < bp.len() && !(compare && bp.len() > 1 && has_prior(bp, a, period)) ==> no_deltas(#[trigger] ps[a]),
        forall|a: int, j: int| 0 <= a < bp.len() && compare && bp.len() > 1 && #[trigger] is_prior(bp, a, j, period) ==> {
            &&& ps[a].delta matches Some(d) && delta_spec(bp[a].total, bp[j].total, d)
            &&& cat_deltas_ok(ps[a].categories@, bp[j].categories@)
        },
    ensures
        deltas_ok(ps, period, compare),
{
    assert forall|a: int, j: int| 0 <= a < ps.len() implies (#[trigger] is_prior(ps, a, j, period) <==> is_prior(bp, a, j, period)) by {
        if 0 <= j < bp.len() {
            assert(same_but_deltas(bp[a], ps[a]));
            assert(same_but_deltas(bp[j], ps[j]));
        }
    }
    assert forall|a: int| 0 <= a < ps.len() implies has_prior(ps, a, period) == has_prior(bp, a, period) by {
        if has_prior(ps, a, period) {
            let j = choose|j: int| #[trigger] is_prior(ps, a, j, period);
            assert(is_prior(bp, a, j, period));
        }
        if has_prior(bp, a, period) {
            let j = choose|j: int| #[trigger] is_prior(bp, a, j, period);
            assert(is_prior(ps, a, j, period));
        }
    }
    assert forall|a: int, j: int| 0 <= a < ps.len() && compare && ps.len() > 1 && #[trigger] is_prior(ps, a, j, period) implies {
        &&& ps[a].delta matches Some(d) && delta_spec(ps[a].total, ps[j].total, d)
        &&& cat_deltas_ok(ps[a].categories@, ps[j].categories@)
    } by {
        assert(is_prior(bp, a, j, period));
        assert(same_but_deltas(bp[a], ps[a]));
        assert(same_but_deltas(bp[j], ps[j]));
        let cs = ps[a].categories@;
        assert forall|c: int| 0 <= c < cs.len() implies ((#[trigger] cs[c]).delta matches Some(d) && delta_spec(
            cs[c].amount,
            prior_cat_amount(ps[j].categories@, cs[c].name@),
            d,
        )) by {
            lemma_prior_cat_amount_eq(bp[j].categories@, ps[j].categories@, cs[c].name@);
        }
    }
}

// ---------------------------------------------------------------------------
// Spending summaries
// ---------------------------------------------------------------------------

/// The counted transactions fall in more than one bucket.
pub open spec fn multiple_buckets(es: Seq<Entry>) -> bool {
    exists|a: int, b: int|
        0 <= a < es.len() && 0 <= b < es.len() && !in_bucket(#[trigger] es[a], (#[trigger] es[b]).currency, es[b].key)
}

/// The inputs on which summarizing neither overflows nor leaves the range of
/// dates: sums that fit (and room for the changes when periods are
/// compared), and, when periods are compared, prior keys that
/// can be computed for every bucket.
pub open spec fn summary_defined(inputs: Seq<SummaryInput>, opts: SummaryOpts) -> bool {
    let es = entries(inputs, opts.period);
    &&& summary_amounts_ok(inputs, opts.period)
    &&& opts.compare && multiple_buckets(es) ==> compare_mass_ok(amounts_of(es))
    &&& opts.compare && multiple_buckets(es) ==> forall|q: int| 0 <= q < es.len() ==> (prior_key_spec(
        (#[trigger] es[q]).key,
        opts.period,
    ) is Some)
}

proof fn lemma_periods_transfer(es: Seq<Entry>, base: Seq<PeriodSummary>, ps: Seq<PeriodSummary>)
    requires
        periods_match(es, base),
        ps.len() == base.len(),
        forall|i: int| 0 <= i < base.len() ==> same_but_deltas(#[trigger] base[i], ps[i]),
    ensures
        periods_match(es, ps),
{
    assert forall|i: int, j: int| 0 <= i < j < ps.len() implies pair_before(
        (#[trigger] ps[i]).currency@,
        ps[i].key@,
        (#[trigger] ps[j]).currency@,
        ps[j].key@,
    ) by {
        assert(same_but_deltas(base[i], ps[i]));
        assert(same_but_deltas(base[j], ps[j]));
        assert(pair_before(base[i].currency@, base[i].key@, base[j].currency@, base[j].key@));
    }
    assert forall|i: int| 0 <= i < ps.len() implies period_matches(es, #[trigger] ps[i]) by {
        let a = base[i];
        let b = ps[i];
        assert(same_but_deltas(a, b));
        assert(period_matches(es, a));
        let c = a.currency@;
        let k = a.key@;
        let ac = a.categories@;
        let bc = b.categories@;
        assert forall|x: int, y: int| 0 <= x < y < bc.len() implies (#[trigger] bc[x]).name@ != (#[trigger] bc[y]).name@ by {
            assert(ac[x].name@ != ac[y].name@);
        }
        assert forall|x: int| 0 <= x < bc.len() implies {
            let nm = (#[trigger] bc[x]).name@;
            &&& has_cat(es, c, k, nm)
            &&& bc[x].amount == cat_sum(es, c, k, nm)
            &&& bc[x].amount.v() == cat_value(es, c, k, nm)
        } by {
            assert(ac[x].name@ == bc[x].name@);
        }
        assert forall|q: int| 0 <= q < es.len() && #[trigger] in_bucket(es[q], c, k) implies has_cat_amount(bc, es[q].category) by {
            let x = choose|x: int| 0 <= x < ac.len() && #[trigger] ac[x].name@ == es[q].category;
            assert(bc[x].name@ == ac[x].name@);
        }
        assert forall|x: int, y: int| 0 <= x < y < bc.len() implies {
            &&& (#[trigger] bc[x]).name@ != "uncategorized"@
            &&& ((#[trigger] bc[y]).name@ != "uncategorized"@ ==> bc[x].amount.v() >= bc[y].amount.v())
        } by {
            assert(ac[x].name@ == bc[x].name@ && ac[y].name@ == bc[y].name@);
        }
    }
    assert forall|q: int| 0 <= q < es.len() implies has_period(ps, (#[trigger] es[q]).currency, es[q].key) by {
        let i = choose|i: int| 0 <= i < base.len() && #[trigger] base[i].currency@ == es[q].currency && base[i].key@ == es[q].key;
        assert(same_but_deltas(base[i], ps[i]));
        assert(ps[i].currency@ == es[q].currency);
    }
}

/// Compute spending summaries from transaction inputs.
/// Only DBIT transactions are counted as spending.
/// Errors (invalid dates, invalid amounts) are collected as warnings.
pub fn summarize(inputs: &[SummaryInput], opts: &SummaryOpts) -> (r: SummaryResult)
    requires
        summary_defined(inputs@, *opts),
    ensures
        views(r.warnings@) == summary_warnings(inputs@, opts.period),
        periods_match(entries(inputs@, opts.period), r.periods@),
        deltas_ok(r.periods@, opts.period, opts.compare),
{
    let ghost es = entries(inputs@, opts.period);
    let (bs, warnings) = collect_buckets(inputs, opts.period);
    proof {
        lemma_entries_len(inputs@, opts.period);
    }
    let base = finalize(&bs, Ghost(es));
    proof {
        assert forall|i: int| 0 <= i < base@.len() implies names_distinct((#[trigger] base@[i]).categories@) && period_within(
            base@[i],
            es,
        ) by {
            assert(period_matches(es, base@[i]));
        }
        if opts.compare && base@.len() > 1 {
            let p0 = base@[0];
            let p1 = base@[1];
            assert(pair_before(p0.currency@, p0.key@, p1.currency@, p1.key@));
            assert(period_matches(es, p0));
            assert(period_matches(es, p1));
            let q0 = choose|q: int| 0 <= q < es.len() && #[trigger] in_bucket(es[q], p0.currency@, p0.key@);
            let q1 = choose|q: int| 0 <= q < es.len() && #[trigger] in_bucket(es[q], p1.currency@, p1.key@);
            lemma_pair_irrefl(p0.currency@, p0.key@, p1.currency@, p1.key@);
            assert(!in_bucket(es[q0], es[q1].currency, es[q1].key));
            assert(multiple_buckets(es));
            assert forall|i: int| 0 <= i < base@.len() implies (prior_key_spec((#[trigger] base@[i]).key@, opts.period) is Some) by {
                assert(period_matches(es, base@[i]));
                let q = choose|q: int| 0 <= q < es.len() && #[trigger] in_bucket(es[q], base@[i].currency@, base@[i].key@);
                assert(prior_key_spec(es[q].key, opts.period) is Some);
            }
        }
    }
    let periods = with_deltas(&base, opts.period, opts.compare, Ghost(es));
    proof {
        lemma_periods_transfer(es, base@, periods@);
    }
    SummaryResult { periods, warnings }
}

// ---------------------------------------------------------------------------
// Spending summaries on any input
// ---------------------------------------------------------------------------

fn iso_week_start_opt(year: i32, week: u32) -> (r: Option<Date>)
    ensures
        r == iso_week_start_spec(year, week),
        r matches Some(d) ==> valid_date(d),
{
    let jan4 = match date_from_ymd(year, 1, 4) {
        Some(j) => j,
        None => {
            return None;
        },
    };
    let dfm = days_from_monday(jan4);
    match add_days(jan4, -(dfm as i64)) {
        Some(m) => add_days(m, (week as i64 - 1) * 7),
        None => None,
    }
}

/// Whether the prior key of `key` can be computed without leaving the range
/// of dates.
pub fn prior_key_defined(key: &str, period: Period) -> (r: bool)
    ensures
        r == (prior_key_spec(key@, period) is Some),
{
    match period {
        Period::Day => match parse_ymd(key) {
            Err(_) => true,
            Ok(t) => match add_days(t, -1) {
                Some(_) => true,
                None => false,
            },
        },
        Period::Month => {
            let k1 = concat(key, "-01");
            match parse_ymd(k1.as_str()) {
                Err(_) => true,
                Ok(t) => {
                    let _ = add_days(t, -1);
                    true
                },
            }
        },
        Period::Week => match split_once_str(key, "-W") {
            None => true,
            Some(parts) => match parse_i32(parts.0.as_str()) {
                None => true,
                Some(y) => match parse_u32(parts.1.as_str()) {
                    None => true,
                    Some(w) => match iso_week_start_opt(y, w) {
                        None => false,
                        Some(m) => match add_days(m, -7) {
                            Some(_) => true,
                            None => false,
                        },
                    },
                },
            },
        },
    }
}

proof fn lemma_single_bucket(es: Seq<Entry>)
    requires
        !multiple_buckets(es),
        es.len() > 0,
    ensures
        forall|q: int| 0 <= q < es.len() ==> in_bucket(#[trigger] es[q], es[0].currency, es[0].key),
{
    assert forall|q: int| 0 <= q < es.len() implies in_bucket(#[trigger] es[q], es[0].currency, es[0].key) by {
        if !in_bucket(es[q], es[0].currency, es[0].key) {
            assert(!in_bucket(es[q], es[0].currency, es[0].key));
            assert(multiple_buckets(es));
        }
    }
}

proof fn lemma_multiple_push(es: Seq<Entry>, e: Entry)
    ensures
        multiple_buckets(es.push(e)) == (multiple_buckets(es) || (es.len() > 0 && !in_bucket(
            e,
            es[0].currency,
            es[0].key,
        ))),
{
    let post = es.push(e);
    let n = es.len() as int;
    if multiple_buckets(es) {
        let (a, b) = choose|a: int, b: int|
            0 <= a < es.len() && 0 <= b < es.len() && !in_bucket(#[trigger] es[a], (#[trigger] es[b]).currency, es[b].key);
        assert(post[a] == es[a] && post[b] == es[b]);
        assert(!in_bucket(post[a], post[b].currency, post[b].key));
    } else if es.len() > 0 && !in_bucket(e, es[0].currency, es[0].key) {
        assert(post[n] == e && post[0] == es[0]);
        assert(!in_bucket(post[n], post[0].currency, post[0].key));
    }
    if multiple_buckets(post) && !multiple_buckets(es) {
        let (a, b) = choose|a: int, b: int|
            0 <= a < post.len() && 0 <= b < post.len() && !in_bucket(#[trigger] post[a], (#[trigger] post[b]).currency, post[b].key);
        if es.len() == 0 {
            assert(a == 0 && b == 0);
        } else {
            lemma_single_bucket(es);
            if a < n && b < n {
                assert(post[a] == es[a] && post[b] == es[b]);
                assert(in_bucket(es[a], es[0].currency, es[0].key));
                assert(in_bucket(es[b], es[0].currency, es[0].key));
            } else if a == n && b < n {
                assert(post[b] == es[b]);
                assert(in_bucket(es[b], es[0].currency, es[0].key));
            } else if a < n && b == n {
                assert(post[a] == es[a]);
                assert(in_bucket(es[a], es[0].currency, es[0].key));
            }
        }
    }
}

/// Whether summarizing the inputs neither overflows nor leaves the
/// range of dates.
pub fn summary_accepts(inputs: &[SummaryInput], opts: &SummaryOpts) -> (r: bool)
    ensures
        r == summary_defined(inputs@, *opts),
{
    let period = opts.period;
    if inputs.len() >= 2147483647 {
        return false;
    }
    let mut amts: Vec<Dec> = Vec::new();
    let mut first: Option<(String, String)> = None;
    let mut multiple = false;
    let mut all_prior = true;
    let mut i: usize = 0;
    proof {
        assert(inputs@.take(0) =~= Seq::<SummaryInput>::empty());
    }
    while i < inputs.len()
        invariant
            i <= inputs@.len(),
            inputs@.len() < 2147483647,
            period == opts.period,
            amts@ == amounts_of(entries(inputs@.take(i as int), period)),
            forall|k: int| 0 <= k < amts@.len() ==> (#[trigger] amts@[k]).wf(),
            ({
                let es = entries(inputs@.take(i as int), period);
                &&& (first matches Some(f) <==> es.len() > 0)
                &&& (first matches Some(f) ==> f.0@ == es[0].currency && f.1@ == es[0].key)
                &&& multiple == multiple_buckets(es)
                &&& all_prior == forall|q: int| 0 <= q < es.len() ==> (prior_key_spec((#[trigger] es[q]).key, period) is Some)
            }),
        decreases inputs.len() - i,
    {
        let inp = &inputs[i];
        let ghost pre_in = inputs@.take(i as int);
        let ghost post_in = inputs@.take(i + 1);
        let ghost pre = entries(pre_in, period);
        proof {
            assert(post_in.drop_last() =~= pre_in);
            assert(post_in.last() == *inp);
            reveal_strlit("DBIT");
        }
        if str_eq(inp.credit_debit_indicator.as_str(), "DBIT") {
            match bucket_key(inp.booking_date.as_str(), period) {
                Err(_) => {},
                Ok(key) => match dec_parse(inp.amount.as_str()) {
                    None => {},
                    Some(amount) => {
                        let ghost e = input_entry(*inp, period)->0;
                        amts.push(amount);
                        proof {
                            assert(entries(post_in, period) == pre.push(e));
                            lemma_amounts_push(pre, e);
                            lemma_multiple_push(pre, e);
                            if pre.len() > 0 {
                                assert(pre.push(e)[0] == pre[0]);
                            }
                        }
                        match &first {
                            None => {
                                first = Some((copy_str(inp.currency.as_str()), copy_str(key.as_str())));
                            },
                            Some(f) => {
                                if !(str_eq(f.0.as_str(), inp.currency.as_str()) && str_eq(f.1.as_str(), key.as_str())) {
                                    multiple = true;
                                }
                            },
                        }
                        if !prior_key_defined(key.as_str(), period) {
                            all_prior = false;
                        }
                        proof {
                            let post = pre.push(e);
                            assert(post[pre.len() as int] == e);
                            assert(all_prior == forall|q: int| 0 <= q < post.len() ==> (prior_key_spec((#[trigger] post[q]).key, period) is Some)) by {
                                if all_prior {
                                    assert forall|q: int| 0 <= q < post.len() implies (prior_key_spec((#[trigger] post[q]).key, period) is Some) by {
                                        if q < pre.len() {
                                            assert(post[q] == pre[q]);
                                        }
                                    }
                                } else {
                                    if prior_key_spec(key@, period) is Some {
                                        let q = choose|q: int| 0 <= q < pre.len() && !(prior_key_spec((#[trigger] pre[q]).key, period) is Some);
                                        assert(post[q] == pre[q]);
                                    }
                                }
                            }
                        }
                    },
                },
            }
        }
        i = i + 1;
    }
    assert(inputs@.take(inputs@.len() as int) =~= inputs@);
    let (fits, compare_fits) = amounts_mass_ok(&amts);
    fits && (!(opts.compare && multiple) || (compare_fits && all_prior))
}

proof fn lemma_scale_ge(amts: Seq<Dec>, j: int)
    requires
        0 <= j < amts.len(),
    ensures
        amts[j].scale <= amounts_scale(amts),
    decreases amts.len(),
{
    if j < amts.len() - 1 {
        lemma_scale_ge(amts.drop_last(), j);
    }
}

proof fn lemma_aligned_prefix(amts: Seq<Dec>, j: int, s: nat)
    requires
        0 <= j <= amts.len(),
    ensures
        aligned_mass(amts.take(j), s) <= aligned_mass(amts, s),
    decreases amts.len(),
{
    if j == amts.len() {
        assert(amts.take(j) =~= amts);
    } else {
        assert(amts.take(j) =~= amts.drop_last().take(j));
        lemma_aligned_prefix(amts.drop_last(), j, s);
    }
}

/// `|d|` at scale `s`, when it is below `cap`.
pub(crate) fn aligned_magnitude(d: Dec, s: u32, cap: u128) -> (r: Option<u128>)
    requires
        d.wf(),
        d.scale <= s <= 28,
        cap <= 79228162514264337593543950336,
    ensures
        r matches Some(m) ==> m == abs_int(d.at(s as nat)) && m < cap,
        r is None ==> abs_int(d.at(s as nat)) >= cap,
{
    let mut m: u128 = d.mantissa;
    let mut t: u32 = d.scale;
    proof {
        let z = ((d.scale as nat) - d.scale) as nat;
        assert(z == 0);
        assert(pow10(z) == 1);
        assert(d.at(d.scale as nat) == d.signed());
    }
    if m >= cap {
        proof {
            lemma_at_mono(d, t as nat, s as nat);
        }
        return None;
    }
    while t < s
        invariant
            d.scale <= t <= s <= 28,
            m == abs_int(d.at(t as nat)),
            m < cap,
            cap <= 79228162514264337593543950336,
        decreases s - t,
    {
        proof {
            lemma_at_shift(d, t as nat, (t + 1) as nat);
            assert(pow10(1) == 10) by {
                reveal_with_fuel(pow10, 2);
            }
            assert(abs_int(d.at(t as nat) * 10) == abs_int(d.at(t as nat)) * 10);
        }
        let n: u128 = m * 10;
        t = t + 1;
        if n >= cap {
            proof {
                lemma_at_mono(d, t as nat, s as nat);
            }
            return None;
        }
        m = n;
    }
    Some(m)
}

/// Whether the amounts' sums stay in range (`mass_ok`), and whether their
/// changes do too (`compare_mass_ok`).
fn amounts_mass_ok(amts: &Vec<Dec>) -> (r: (bool, bool))
    requires
        forall|k: int| 0 <= k < amts@.len() ==> (#[trigger] amts@[k]).wf(),
    ensures
        r.0 == mass_ok(amts@),
        r.1 == compare_mass_ok(amts@),
{
    let mut s: u32 = 0;
    let mut i: usize = 0;
    while i < amts.len()
        invariant
            i <= amts@.len(),
            s == amounts_scale(amts@.take(i as int)),
            s <= 28,
            forall|k: int| 0 <= k < amts@.len() ==> (#[trigger] amts@[k]).wf(),
        decreases amts.len() - i,
    {
        proof {
            assert(amts@.take(i + 1).drop_last() =~= amts@.take(i as int));
            assert(amts@.take(i + 1).last() == amts@[i as int]);
        }
        if amts[i].scale > s {
            s = amts[i].scale;
        }
        i = i + 1;
    }
    assert(amts@.take(amts@.len() as int) =~= amts@);
    let cap: u128 = 79228162514264337593543950336;
    let mut acc: u128 = 0;
    let mut j: usize = 0;
    proof {
        assert(amts@.take(0) =~= Seq::<Dec>::empty());
    }
    while j < amts.len()
        invariant
            j <= amts@.len(),
            s == amounts_scale(amts@),
            s <= 28,
            acc == aligned_mass(amts@.take(j as int), s as nat),
            acc < cap,
            cap == 79228162514264337593543950336,
            forall|k: int| 0 <= k < amts@.len() ==> (#[trigger] amts@[k]).wf(),
        decreases amts.len() - j,
    {
        proof {
            assert(amts@.take(j + 1).drop_last() =~= amts@.take(j as int));
            assert(amts@.take(j + 1).last() == amts@[j as int]);
            lemma_scale_ge(amts@, j as int);
            lemma_aligned_prefix(amts@, j + 1, s as nat);
            lemma_aligned_nonneg(amts@.take(j as int), s as nat);
            lemma_mass_aligned(amts@, s as nat);
            lemma_pow10_pos((28 - s) as nat);
        }
        let over = match aligned_magnitude(amts[j], s, cap) {
            None => true,
            Some(m) => {
                acc = acc + m;
                acc >= cap
            },
        };
        if over {
            proof {
                let q = pow10((28 - s) as nat);
                let a = aligned_mass(amts@, s as nat);
                assert(a >= cap);
                assert(a * q >= mantissa_bound() * q && 300 * a * q >= safe_bound() * q) by (nonlinear_arith)
                    requires
                        a >= 79228162514264337593543950336,
                        q >= 1,
                ;
                assert(300 * mass(amts@) == 300 * a * q) by (nonlinear_arith)
                    requires
                        mass(amts@) == a * q,
                ;
            }
            return (false, false);
        }
        j = j + 1;
    }
    let small = acc < 132046937523773895989239918;
    proof {
        assert(amts@.take(amts@.len() as int) =~= amts@);
        lemma_mass_aligned(amts@, s as nat);
        lemma_pow10_pos((28 - s) as nat);
        let q = pow10((28 - s) as nat);
        let a = aligned_mass(amts@, s as nat);
        assert(a * q < mantissa_bound() * q) by (nonlinear_arith)
            requires
                a < 79228162514264337593543950336,
                q >= 1,
        ;
        assert((300 * a * q < safe_bound() * q) == (a < 132046937523773895989239918)) by (nonlinear_arith)
            requires
                q >= 1,
        ;
        assert(300 * mass(amts@) == 300 * a * q) by (nonlinear_arith)
            requires
                mass(amts@) == a * q,
        ;
    }
    (true, small)
}

/// `summarize` on any input: `None` when a sum or a change would overflow,
/// or when comparing periods would leave the range of dates.
pub fn summarize_checked(inputs: &[SummaryInput], opts: &SummaryOpts) -> (r: Option<SummaryResult>)
    ensures
        r is None <==> !summary_defined(inputs@, *opts),
        r matches Some(res) ==> {
            &&& views(res.warnings@) == summary_warnings(inputs@, opts.period)
            &&& periods_match(entries(inputs@, opts.period), res.periods@)
            &&& deltas_ok(res.periods@, opts.period, opts.compare)
        },
{
    if summary_accepts(inputs, opts) {
        Some(summarize(inputs, opts))
    } else {
        None
    }
}

// ---------------------------------------------------------------------------
// Laws of spending summaries
// ---------------------------------------------------------------------------

/// Period names are distinct, so parsing a period's name gives it back.
pub proof fn law_period_text_injective(p: Period, q: Period)
    ensures
        period_text(p) == period_text(q) ==> p == q,
{
    reveal_strlit("day");
    reveal_strlit("week");
    reveal_strlit("month");
    assert("day"@.len() == 3 && "week"@.len() == 4 && "month"@.len() == 5);
    if p != q {
        assert(period_text(p).len() != period_text(q).len());
    }
}

/// The share of categorized transactions lies between 0 and 100 percent.
pub proof fn law_percentage_in_range(c: CoverageInfo)
    requires
        0 <= c.categorized <= c.total,
    ensures
        0 <= percentage_spec(c) <= 100,
{
    if c.total != 0 {
        assert(c.categorized * 100 <= c.total * 100) by (nonlinear_arith)
            requires
                c.categorized <= c.total,
        ;
        assert((c.categorized * 100) / (c.total as int) <= 100) by (nonlinear_arith)
            requires
                0 <= c.categorized * 100 <= c.total * 100,
                c.total > 0,
        ;
    }
}

/// The exact sum of the amounts of a bucket's categories named in `names`.
pub open spec fn names_value(es: Seq<Entry>, c: Seq<char>, k: Seq<char>, names: Seq<Seq<char>>) -> int
    decreases names.len(),
{
    if names.len() == 0 {
        0
    } else {
        names_value(es, c, k, names.drop_last()) + cat_value(es, c, k, names.last())
    }
}

proof fn lemma_names_value_empty(c: Seq<char>, k: Seq<char>, names: Seq<Seq<char>>)
    ensures
        names_value(Seq::<Entry>::empty(), c, k, names) == 0,
    decreases names.len(),
{
    if names.len() > 0 {
        lemma_names_value_empty(c, k, names.drop_last());
    }
}

proof fn lemma_names_value_push(pre: Seq<Entry>, e: Entry, c: Seq<char>, k: Seq<char>, names: Seq<Seq<char>>)
    requires
        names.no_duplicates(),
    ensures
        names_value(pre.push(e), c, k, names) == names_value(pre, c, k, names) + (if in_bucket(e, c, k)
            && names.contains(e.category) {
            e.amount.v()
        } else {
            0
        }),
    decreases names.len(),
{
    if names.len() > 0 {
        let d = names.drop_last();
        assert(d.no_duplicates()) by {
            assert forall|i: int, j: int| 0 <= i < d.len() && 0 <= j < d.len() && i != j implies d[i] != d[j] by {
                assert(d[i] == names[i] && d[j] == names[j]);
            }
        }
        lemma_names_value_push(pre, e, c, k, d);
        lemma_sums_push(pre, e, c, k, names.last());
        if in_bucket(e, c, k) && names.contains(e.category) {
            if names.last() == e.category {
                assert(!d.contains(e.category)) by {
                    if d.contains(e.category) {
                        let w = choose|w: int| 0 <= w < d.len() && d[w] == e.category;
                        assert(names[w] == names[names.len() - 1]);
                    }
                }
            } else {
                let w = choose|w: int| 0 <= w < names.len() && names[w] == e.category;
                assert(w != names.len() - 1);
                assert(d[w] == e.category);
            }
        } else if in_bucket(e, c, k) {
            assert(names.last() != e.category) by {
                assert(names[names.len() - 1] == names.last());
            }
            assert(!d.contains(e.category)) by {
                if d.contains(e.category) {
                    let w = choose|w: int| 0 <= w < d.len() && d[w] == e.category;
                    assert(names[w] == e.category);
                }
            }
        }
    }
}

/// Summed over distinct names that cover every category of the bucket, the
/// categories' amounts make the bucket's total.
proof fn lemma_names_cover_total(es: Seq<Entry>, c: Seq<char>, k: Seq<char>, names: Seq<Seq<char>>)
    requires
        names.no_duplicates(),
        forall|q: int| 0 <= q < es.len() && #[trigger] in_bucket(es[q], c, k) ==> names.contains(es[q].category),
    ensures
        names_value(es, c, k, names) == bucket_value(es, c, k),
    decreases es.len(),
{
    if es.len() == 0 {
        lemma_names_value_empty(c, k, names);
        assert(es =~= Seq::<Entry>::empty());
    } else {
        let pre = es.drop_last();
        let e = es.last();
        assert(pre.push(e) =~= es);
        assert forall|q: int| 0 <= q < pre.len() && #[trigger] in_bucket(pre[q], c, k) implies names.contains(pre[q].category) by {
            assert(es[q] == pre[q]);
        }
        lemma_names_cover_total(pre, c, k, names);
        lemma_names_value_push(pre, e, c, k, names);
        lemma_sums_push(pre, e, c, k, Seq::<char>::empty());
        if in_bucket(e, c, k) {
            assert(es[es.len() - 1] == e);
            assert(in_bucket(es[es.len() - 1], c, k));
            assert(names.contains(e.category));
        }
        assert(names_value(pre.push(e), c, k, names) == bucket_value(pre.push(e), c, k));
    }
}

pub open spec fn category_names(cats: Seq<CategoryAmount>) -> Seq<Seq<char>> {
    cats.map_values(|x: CategoryAmount| x.name@)
}

/// The exact sum of the amounts of a list of categories.
pub open spec fn amounts_value(cats: Seq<CategoryAmount>) -> int
    decreases cats.len(),
{
    if cats.len() == 0 {
        0
    } else {
        amounts_value(cats.drop_last()) + cats.last().amount.v()
    }
}

proof fn lemma_amounts_names(es: Seq<Entry>, c: Seq<char>, k: Seq<char>, cats: Seq<CategoryAmount>)
    requires
        forall|i: int| 0 <= i < cats.len() ==> (#[trigger] cats[i]).amount.v() == cat_value(es, c, k, cats[i].name@),
    ensures
        amounts_value(cats) == names_value(es, c, k, category_names(cats)),
    decreases cats.len(),
{
    if cats.len() > 0 {
        let d = cats.drop_last();
        assert forall|i: int| 0 <= i < d.len() implies (#[trigger] d[i]).amount.v() == cat_value(es, c, k, d[i].name@) by {
            assert(d[i] == cats[i]);
        }
        lemma_amounts_names(es, c, k, d);
        assert(category_names(cats).drop_last() =~= category_names(d));
        assert(cats[cats.len() - 1] == cats.last());
    }
}

/// In every summarized period, the categories' amounts add up to the total,
/// and no more transactions are categorized than counted.
pub proof fn law_period_totals(es: Seq<Entry>, p: PeriodSummary)
    requires
        period_matches(es, p),
    ensures
        amounts_value(p.categories@) == p.total.v(),
        p.coverage.categorized <= p.coverage.total,
{
    let c = p.currency@;
    let k = p.key@;
    let cats = p.categories@;
    let names = category_names(cats);
    assert(names.no_duplicates()) by {
        assert forall|i: int, j: int| 0 <= i < names.len() && 0 <= j < names.len() && i != j implies names[i] != names[j] by {
            if i < j {
                assert(cats[i].name@ != cats[j].name@);
            } else {
                assert(cats[j].name@ != cats[i].name@);
            }
        }
    }
    assert forall|q: int| 0 <= q < es.len() && #[trigger] in_bucket(es[q], c, k) implies names.contains(es[q].category) by {
        let i = choose|i: int| 0 <= i < cats.len() && #[trigger] cats[i].name@ == es[q].category;
        assert(names[i] == cats[i].name@);
    }
    lemma_names_cover_total(es, c, k, names);
    lemma_amounts_names(es, c, k, cats);
    lemma_count_le(es, c, k);
}

/// The debits among the inputs, in order.
pub open spec fn debits_only(inputs: Seq<SummaryInput>) -> Seq<SummaryInput>
    decreases inputs.len(),
{
    if inputs.len() == 0 {
        inputs
    } else {
        let p = debits_only(inputs.drop_last());
        if inputs.last().credit_debit_indicator@ == "DBIT"@ {
            p.push(inputs.last())
        } else {
            p
        }
    }
}

/// Inputs that are not debits add nothing to a summary: the counted
/// transactions and the warnings are those of the debits alone, and a
/// summary of all the inputs is defined only if that of the debits is.
pub proof fn law_non_debits_ignored(inputs: Seq<SummaryInput>, opts: SummaryOpts)
    ensures
        entries(debits_only(inputs), opts.period) == entries(inputs, opts.period),
        summary_warnings(debits_only(inputs), opts.period) == summary_warnings(inputs, opts.period),
        debits_only(inputs).len() <= inputs.len(),
        summary_defined(inputs, opts) ==> summary_defined(debits_only(inputs), opts),
    decreases inputs.len(),
{
    if inputs.len() > 0 {
        let d = inputs.drop_last();
        law_non_debits_ignored(d, opts);
        let f = debits_only(inputs);
        if inputs.last().credit_debit_indicator@ == "DBIT"@ {
            assert(f.drop_last() =~= debits_only(d));
            assert(f.last() == inputs.last());
        }
    }
}

/// The periods are in strictly increasing (currency, key) order.
pub open spec fn pairs_sorted(ps: Seq<PeriodSummary>) -> bool {
    forall|i: int, j: int| 0 <= i < j < ps.len() ==> pair_before(
        (#[trigger] ps[i]).currency@,
        ps[i].key@,
        (#[trigger] ps[j]).currency@,
        ps[j].key@,
    )
}

/// Two sorted lists of periods with the same (currency, key) pairs have them
/// in the same places.
proof fn lemma_sorted_pairs_same(a: Seq<PeriodSummary>, b: Seq<PeriodSummary>)
    requires
        pairs_sorted(a),
        pairs_sorted(b),
        forall|i: int| 0 <= i < a.len() ==> has_period(b, (#[trigger] a[i]).currency@, a[i].key@),
        forall|j: int| 0 <= j < b.len() ==> has_period(a, (#[trigger] b[j]).currency@, b[j].key@),
    ensures
        a.len() == b.len(),
        forall|i: int| 0 <= i < a.len() ==> (#[trigger] a[i]).currency@ == b[i].currency@ && a[i].key@ == b[i].key@,
    decreases a.len() + b.len(),
{
    if a.len() == 0 {
        if b.len() > 0 {
            assert(has_period(a, b[0].currency@, b[0].key@));
        }
    } else if b.len() == 0 {
        assert(has_period(b, a[0].currency@, a[0].key@));
    } else {
        assert(has_period(b, a[0].currency@, a[0].key@));
        assert(has_period(a, b[0].currency@, b[0].key@));
        let j = choose|j: int| 0 <= j < b.len() && #[trigger] b[j].currency@ == a[0].currency@ && b[j].key@ == a[0].key@;
        let k = choose|k: int| 0 <= k < a.len() && #[trigger] a[k].currency@ == b[0].currency@ && a[k].key@ == b[0].key@;
        if j > 0 {
            assert(pair_before(b[0].currency@, b[0].key@, b[j].currency@, b[j].key@));
            if k > 0 {
                assert(pair_before(a[0].currency@, a[0].key@, a[k].currency@, a[k].key@));
                lemma_pair_irrefl(a[0].currency@, a[0].key@, b[0].currency@, b[0].key@);
            } else {
                lemma_pair_irrefl(b[0].currency@, b[0].key@, a[0].currency@, a[0].key@);
            }
        }
        assert(j == 0);
        let a2 = a.drop_first();
        let b2 = b.drop_first();
        assert forall|i: int| 0 <= i < a2.len() implies has_period(b2, (#[trigger] a2[i]).currency@, a2[i].key@) by {
            assert(a2[i] == a[i + 1]);
            assert(has_period(b, a[i + 1].currency@, a[i + 1].key@));
            let x = choose|x: int| 0 <= x < b.len() && #[trigger] b[x].currency@ == a[i + 1].currency@ && b[x].key@ == a[i + 1].key@;
            assert(pair_before(a[0].currency@, a[0].key@, a[i + 1].currency@, a[i + 1].key@));
            if x == 0 {
                lemma_pair_irrefl(a[0].currency@, a[0].key@, a[i + 1].currency@, a[i + 1].key@);
            }
            assert(b2[x - 1] == b[x]);
        }
        assert forall|x: int| 0 <= x < b2.len() implies has_period(a2, (#[trigger] b2[x]).currency@, b2[x].key@) by {
            assert(b2[x] == b[x + 1]);
            assert(has_period(a, b[x + 1].currency@, b[x + 1].key@));
            let y = choose|y: int| 0 <= y < a.len() && #[trigger] a[y].currency@ == b[x + 1].currency@ && a[y].key@ == b[x + 1].key@;
            assert(pair_before(b[0].currency@, b[0].key@, b[x + 1].currency@, b[x + 1].key@));
            if y == 0 {
                lemma_pair_irrefl(b[0].currency@, b[0].key@, b[x + 1].currency@, b[x + 1].key@);
            }
            assert(a2[y - 1] == a[y]);
        }
        assert forall|x: int, y: int| 0 <= x < y < a2.len() implies pair_before(
            (#[trigger] a2[x]).currency@,
            a2[x].key@,
            (#[trigger] a2[y]).currency@,
            a2[y].key@,
        ) by {
            assert(a2[x] == a[x + 1] && a2[y] == a[y + 1]);
        }
        assert forall|x: int, y: int| 0 <= x < y < b2.len() implies pair_before(
            (#[trigger] b2[x]).currency@,
            b2[x].key@,
            (#[trigger] b2[y]).currency@,
            b2[y].key@,
        ) by {
            assert(b2[x] == b[x + 1] && b2[y] == b[y + 1]);
        }
        lemma_sorted_pairs_same(a2, b2);
        assert forall|i: int| 0 <= i < a.len() implies (#[trigger] a[i]).currency@ == b[i].currency@ && a[i].key@
            == b[i].key@ by {
            if i > 0 {
                assert(a2[i - 1] == a[i] && b2[i - 1] == b[i]);
            }
        }
    }
}

/// What `summarize` ensures of its result for some inputs.
pub open spec fn summary_spec(inputs: Seq<SummaryInput>, opts: SummaryOpts, r: SummaryResult) -> bool {
    &&& views(r.warnings@) == summary_warnings(inputs, opts.period)
    &&& periods_match(entries(inputs, opts.period), r.periods@)
    &&& deltas_ok(r.periods@, opts.period, opts.compare)
}

/// Summarizing the inputs and summarizing their debits alone give the same
/// warnings and the same periods: the same (currency, key) in the same
/// places, each with the same total and coverage, and the same categories
/// with the same amounts (in an order that may differ only among equal
/// amounts).
pub proof fn law_summary_of_debits(inputs: Seq<SummaryInput>, opts: SummaryOpts, r1: SummaryResult, r2: SummaryResult)
    requires
        summary_spec(inputs, opts, r1),
        summary_spec(debits_only(inputs), opts, r2),
    ensures
        views(r1.warnings@) == views(r2.warnings@),
        r1.periods@.len() == r2.periods@.len(),
        forall|i: int|
            0 <= i < r1.periods@.len() ==> {
                let p = #[trigger] r1.periods@[i];
                let q = r2.periods@[i];
                &&& p.currency@ == q.currency@
                &&& p.key@ == q.key@
                &&& p.total == q.total
                &&& p.coverage == q.coverage
                &&& p.categories@.len() == q.categories@.len()
                &&& forall|c: int| 0 <= c < p.categories@.len() ==> has_cat_amount(q.categories@, (#[trigger] p.categories@[c]).name@)
                &&& forall|c: int| 0 <= c < q.categories@.len() ==> has_cat_amount(p.categories@, (#[trigger] q.categories@[c]).name@)
                &&& forall|c: int, d: int|
                    0 <= c < p.categories@.len() && 0 <= d < q.categories@.len() && (#[trigger] p.categories@[c]).name@
                        == (#[trigger] q.categories@[d]).name@ ==> p.categories@[c].amount == q.categories@[d].amount
                &&& (p.delta is Some <==> q.delta is Some)
                &&& (p.delta matches Some(x) ==> q.delta matches Some(y) && x.absolute_diff == y.absolute_diff
                    && x.percentage@ == y.percentage@)
                &&& forall|c: int, d: int|
                    0 <= c < p.categories@.len() && 0 <= d < q.categories@.len() && (#[trigger] p.categories@[c]).name@
                        == (#[trigger] q.categories@[d]).name@ ==> ((p.categories@[c].delta is Some
                        <==> q.categories@[d].delta is Some) && (p.categories@[c].delta matches Some(x)
                        ==> q.categories@[d].delta matches Some(y) && x.absolute_diff == y.absolute_diff
                        && x.percentage@ == y.percentage@))
            },
{
    law_non_debits_ignored(inputs, opts);
    let es = entries(inputs, opts.period);
    let a = r1.periods@;
    let b = r2.periods@;
    assert forall|i: int| 0 <= i < a.len() implies has_period(b, (#[trigger] a[i]).currency@, a[i].key@) by {
        assert(period_matches(es, a[i]));
        let q = choose|q: int| 0 <= q < es.len() && #[trigger] in_bucket(es[q], a[i].currency@, a[i].key@);
        assert(has_period(b, es[q].currency, es[q].key));
    }
    assert forall|j: int| 0 <= j < b.len() implies has_period(a, (#[trigger] b[j]).currency@, b[j].key@) by {
        assert(period_matches(es, b[j]));
        let q = choose|q: int| 0 <= q < es.len() && #[trigger] in_bucket(es[q], b[j].currency@, b[j].key@);
        assert(has_period(a, es[q].currency, es[q].key));
    }
    lemma_sorted_pairs_same(a, b);
    assert forall|i: int| 0 <= i < a.len() implies {
        let p = #[trigger] a[i];
        let q = b[i];
        &&& p.currency@ == q.currency@
        &&& p.key@ == q.key@
        &&& p.total == q.total
        &&& p.coverage == q.coverage
        &&& p.categories@.len() == q.categories@.len()
        &&& forall|c: int| 0 <= c < p.categories@.len() ==> has_cat_amount(q.categories@, (#[trigger] p.categories@[c]).name@)
        &&& forall|c: int| 0 <= c < q.categories@.len() ==> has_cat_amount(p.categories@, (#[trigger] q.categories@[c]).name@)
        &&& forall|c: int, d: int|
            0 <= c < p.categories@.len() && 0 <= d < q.categories@.len() && (#[trigger] p.categories@[c]).name@
                == (#[trigger] q.categories@[d]).name@ ==> p.categories@[c].amount == q.categories@[d].amount
        &&& (p.delta is Some <==> q.delta is Some)
        &&& (p.delta matches Some(x) ==> q.delta matches Some(y) && x.absolute_diff == y.absolute_diff
            && x.percentage@ == y.percentage@)
        &&& forall|c: int, d: int|
            0 <= c < p.categories@.len() && 0 <= d < q.categories@.len() && (#[trigger] p.categories@[c]).name@
                == (#[trigger] q.categories@[d]).name@ ==> ((p.categories@[c].delta is Some
                <==> q.categories@[d].delta is Some) && (p.categories@[c].delta matches Some(x)
                ==> q.categories@[d].delta matches Some(y) && x.absolute_diff == y.absolute_diff
                && x.percentage@ == y.percentage@))
    } by {
        let p = a[i];
        let q = b[i];
        let active = opts.compare && a.len() > 1;
        if has_prior(a, i, opts.period) {
            let j = choose|j: int| #[trigger] is_prior(a, i, j, opts.period);
            assert(is_prior(b, i, j, opts.period));
            assert(period_matches(es, a[j]) && period_matches(es, b[j]));
            lemma_cats_same_names(es, a[j].currency@, a[j].key@, a[j].categories@, b[j].categories@);
            assert forall|c: int, d: int|
                0 <= c < p.categories@.len() && 0 <= d < q.categories@.len() && (#[trigger] p.categories@[c]).name@
                    == (#[trigger] q.categories@[d]).name@ implies prior_cat_amount(a[j].categories@, p.categories@[c].name@)
                == prior_cat_amount(b[j].categories@, q.categories@[d].name@) by {
                let nm = p.categories@[c].name@;
                lemma_prior_cat_amount_value(es, a[j].currency@, a[j].key@, a[j].categories@, nm);
                lemma_prior_cat_amount_value(es, a[j].currency@, a[j].key@, b[j].categories@, nm);
                if has_cat_amount(a[j].categories@, nm) {
                    let x = choose|x: int| 0 <= x < a[j].categories@.len() && #[trigger] a[j].categories@[x].name@ == nm;
                    assert(has_cat_amount(b[j].categories@, a[j].categories@[x].name@));
                }
                if has_cat_amount(b[j].categories@, nm) {
                    let x = choose|x: int| 0 <= x < b[j].categories@.len() && #[trigger] b[j].categories@[x].name@ == nm;
                    assert(has_cat_amount(a[j].categories@, b[j].categories@[x].name@));
                }
            }
        }
        if has_prior(b, i, opts.period) {
            let j = choose|j: int| #[trigger] is_prior(b, i, j, opts.period);
            assert(is_prior(a, i, j, opts.period));
        }
        assert(period_matches(es, p));
        assert(period_matches(es, q));
        let cur = p.currency@;
        let key = p.key@;
        lemma_cats_same_names(es, cur, key, p.categories@, q.categories@);
    }
}

/// Two category lists that both match a bucket hold the same names.
proof fn lemma_cats_same_names(es: Seq<Entry>, c: Seq<char>, k: Seq<char>, x: Seq<CategoryAmount>, y: Seq<CategoryAmount>)
    requires
        categories_match(es, c, k, x),
        categories_match(es, c, k, y),
    ensures
        x.len() == y.len(),
        forall|i: int| 0 <= i < x.len() ==> has_cat_amount(y, (#[trigger] x[i]).name@),
        forall|i: int| 0 <= i < y.len() ==> has_cat_amount(x, (#[trigger] y[i]).name@),
{
    assert forall|i: int| 0 <= i < x.len() implies has_cat_amount(y, (#[trigger] x[i]).name@) by {
        assert(has_cat(es, c, k, x[i].name@));
        let q = choose|q: int| 0 <= q < es.len() && #[trigger] in_bucket(es[q], c, k) && es[q].category == x[i].name@;
        assert(has_cat_amount(y, es[q].category));
    }
    assert forall|i: int| 0 <= i < y.len() implies has_cat_amount(x, (#[trigger] y[i]).name@) by {
        assert(has_cat(es, c, k, y[i].name@));
        let q = choose|q: int| 0 <= q < es.len() && #[trigger] in_bucket(es[q], c, k) && es[q].category == y[i].name@;
        assert(has_cat_amount(x, es[q].category));
    }
    lemma_names_count(x, y);
}

/// The names of a list of categories.
pub open spec fn cat_names(x: Seq<CategoryAmount>) -> Seq<Seq<char>> {
    x.map_values(|a: CategoryAmount| a.name@)
}

/// Two lists of distinct names, each holding the other's names, are equally
/// long.
proof fn lemma_names_count(x: Seq<CategoryAmount>, y: Seq<CategoryAmount>)
    requires
        forall|i: int, j: int| 0 <= i < j < x.len() ==> (#[trigger] x[i]).name@ != (#[trigger] x[j]).name@,
        forall|i: int, j: int| 0 <= i < j < y.len() ==> (#[trigger] y[i]).name@ != (#[trigger] y[j]).name@,
        forall|i: int| 0 <= i < x.len() ==> has_cat_amount(y, (#[trigger] x[i]).name@),
        forall|i: int| 0 <= i < y.len() ==> has_cat_amount(x, (#[trigger] y[i]).name@),
    ensures
        x.len() == y.len(),
{
    let nx = cat_names(x);
    let ny = cat_names(y);
    assert(nx.no_duplicates()) by {
        assert forall|i: int, j: int| 0 <= i < nx.len() && 0 <= j < nx.len() && i != j implies nx[i] != nx[j] by {
            if i < j {
                assert(x[i].name@ != x[j].name@);
            } else {
                assert(x[j].name@ != x[i].name@);
            }
        }
    }
    assert(ny.no_duplicates()) by {
        assert forall|i: int, j: int| 0 <= i < ny.len() && 0 <= j < ny.len() && i != j implies ny[i] != ny[j] by {
            if i < j {
                assert(y[i].name@ != y[j].name@);
            } else {
                assert(y[j].name@ != y[i].name@);
            }
        }
    }
    nx.unique_seq_to_set();
    ny.unique_seq_to_set();
    assert(nx.to_set() =~= ny.to_set()) by {
        assert forall|n: Seq<char>| nx.to_set().contains(n) implies ny.to_set().contains(n) by {
            let i = choose|i: int| 0 <= i < nx.len() && nx[i] == n;
            assert(has_cat_amount(y, x[i].name@));
            let j = choose|j: int| 0 <= j < y.len() && #[trigger] y[j].name@ == x[i].name@;
            assert(ny[j] == n);
        }
        assert forall|n: Seq<char>| ny.to_set().contains(n) implies nx.to_set().contains(n) by {
            let j = choose|j: int| 0 <= j < ny.len() && ny[j] == n;
            assert(has_cat_amount(x, y[j].name@));
            let i = choose|i: int| 0 <= i < x.len() && #[trigger] x[i].name@ == y[j].name@;
            assert(nx[i] == n);
        }
    }
}

/// The amount `prior_cat_amount` finds in categories that match a bucket:
/// the category's sum when the name is among them, zero otherwise.
proof fn lemma_prior_cat_amount_value(es: Seq<Entry>, c: Seq<char>, k: Seq<char>, x: Seq<CategoryAmount>, name: Seq<char>)
    requires
        forall|i: int| 0 <= i < x.len() ==> (#[trigger] x[i]).amount == cat_sum(es, c, k, x[i].name@),
    ensures
        prior_cat_amount(x, name) == (if has_cat_amount(x, name) {
            cat_sum(es, c, k, name)
        } else {
            zero_spec()
        }),
    decreases x.len(),
{
    if x.len() > 0 {
        let t = x.drop_first();
        assert forall|i: int| 0 <= i < t.len() implies (#[trigger] t[i]).amount == cat_sum(es, c, k, t[i].name@) by {
            assert(t[i] == x[i + 1]);
        }
        lemma_prior_cat_amount_value(es, c, k, t, name);
        if x[0].name@ != name {
            if has_cat_amount(x, name) {
                let i = choose|i: int| 0 <= i < x.len() && #[trigger] x[i].name@ == name;
                assert(t[i - 1] == x[i]);
            }
            if has_cat_amount(t, name) {
                let i = choose|i: int| 0 <= i < t.len() && #[trigger] t[i].name@ == name;
                assert(x[i + 1] == t[i]);
            }
        }
    }
}

} // verus!
