use vstd::prelude::*;

verus! {

/// A decimal number `(-1)^negative * mantissa * 10^(-scale)`, laid out as a
/// `rust_decimal::Decimal` is: a sign flag (zero may be negative), a 96-bit
/// magnitude and a scale of at most 28.
#[derive(Clone, Copy, Debug, PartialEq, Eq, Structural)]
pub struct Dec {
    pub negative: bool,
    pub mantissa: u128,
    pub scale: u32,
}

/// 2^96: the magnitudes a `Decimal` holds are below it.
pub open spec fn mantissa_bound() -> int {
    79228162514264337593543950336
}

/// 2^95: a margin under which no `Decimal` operation overflows.
pub open spec fn safe_bound() -> int {
    39614081257132168796771975168
}

pub open spec fn pow10(n: nat) -> nat
    decreases n,
{
    if n == 0 {
        1
    } else {
        10 * pow10((n - 1) as nat)
    }
}

impl Dec {
    /// The value's representation is one a `Decimal` can hold.
    pub open spec fn wf(self) -> bool {
        self.mantissa < mantissa_bound() && self.scale <= 28
    }

    /// The signed mantissa.
    pub open spec fn signed(self) -> int {
        if self.negative {
            -(self.mantissa as int)
        } else {
            self.mantissa as int
        }
    }

    /// The value times `10^s`, for `s >= self.scale`.
    pub open spec fn at(self, s: nat) -> int {
        self.signed() * pow10((s - self.scale) as nat)
    }

    /// The value times `10^28`: values compare and add through it.
    pub open spec fn v(self) -> int {
        self.at(28)
    }
}

/// Absolute value of an integer.
pub open spec fn abs_int(x: int) -> int {
    if x < 0 {
        -x
    } else {
        x
    }
}

pub open spec fn max_scale(a: Dec, b: Dec) -> nat {
    if a.scale >= b.scale {
        a.scale as nat
    } else {
        b.scale as nat
    }
}

/// Adding `a` and `b` is exact: both operands and the sum, aligned to the larger
/// scale, stay below 2^96.
pub open spec fn add_fits(a: Dec, b: Dec) -> bool {
    let s = max_scale(a, b);
    &&& abs_int(a.at(s)) < mantissa_bound()
    &&& abs_int(b.at(s)) < mantissa_bound()
    &&& abs_int(a.at(s) + b.at(s)) < mantissa_bound()
}

/// Subtracting `b` from `a` is exact.
pub open spec fn sub_fits(a: Dec, b: Dec) -> bool {
    let s = max_scale(a, b);
    &&& abs_int(a.at(s)) < mantissa_bound()
    &&& abs_int(b.at(s)) < mantissa_bound()
    &&& abs_int(a.at(s) - b.at(s)) < mantissa_bound()
}

/// The zero `Decimal::ZERO`.
pub open spec fn zero_spec() -> Dec {
    Dec { negative: false, mantissa: 0, scale: 0 }
}

// ---------------------------------------------------------------------------
// Names for what rust_decimal computes
// ---------------------------------------------------------------------------

/// What `Decimal::from_str` returns for a text (`None` for an error).
pub uninterp spec fn decimal_from_str(s: Seq<char>) -> Option<Dec>;

/// What `Decimal::from_str_exact` returns for a text (`None` for an error).
pub uninterp spec fn decimal_from_str_exact(s: Seq<char>) -> Option<Dec>;

/// What `Decimal::round_dp` returns (banker's rounding to `dp` decimals):
/// the value itself when it has at most `dp` decimals; else the mantissa
/// divided by `10^(scale - dp)` and rounded half to even, at scale `dp`, with
/// the sign kept except on a zero that the rounding produced.
#[verifier::opaque]
pub open spec fn decimal_round_dp(d: Dec, dp: u32) -> Dec {
    if d.scale <= dp {
        d
    } else {
        let k = (d.scale - dp) as nat;
        let q = d.mantissa as nat / pow10(k);
        let rem = d.mantissa as nat % pow10(k);
        let half = 5 * pow10((k - 1) as nat);
        let m = if rem > half || (rem == half && q % 2 == 1) {
            q + 1
        } else {
            q
        };
        Dec { negative: if d.mantissa == 0 { d.negative } else { m != 0 && d.negative }, mantissa: m as u128, scale: dp }
    }
}

/// What `Display for Decimal` writes (`format!("{}", d)`).
pub uninterp spec fn decimal_display(d: Dec) -> Seq<char>;

/// What `Display for Decimal` writes with two decimals (`format!("{:.2}", d)`).
pub uninterp spec fn decimal_display_2dp(d: Dec) -> Seq<char>;

/// What `Decimal + Decimal` returns.
pub uninterp spec fn decimal_add(a: Dec, b: Dec) -> Dec;

/// What `Decimal - Decimal` returns.
pub uninterp spec fn decimal_sub(a: Dec, b: Dec) -> Dec;

/// What `Decimal / Decimal` returns.
pub uninterp spec fn decimal_div(a: Dec, b: Dec) -> Dec;

/// What `Decimal * Decimal` returns.
pub uninterp spec fn decimal_mul(a: Dec, b: Dec) -> Dec;

/// What `ToPrimitive::to_i32` returns for a `Decimal`: its integer part
/// (the value truncated towards zero) when that fits in an `i32`.
#[verifier::opaque]
pub open spec fn decimal_to_i32(d: Dec) -> Option<i32> {
    let t = (d.mantissa as nat / pow10(d.scale as nat)) as int;
    let v = if d.negative {
        -t
    } else {
        t
    };
    if i32::MIN <= v <= i32::MAX {
        Some(v as i32)
    } else {
        None
    }
}

// ---------------------------------------------------------------------------
// Trusted calls into rust_decimal
// ---------------------------------------------------------------------------

/// Calls `Decimal::from_str`. Claimed: the result is the named parse of the
/// text, and a parsed value is one a `Decimal` holds.
#[verifier::external_body]
pub(crate) fn dec_parse(s: &str) -> (r: Option<Dec>)
    ensures
        r == decimal_from_str(s@),
        r matches Some(d) ==> d.wf(),
{
    match <rust_decimal::Decimal as core::str::FromStr>::from_str(s) {
        Ok(z) => Some(Dec { negative: z.is_sign_negative(), mantissa: z.mantissa().unsigned_abs(), scale: z.scale() }),
        Err(_) => None,
    }
}

/// Calls `Decimal::from_str_exact`. Claimed: the result is the named parse of
/// the text, and a parsed value is one a `Decimal` holds.
#[verifier::external_body]
pub(crate) fn dec_parse_exact(s: &str) -> (r: Option<Dec>)
    ensures
        r == decimal_from_str_exact(s@),
        r matches Some(d) ==> d.wf(),
{
    match rust_decimal::Decimal::from_str_exact(s) {
        Ok(z) => Some(Dec { negative: z.is_sign_negative(), mantissa: z.mantissa().unsigned_abs(), scale: z.scale() }),
        Err(_) => None,
    }
}

/// Calls `Decimal + Decimal`. Claimed: the named sum; when the aligned
/// operands and their sum stay below 2^96 the addition neither panics nor
/// rounds: the value is the exact sum, and the scale is at most the larger of
/// the two.
#[verifier::external_body]
pub(crate) fn dec_add(a: Dec, b: Dec) -> (r: Dec)
    requires
        a.wf(),
        b.wf(),
        add_fits(a, b),
    ensures
        r == decimal_add(a, b),
        r.wf(),
        r.v() == a.v() + b.v(),
        r.scale <= max_scale(a, b),
{
    let mut x = rust_decimal::Decimal::from_i128_with_scale(a.mantissa as i128, a.scale);
    x.set_sign_negative(a.negative);
    let mut y = rust_decimal::Decimal::from_i128_with_scale(b.mantissa as i128, b.scale);
    y.set_sign_negative(b.negative);
    let z = x + y;
    Dec { negative: z.is_sign_negative(), mantissa: z.mantissa().unsigned_abs(), scale: z.scale() }
}

/// Calls `Decimal - Decimal`. Claimed: the named difference; when the aligned
/// operands and their difference stay below 2^96 the subtraction neither
/// panics nor rounds, and the scale is at most the larger of the two.
#[verifier::external_body]
pub(crate) fn dec_sub(a: Dec, b: Dec) -> (r: Dec)
    requires
        a.wf(),
        b.wf(),
        sub_fits(a, b),
    ensures
        r == decimal_sub(a, b),
        r.wf(),
        r.v() == a.v() - b.v(),
        r.scale <= max_scale(a, b),
{
    let mut x = rust_decimal::Decimal::from_i128_with_scale(a.mantissa as i128, a.scale);
    x.set_sign_negative(a.negative);
    let mut y = rust_decimal::Decimal::from_i128_with_scale(b.mantissa as i128, b.scale);
    y.set_sign_negative(b.negative);
    let z = x - y;
    Dec { negative: z.is_sign_negative(), mantissa: z.mantissa().unsigned_abs(), scale: z.scale() }
}

/// Calls `Decimal < Decimal`. Claimed: the comparison is by value (the two
/// zeros are equal).
#[verifier::external_body]
pub(crate) fn dec_lt(a: Dec, b: Dec) -> (r: bool)
    requires
        a.wf(),
        b.wf(),
    ensures
        r == (a.v() < b.v()),
{
    let mut x = rust_decimal::Decimal::from_i128_with_scale(a.mantissa as i128, a.scale);
    x.set_sign_negative(a.negative);
    let mut y = rust_decimal::Decimal::from_i128_with_scale(b.mantissa as i128, b.scale);
    y.set_sign_negative(b.negative);
    x < y
}

/// Calls `Decimal::round_dp`. Claimed: the result is the rounding
/// `decimal_round_dp` states, a value a `Decimal` holds.
#[verifier::external_body]
pub(crate) fn dec_round_dp(d: Dec, dp: u32) -> (r: Dec)
    requires
        d.wf(),
    ensures
        r == decimal_round_dp(d, dp),
        r.wf(),
{
    let mut x = rust_decimal::Decimal::from_i128_with_scale(d.mantissa as i128, d.scale);
    x.set_sign_negative(d.negative);
    let z = x.round_dp(dp);
    Dec { negative: z.is_sign_negative(), mantissa: z.mantissa().unsigned_abs(), scale: z.scale() }
}

/// Calls `Display for Decimal` (`format!("{}", d)`). Claimed: the named text.
#[verifier::external_body]
pub(crate) fn dec_display(d: Dec) -> (r: String)
    requires
        d.wf(),
    ensures
        r@ == decimal_display(d),
{
    let mut x = rust_decimal::Decimal::from_i128_with_scale(d.mantissa as i128, d.scale);
    x.set_sign_negative(d.negative);
    format!("{}", x)
}

/// Calls `Display for Decimal` with precision two (`format!("{:.2}", d)`).
/// Claimed: the named text.
#[verifier::external_body]
pub(crate) fn dec_display_2dp(d: Dec) -> (r: String)
    requires
        d.wf(),
    ensures
        r@ == decimal_display_2dp(d),
{
    let mut x = rust_decimal::Decimal::from_i128_with_scale(d.mantissa as i128, d.scale);
    x.set_sign_negative(d.negative);
    format!("{:.2}", x)
}

/// Calls `Decimal / Decimal`. Claimed: with a non-zero divisor and an exact
/// quotient of magnitude below 2^95 the division does not panic; the result
/// is the named quotient, a value a `Decimal` holds, within one unit of the
/// exact quotient.
#[verifier::external_body]
pub(crate) fn dec_div(a: Dec, b: Dec) -> (r: Dec)
    requires
        a.wf(),
        b.wf(),
        b.mantissa != 0,
        abs_int(a.v()) < safe_bound() * abs_int(b.v()),
    ensures
        r == decimal_div(a, b),
        r.wf(),
        abs_int(r.signed()) * abs_int(b.v()) <= (abs_int(a.v()) + abs_int(b.v())) * pow10(
            r.scale as nat,
        ),
{
    let mut x = rust_decimal::Decimal::from_i128_with_scale(a.mantissa as i128, a.scale);
    x.set_sign_negative(a.negative);
    let mut y = rust_decimal::Decimal::from_i128_with_scale(b.mantissa as i128, b.scale);
    y.set_sign_negative(b.negative);
    let z = x / y;
    Dec { negative: z.is_sign_negative(), mantissa: z.mantissa().unsigned_abs(), scale: z.scale() }
}

/// Calls `Decimal * Decimal`. Claimed: when the exact product has magnitude
/// below 2^95 the multiplication does not panic; the result is the named
/// product, a value a `Decimal` holds.
#[verifier::external_body]
pub(crate) fn dec_mul(a: Dec, b: Dec) -> (r: Dec)
    requires
        a.wf(),
        b.wf(),
        abs_int(a.signed() * b.signed()) < safe_bound() * pow10((a.scale + b.scale) as nat),
    ensures
        r == decimal_mul(a, b),
        r.wf(),
{
    let mut x = rust_decimal::Decimal::from_i128_with_scale(a.mantissa as i128, a.scale);
    x.set_sign_negative(a.negative);
    let mut y = rust_decimal::Decimal::from_i128_with_scale(b.mantissa as i128, b.scale);
    y.set_sign_negative(b.negative);
    let z = x * y;
    Dec { negative: z.is_sign_negative(), mantissa: z.mantissa().unsigned_abs(), scale: z.scale() }
}

/// Calls `ToPrimitive::to_i32` on a `Decimal`. Claimed: the integer part
/// that `decimal_to_i32` states.
#[verifier::external_body]
pub(crate) fn dec_to_i32(d: Dec) -> (r: Option<i32>)
    requires
        d.wf(),
    ensures
        r == decimal_to_i32(d),
{
    let mut x = rust_decimal::Decimal::from_i128_with_scale(d.mantissa as i128, d.scale);
    x.set_sign_negative(d.negative);
    rust_decimal::prelude::ToPrimitive::to_i32(&x)
}

// ---------------------------------------------------------------------------
// Verified operations
// ---------------------------------------------------------------------------

/// `Decimal::ZERO`.
pub fn dec_zero() -> (r: Dec)
    ensures
        r == zero_spec(),
        r.wf(),
        r.v() == 0,
{
    let r = Dec { negative: false, mantissa: 0, scale: 0 };
    assert(r.signed() == 0);
    assert(0 * pow10(28) == 0);
    r
}

/// `Decimal::from(n)` for a small natural number.
pub fn dec_from_u32(n: u32) -> (r: Dec)
    ensures
        r.wf(),
        r.scale == 0,
        r.signed() == n,
{
    Dec { negative: false, mantissa: n as u128, scale: 0 }
}

/// `Decimal::is_zero`.
pub fn dec_is_zero(d: Dec) -> (r: bool)
    ensures
        r == (d.mantissa == 0),
{
    d.mantissa == 0
}

/// `Neg for Decimal`: the sign flag flips (also on zero).
pub fn dec_neg(d: Dec) -> (r: Dec)
    ensures
        r == (Dec { negative: !d.negative, ..d }),
        r.v() == -d.v(),
        r.wf() == d.wf(),
{
    proof {
        lemma_neg_at(d, 28);
    }
    Dec { negative: !d.negative, ..d }
}

/// `Decimal::abs`: the sign flag is cleared.
pub fn dec_abs(d: Dec) -> (r: Dec)
    requires
        d.wf(),
    ensures
        r == (Dec { negative: false, ..d }),
        r.v() == abs_int(d.v()),
        r.wf() == d.wf(),
{
    proof {
        lemma_abs_at(d, 28);
    }
    Dec { negative: false, ..d }
}

/// `m * 10^k` when it stays below 2^96.
fn aligned(m: u128, k: u32) -> (r: Option<u128>)
    requires
        m < mantissa_bound(),
    ensures
        r matches Some(x) ==> x == m * pow10(k as nat) && x < mantissa_bound(),
        r is None ==> m * pow10(k as nat) >= mantissa_bound(),
{
    let mut x: u128 = m;
    let mut j: u32 = 0;
    proof {
        assert(pow10(0) == 1);
    }
    while j < k
        invariant
            j <= k,
            x == m * pow10(j as nat),
            x < mantissa_bound(),
        decreases k - j,
    {
        proof {
            assert(pow10((j + 1) as nat) == 10 * pow10(j as nat));
            assert(m * pow10((j + 1) as nat) == 10 * (m * pow10(j as nat))) by (nonlinear_arith)
                requires
                    pow10((j + 1) as nat) == 10 * pow10(j as nat),
            ;
        }
        if x >= 7922816251426433759354395034u128 {
            proof {
                lemma_pow10_add((j + 1) as nat, (k - j - 1) as nat);
                lemma_pow10_pos((k - j - 1) as nat);
                let big = m * pow10((j + 1) as nat);
                assert(big >= mantissa_bound());
                assert(m * pow10(k as nat) == big * pow10((k - j - 1) as nat)) by (nonlinear_arith)
                    requires
                        pow10(k as nat) == pow10((j + 1) as nat) * pow10((k - j - 1) as nat),
                        big == m * pow10((j + 1) as nat),
                ;
                assert(big * pow10((k - j - 1) as nat) >= big) by (nonlinear_arith)
                    requires
                        big >= 0,
                        pow10((k - j - 1) as nat) >= 1,
                ;
            }
            return None;
        }
        x = x * 10;
        j = j + 1;
    }
    Some(x)
}

/// The value of `d` at scale `s` (`d.at(s)`) when its magnitude stays below
/// 2^96.
fn aligned_signed(d: Dec, s: u32) -> (r: Option<i128>)
    requires
        d.wf(),
        d.scale <= s,
    ensures
        r matches Some(x) ==> x == d.at(s as nat) && abs_int(d.at(s as nat)) < mantissa_bound(),
        r is None ==> abs_int(d.at(s as nat)) >= mantissa_bound(),
{
    proof {
        lemma_pow10_pos((s - d.scale) as nat);
    }
    match aligned(d.mantissa, s - d.scale) {
        Some(x) => {
            proof {
                assert(d.at(s as nat) == d.signed() * pow10((s - d.scale) as nat));
                if d.negative {
                    assert(d.signed() * pow10((s - d.scale) as nat) == -(d.mantissa * pow10((s - d.scale) as nat)))
                        by (nonlinear_arith)
                        requires
                            d.signed() == -(d.mantissa as int),
                    ;
                }
            }
            if d.negative {
                Some(-(x as i128))
            } else {
                Some(x as i128)
            }
        },
        None => {
            proof {
                assert(abs_int(d.signed() * pow10((s - d.scale) as nat)) == d.mantissa * pow10((s - d.scale) as nat))
                    by (nonlinear_arith)
                    requires
                        abs_int(d.signed()) == d.mantissa,
                        pow10((s - d.scale) as nat) >= 1,
                ;
            }
            None
        },
    }
}

/// Adding a `Decimal` value to zero is exact.
pub proof fn lemma_zero_add_fits(x: Dec)
    requires
        x.wf(),
    ensures
        add_fits(zero_spec(), x),
{
    assert(pow10(0) == 1) by {
        reveal_with_fuel(pow10, 2);
    }
    assert(zero_spec().signed() == 0);
    let z = ((x.scale as nat) - x.scale) as nat;
    assert(z == 0);
    assert(zero_spec().at(x.scale as nat) == 0);
    assert(x.at(x.scale as nat) == x.signed() * pow10(z));
}

/// Whether the representation is one a `Decimal` can hold.
pub(crate) fn dec_wf(d: &Dec) -> (r: bool)
    ensures
        r == d.wf(),
{
    d.mantissa < 79228162514264337593543950336u128 && d.scale <= 28
}

/// Whether `a + b` is exact (`add_fits`).
pub fn add_fits_exec(a: Dec, b: Dec) -> (r: bool)
    requires
        a.wf(),
        b.wf(),
    ensures
        r == add_fits(a, b),
{
    let s = if a.scale >= b.scale {
        a.scale
    } else {
        b.scale
    };
    match (aligned_signed(a, s), aligned_signed(b, s)) {
        (Some(x), Some(y)) => {
            let sum = x + y;
            -79228162514264337593543950336i128 < sum && sum < 79228162514264337593543950336i128
        },
        _ => false,
    }
}

/// Whether `a - b` is exact (`sub_fits`).
pub fn sub_fits_exec(a: Dec, b: Dec) -> (r: bool)
    requires
        a.wf(),
        b.wf(),
    ensures
        r == sub_fits(a, b),
{
    let s = if a.scale >= b.scale {
        a.scale
    } else {
        b.scale
    };
    match (aligned_signed(a, s), aligned_signed(b, s)) {
        (Some(x), Some(y)) => {
            let d = x - y;
            -79228162514264337593543950336i128 < d && d < 79228162514264337593543950336i128
        },
        _ => false,
    }
}

/// `Decimal::is_sign_negative`.
pub fn dec_is_sign_negative(d: Dec) -> (r: bool)
    ensures
        r == d.negative,
{
    d.negative
}

// ---------------------------------------------------------------------------
// Lemmas
// ---------------------------------------------------------------------------

pub proof fn lemma_pow10_pos(n: nat)
    ensures
        pow10(n) >= 1,
    decreases n,
{
    if n > 0 {
        lemma_pow10_pos((n - 1) as nat);
    }
}

pub proof fn lemma_pow10_add(a: nat, b: nat)
    ensures
        pow10(a + b) == pow10(a) * pow10(b),
    decreases b,
{
    if b > 0 {
        lemma_pow10_add(a, (b - 1) as nat);
        assert(pow10(a + b) == 10 * pow10((a + b - 1) as nat));
        assert(pow10(b) == 10 * pow10((b - 1) as nat));
        assert(pow10(a) * pow10(b) == pow10(a) * (10 * pow10((b - 1) as nat)));
        assert(pow10(a) * (10 * pow10((b - 1) as nat)) == 10 * (pow10(a) * pow10((b - 1) as nat)))
            by (nonlinear_arith);
    } else {
        assert(pow10(0) == 1);
    }
}

pub proof fn lemma_pow10_mono(a: nat, b: nat)
    requires
        a <= b,
    ensures
        pow10(a) <= pow10(b),
    decreases b,
{
    if a < b {
        lemma_pow10_mono(a, (b - 1) as nat);
        lemma_pow10_pos((b - 1) as nat);
    }
}

proof fn lemma_neg_at(d: Dec, s: nat)
    ensures
        (Dec { negative: !d.negative, ..d }).at(s) == -d.at(s),
{
    let e = Dec { negative: !d.negative, ..d };
    let p = pow10((s - d.scale) as nat);
    if d.negative {
        assert(e.signed() == d.mantissa as int);
    } else {
        assert(e.signed() == -(d.mantissa as int));
    }
    assert(e.signed() == -d.signed());
    assert((-d.signed()) * p == -(d.signed() * p)) by (nonlinear_arith);
}

proof fn lemma_abs_at(d: Dec, s: nat)
    requires
        s >= d.scale,
    ensures
        (Dec { negative: false, ..d }).at(s) == abs_int(d.at(s)),
{
    let e = Dec { negative: false, ..d };
    let p = pow10((s - d.scale) as nat);
    lemma_pow10_pos((s - d.scale) as nat);
    assert(e.signed() == abs_int(d.signed()));
    if d.signed() < 0 {
        assert(d.signed() * p < 0) by (nonlinear_arith)
            requires
                d.signed() < 0,
                p >= 1,
        ;
        assert((-d.signed()) * p == -(d.signed() * p)) by (nonlinear_arith);
    } else {
        assert(d.signed() * p >= 0) by (nonlinear_arith)
            requires
                d.signed() >= 0,
                p >= 1,
        ;
    }
}

/// Aligning to a larger scale multiplies by the power of ten in between.
pub proof fn lemma_at_shift(d: Dec, s: nat, t: nat)
    requires
        d.scale <= s <= t,
    ensures
        d.at(t) == d.at(s) * pow10((t - s) as nat),
{
    lemma_pow10_add((s - d.scale) as nat, (t - s) as nat);
    assert(((s - d.scale) as nat + (t - s) as nat) as nat == (t - d.scale) as nat);
    assert(d.signed() * (pow10((s - d.scale) as nat) * pow10((t - s) as nat)) == (d.signed()
        * pow10((s - d.scale) as nat)) * pow10((t - s) as nat)) by (nonlinear_arith);
}


/// |value at scale s| grows with s.
pub proof fn lemma_at_mono(d: Dec, s: nat, t: nat)
    requires
        d.scale <= s <= t,
    ensures
        abs_int(d.at(s)) <= abs_int(d.at(t)),
        abs_int(d.at(t)) == abs_int(d.at(s)) * pow10((t - s) as nat),
{
    lemma_at_shift(d, s, t);
    let p = pow10((t - s) as nat);
    lemma_pow10_pos((t - s) as nat);
    let x = d.at(s);
    if x >= 0 {
        assert(x * p >= x) by (nonlinear_arith)
            requires
                x >= 0,
                p >= 1,
        ;
        assert(x * p >= 0) by (nonlinear_arith)
            requires
                x >= 0,
                p >= 1,
        ;
    } else {
        assert(x * p <= x) by (nonlinear_arith)
            requires
                x < 0,
                p >= 1,
        ;
        assert((-x) * p == -(x * p)) by (nonlinear_arith);
    }
}

} // verus!
