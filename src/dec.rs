//! Exact decimal numbers, computed by `rust_decimal`.
use rust_decimal::{Decimal, RoundingStrategy};
use vstd::prelude::*;

verus! {

/// The largest mantissa magnitude that a decimal holds: 2^96 - 1.
pub const MAX_MANTISSA: i128 = 79228162514264337593543950335;

/// The largest number of fractional digits that a decimal holds.
pub const MAX_SCALE: u32 = 28;

pub open spec fn pow10(n: nat) -> int
    decreases n,
{
    if n == 0 {
        1
    } else {
        10 * pow10((n - 1) as nat)
    }
}

/// A decimal number `mantissa / 10^scale`.
#[derive(Clone, Copy, Debug)]
pub struct Dec {
    mantissa: i128,
    scale: u32,
}

impl Dec {
    #[verifier::type_invariant]
    spec fn inv(self) -> bool {
        -MAX_MANTISSA <= self.mantissa <= MAX_MANTISSA && self.scale <= MAX_SCALE
    }

    pub closed spec fn m(self) -> int {
        self.mantissa as int
    }

    pub closed spec fn s(self) -> nat {
        self.scale as nat
    }

    /// The decimal `num / 10^scale`.
    pub fn new(num: i64, scale: u32) -> (r: Dec)
        requires
            scale <= MAX_SCALE,
        ensures
            r.m() == num,
            r.s() == scale,
            r == dec_of(num as int, scale as int),
    {
        Dec { mantissa: num as i128, scale }
    }

    /// The decimal `num / 10^scale`, if `num` and `scale` are within range.
    pub fn from_i128_with_scale(num: i128, scale: u32) -> (r: Option<Dec>)
        ensures
            r is Some <==> (-MAX_MANTISSA <= num <= MAX_MANTISSA && scale <= MAX_SCALE),
            r matches Some(d) ==> d.m() == num && d.s() == scale,
    {
        if -MAX_MANTISSA <= num && num <= MAX_MANTISSA && scale <= MAX_SCALE {
            Some(Dec { mantissa: num, scale })
        } else {
            None
        }
    }

    /// The integer `n` as a decimal.
    pub fn from_int(n: i64) -> (r: Dec)
        ensures
            r.m() == n,
            r.s() == 0,
            r == dec_of(n as int, 0),
    {
        Dec { mantissa: n as i128, scale: 0 }
    }

    pub fn mantissa(&self) -> (r: i128)
        ensures
            r == self.m(),
            -MAX_MANTISSA <= r <= MAX_MANTISSA,
    {
        proof {
            use_type_invariant(self);
        }
        self.mantissa
    }

    pub fn scale(&self) -> (r: u32)
        ensures
            r == self.s(),
            r <= MAX_SCALE,
    {
        proof {
            use_type_invariant(self);
        }
        self.scale
    }
}

/// `a` and `b` stand for the same number.
pub open spec fn same_value(a: Dec, b: Dec) -> bool {
    a.m() * pow10(b.s()) == b.m() * pow10(a.s())
}

/// `n / d` rounded to the nearest integer, ties to the even one (`n >= 0`, `d > 0`).
pub open spec fn half_even(n: int, d: int) -> int {
    let q = n / d;
    let r = n % d;
    if 2 * r > d || (2 * r == d && q % 2 == 1) {
        q + 1
    } else {
        q
    }
}

/// Half-even rounding of the signed integer `n / d`, symmetric around zero.
pub open spec fn half_even_signed(n: int, d: int) -> int {
    if n >= 0 {
        half_even(n, d)
    } else {
        -half_even(-n, d)
    }
}

/// The mantissa of `a + b` written at the larger of the two scales.
pub open spec fn aligned_sum(a: Dec, b: Dec) -> int {
    let s = if a.s() >= b.s() { a.s() } else { b.s() };
    a.m() * pow10((s - a.s()) as nat) + b.m() * pow10((s - b.s()) as nat)
}

pub open spec fn max_scale(a: Dec, b: Dec) -> nat {
    if a.s() >= b.s() {
        a.s()
    } else {
        b.s()
    }
}

/// Nonzero operands below 2^64 whose scales differ by at most 19, with a sum
/// that stays below 2^96 at the larger scale: `rust_decimal` adds them exactly.
pub open spec fn sum_is_exact(a: Dec, b: Dec) -> bool {
    &&& a.m() != 0 && b.m() != 0
    &&& -0x1_0000_0000_0000_0000 < a.m() < 0x1_0000_0000_0000_0000
    &&& -0x1_0000_0000_0000_0000 < b.m() < 0x1_0000_0000_0000_0000
    &&& max_scale(a, b) - a.s() <= 19 && max_scale(a, b) - b.s() <= 19
    &&& -MAX_MANTISSA <= aligned_sum(a, b) <= MAX_MANTISSA
}

/// Mantissas below 2^32 whose scales add up to at most 28: `rust_decimal`
/// multiplies them exactly.
pub open spec fn product_is_exact(a: Dec, b: Dec) -> bool {
    small(a, b) && a.s() + b.s() <= MAX_SCALE
}

/// What `rust_decimal`'s checked addition returns, as mantissa and scale.
pub uninterp spec fn decimal_sum(am: int, ascale: int, bm: int, bscale: int) -> Option<(int, int)>;

/// What `rust_decimal`'s checked multiplication returns, as mantissa and scale.
pub uninterp spec fn decimal_product(am: int, ascale: int, bm: int, bscale: int) -> Option<(int, int)>;

/// What `rust_decimal`'s checked division returns, as mantissa and scale.
pub uninterp spec fn decimal_quotient(am: int, ascale: int, bm: int, bscale: int) -> Option<(int, int)>;

pub open spec fn parts(d: Option<Dec>) -> Option<(int, int)> {
    match d {
        Some(x) => Some((x.m(), x.s() as int)),
        None => None,
    }
}

/// Both mantissas are below 2^32 in magnitude.
pub open spec fn small(a: Dec, b: Dec) -> bool {
    -0x1_0000_0000 < a.m() < 0x1_0000_0000 && -0x1_0000_0000 < b.m() < 0x1_0000_0000
}

/// Relies on `Decimal::checked_add`: a zero operand gives back the other one,
/// and operands below 2^64 whose scales differ by at most 19 add exactly at
/// the larger scale when the sum stays below 2^96.
#[verifier::external_body]
fn decimal_add(a: Dec, b: Dec) -> (r: Option<Dec>)
    ensures
        parts(r) == decimal_sum(a.m(), a.s() as int, b.m(), b.s() as int),
        a.m() == 0 ==> parts(r) == Some((b.m(), b.s() as int)),
        b.m() == 0 && a.m() != 0 ==> parts(r) == Some((a.m(), a.s() as int)),
        ({
            let s = if a.s() >= b.s() { a.s() } else { b.s() };
            &&& a.m() != 0 && b.m() != 0
            &&& -0x1_0000_0000_0000_0000 < a.m() < 0x1_0000_0000_0000_0000
            &&& -0x1_0000_0000_0000_0000 < b.m() < 0x1_0000_0000_0000_0000
            &&& s - a.s() <= 19 && s - b.s() <= 19
            &&& -MAX_MANTISSA <= aligned_sum(a, b) <= MAX_MANTISSA
        }) ==> parts(r) == Some((aligned_sum(a, b), (if a.s() >= b.s() { a.s() } else { b.s() }) as int)),
{
    let x = Decimal::from_i128_with_scale(a.mantissa, a.scale);
    let y = Decimal::from_i128_with_scale(b.mantissa, b.scale);
    x.checked_add(y).map(|z| Dec { mantissa: z.mantissa(), scale: z.scale() })
}

/// Relies on `Decimal::checked_mul`: a zero operand gives zero, and operands
/// below 2^32 multiply exactly when the scales add up to at most 28.
#[verifier::external_body]
fn decimal_mul(a: Dec, b: Dec) -> (r: Option<Dec>)
    ensures
        parts(r) == decimal_product(a.m(), a.s() as int, b.m(), b.s() as int),
        a.m() == 0 || b.m() == 0 ==> parts(r) == Some((0int, 0int)),
        small(a, b) && a.s() + b.s() <= MAX_SCALE ==> parts(r) == Some((a.m() * b.m(), (a.s() + b.s()) as int)),
{
    let x = Decimal::from_i128_with_scale(a.mantissa, a.scale);
    let y = Decimal::from_i128_with_scale(b.mantissa, b.scale);
    x.checked_mul(y).map(|z| Dec { mantissa: z.mantissa(), scale: z.scale() })
}

/// Relies on `Decimal::checked_div`: `None` for a zero divisor; a divisor
/// below 2^32 that divides a nonzero dividend of at least its scale gives the
/// exact quotient at the difference of the scales.
#[verifier::external_body]
fn decimal_div(a: Dec, b: Dec) -> (r: Option<Dec>)
    ensures
        parts(r) == decimal_quotient(a.m(), a.s() as int, b.m(), b.s() as int),
        b.m() == 0 ==> r is None,
        ({
            &&& a.m() != 0 && b.m() != 0
            &&& -0x1_0000_0000 < b.m() < 0x1_0000_0000
            &&& a.s() >= b.s()
            &&& a.m() % b.m() == 0
        }) ==> parts(r) == Some((a.m() / b.m(), a.s() - b.s())),
{
    let x = Decimal::from_i128_with_scale(a.mantissa, a.scale);
    let y = Decimal::from_i128_with_scale(b.mantissa, b.scale);
    x.checked_div(y).map(|z| Dec { mantissa: z.mantissa(), scale: z.scale() })
}

/// Relies on `Decimal::round_dp_with_strategy` with `MidpointNearestEven`:
/// a decimal with at most `dp` fractional digits is returned as it is; any
/// other is rounded half to even to exactly `dp` digits.
#[verifier::external_body]
fn decimal_round(a: Dec, dp: u32) -> (r: Dec)
    ensures
        a.s() <= dp ==> r.m() == a.m() && r.s() == a.s(),
        a.s() > dp ==> r.s() == dp && r.m() == half_even_signed(a.m(), pow10((a.s() - dp) as nat)),
{
    let x = Decimal::from_i128_with_scale(a.mantissa, a.scale);
    let z = x.round_dp_with_strategy(dp, RoundingStrategy::MidpointNearestEven);
    Dec { mantissa: z.mantissa(), scale: z.scale() }
}

/// Relies on `Decimal`'s `==`, which compares the numbers and not their scales.
#[verifier::external_body]
fn decimal_eq(a: &Dec, b: &Dec) -> (r: bool)
    ensures
        r == same_value(*a, *b),
{
    let x = Decimal::from_i128_with_scale(a.mantissa, a.scale);
    let y = Decimal::from_i128_with_scale(b.mantissa, b.scale);
    x == y
}

impl PartialEq for Dec {
    fn eq(&self, other: &Dec) -> (r: bool) {
        decimal_eq(self, other)
    }
}

impl vstd::std_specs::cmp::PartialEqSpecImpl for Dec {
    open spec fn obeys_eq_spec() -> bool {
        true
    }

    open spec fn eq_spec(&self, other: &Dec) -> bool {
        same_value(*self, *other)
    }
}

/// The decimal with this mantissa and scale.
pub closed spec fn dec_of(m: int, s: int) -> Dec {
    Dec { mantissa: m as i128, scale: s as u32 }
}

/// Decimals are equal when their mantissas and scales are.
pub proof fn lemma_ext(a: Dec, b: Dec)
    requires
        a.m() == b.m(),
        a.s() == b.s(),
    ensures
        a == b,
{
}

pub open spec fn of_parts(p: Option<(int, int)>) -> Option<Dec> {
    match p {
        Some((m, s)) => Some(dec_of(m, s)),
        None => None,
    }
}

proof fn lemma_of_parts(r: Option<Dec>)
    ensures
        of_parts(parts(r)) == r,
{
}

/// The sum that `rust_decimal` computes, `None` on overflow.
pub open spec fn plus(a: Dec, b: Dec) -> Option<Dec> {
    of_parts(decimal_sum(a.m(), a.s() as int, b.m(), b.s() as int))
}

/// The product that `rust_decimal` computes, `None` on overflow.
pub open spec fn times(a: Dec, b: Dec) -> Option<Dec> {
    of_parts(decimal_product(a.m(), a.s() as int, b.m(), b.s() as int))
}

/// The quotient that `rust_decimal` computes, `None` for a zero divisor or on overflow.
pub open spec fn over(a: Dec, b: Dec) -> Option<Dec> {
    of_parts(decimal_quotient(a.m(), a.s() as int, b.m(), b.s() as int))
}

/// `a` rounded half to even to at most `dp` fractional digits.
pub open spec fn rounded(a: Dec, dp: nat) -> Dec {
    if a.s() <= dp {
        a
    } else {
        dec_of(half_even_signed(a.m(), pow10((a.s() - dp) as nat)), dp as int)
    }
}

impl Dec {
    /// Exact sum where `rust_decimal` keeps it exact.
    pub fn checked_add(self, b: Dec) -> (r: Option<Dec>)
        ensures
            r == plus(self, b),
            self.m() == 0 ==> r == Some(b),
            b.m() == 0 && self.m() != 0 ==> r == Some(self),
            sum_is_exact(self, b) ==> (r matches Some(x) && x.m() == aligned_sum(self, b) && x.s()
                == max_scale(self, b)),
    {
        let r = decimal_add(self, b);
        proof {
            lemma_of_parts(r);
            if self.m() == 0 {
                lemma_ext(r->0, b);
            } else if b.m() == 0 {
                lemma_ext(r->0, self);
            }
        }
        r
    }

    /// Product; exact for mantissas below 2^32 whose scales add up to at most 28.
    pub fn checked_mul(self, b: Dec) -> (r: Option<Dec>)
        ensures
            r == times(self, b),
            self.m() == 0 || b.m() == 0 ==> (r matches Some(x) && x.m() == 0 && x.s() == 0),
            product_is_exact(self, b) ==> (r matches Some(x) && x.m() == self.m()
                * b.m() && x.s() == self.s() + b.s()),
    {
        let r = decimal_mul(self, b);
        proof {
            lemma_of_parts(r);
        }
        r
    }

    /// Quotient; `None` for a zero divisor; exact for a divisor below 2^32
    /// that divides the dividend.
    pub fn checked_div(self, b: Dec) -> (r: Option<Dec>)
        ensures
            r == over(self, b),
            b.m() == 0 ==> r is None,
            ({
                &&& self.m() != 0 && b.m() != 0
                &&& -0x1_0000_0000 < b.m() < 0x1_0000_0000
                &&& self.s() >= b.s()
                &&& self.m() % b.m() == 0
            }) ==> (r matches Some(x) && x.m() == self.m() / b.m() && x.s() == self.s() - b.s()),
    {
        let r = decimal_div(self, b);
        proof {
            lemma_of_parts(r);
        }
        r
    }

    /// Rounded half to even to at most `dp` fractional digits.
    pub fn round_dp(self, dp: u32) -> (r: Dec)
        ensures
            r == rounded(self, dp as nat),
            self.s() <= dp ==> r.m() == self.m() && r.s() == self.s(),
            self.s() > dp ==> r.s() == dp && r.m() == half_even_signed(
                self.m(),
                pow10((self.s() - dp) as nat),
            ),
    {
        let r = decimal_round(self, dp);
        proof {
            if self.s() <= dp {
                lemma_ext(r, self);
            } else {
                lemma_ext(r, dec_of(r.m(), r.s() as int));
            }
        }
        r
    }
}

/// The text that `rust_decimal` writes for a decimal with two fractional digits.
pub uninterp spec fn two_place_text(m: int, s: int) -> Seq<char>;

/// Relies on `Decimal`'s `Display` with precision 2 (`{:.2}`).
#[verifier::external_body]
fn decimal_text(a: &Dec) -> (r: String)
    ensures
        r@ == two_place_text(a.m(), a.s() as int),
{
    let x = Decimal::from_i128_with_scale(a.mantissa, a.scale);
    format!("{:.2}", x)
}

impl Dec {
    /// The decimal written with two fractional digits.
    pub fn to_text(&self) -> (r: String)
        ensures
            r@ == two_place_text(self.m(), self.s() as int),
    {
        decimal_text(self)
    }
}

} // verus!
