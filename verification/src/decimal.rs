//! A 96-bit decimal number `mantissa / 10^scale`, as `rust_decimal` stores
//! it. Construction is exact; the arithmetic is `rust_decimal`'s, through
//! trusted wrappers whose results are named by the operands' views.
use vstd::prelude::*;

verus! {

/// The largest mantissa magnitude, 2^96 - 1.
pub open spec fn max_mantissa() -> int {
    79228162514264337593543950335
}

/// The largest scale.
pub const MAX_SCALE: u32 = 28;

/// 10^n.
pub open spec fn pow10(n: nat) -> int
    decreases n,
{
    if n == 0 {
        1
    } else {
        10 * pow10((n - 1) as nat)
    }
}

/// 10^n is positive and grows with n.
pub proof fn lemma_pow10_positive(n: nat)
    ensures
        pow10(n) >= 1,
    decreases n,
{
    if n > 0 {
        lemma_pow10_positive((n - 1) as nat);
    }
}

/// The magnitude bound of an integer is its absolute value.
pub proof fn lemma_magnitude_ceil_integer(m: int)
    ensures
        magnitude_ceil((m, 0)) == if m < 0 {
            -m
        } else {
            m
        },
{
    assert(pow10(0) == 1);
}

/// The smallest integer at or above the magnitude of `mantissa / 10^scale`.
pub open spec fn magnitude_ceil(d: (int, int)) -> int {
    let m = if d.0 < 0 {
        -d.0
    } else {
        d.0
    };
    let p = pow10(d.1 as nat);
    (m + p - 1) / p
}

/// The larger of two scales: the one at which two decimals add exactly.
pub open spec fn common_scale(a: (int, int), b: (int, int)) -> int {
    if a.1 >= b.1 {
        a.1
    } else {
        b.1
    }
}

/// The exact sum `a + b` as a mantissa at their common scale.
pub open spec fn exact_sum(a: (int, int), b: (int, int)) -> int {
    let s = common_scale(a, b);
    a.0 * pow10((s - a.1) as nat) + b.0 * pow10((s - b.1) as nat)
}

/// The exact difference `a - b` as a mantissa at their common scale.
pub open spec fn exact_difference(a: (int, int), b: (int, int)) -> int {
    let s = common_scale(a, b);
    a.0 * pow10((s - a.1) as nat) - b.0 * pow10((s - b.1) as nat)
}

/// Whether `exact / 10^scale` rounds to a mantissa of at most 2^96 - 1 in
/// magnitude at scale 0: it lies below 2^96 - 1/2 in magnitude.
pub open spec fn rounds_within_range(exact: int, scale: int) -> bool {
    let m = if exact < 0 {
        -exact
    } else {
        exact
    };
    2 * m < (2 * max_mantissa() + 1) * pow10(scale as nat)
}

/// Whether `d` is `exact / 10^scale` rounded at a scale of at most `scale`:
/// it differs from it by less than one unit of its own last place.
pub open spec fn rounded_from(d: (int, int), exact: int, scale: int) -> bool {
    let unit = pow10((scale - d.1) as nat);
    let diff = d.0 * unit - exact;
    &&& 0 <= d.1 <= scale
    &&& -unit < diff < unit
}

/// Whether `exact` fits a decimal's mantissa: at most 2^96 - 1 in
/// magnitude.
pub open spec fn fits_mantissa(exact: int) -> bool {
    -max_mantissa() <= exact <= max_mantissa()
}

/// 10^(a + b) is 10^a times 10^b.
pub proof fn lemma_pow10_add(a: nat, b: nat)
    ensures
        pow10(a + b) == pow10(a) * pow10(b),
    decreases b,
{
    if b > 0 {
        lemma_pow10_add(a, (b - 1) as nat);
        assert(pow10(a + b) == 10 * pow10((a + b - 1) as nat));
        assert(pow10(a) * (10 * pow10((b - 1) as nat)) == 10 * (pow10(a) * pow10((b - 1) as nat)))
            by (nonlinear_arith);
    }
}

/// A mantissa at scale `s` is at most its magnitude bound times 10^s.
proof fn lemma_magnitude_ceil_bounds(d: (int, int))
    requires
        d.1 >= 0,
    ensures
        (if d.0 < 0 {
            -d.0
        } else {
            d.0
        }) <= magnitude_ceil(d) * pow10(d.1 as nat),
{
    let m = if d.0 < 0 {
        -d.0
    } else {
        d.0
    };
    let p = pow10(d.1 as nat);
    lemma_pow10_positive(d.1 as nat);
    assert(m <= ((m + p - 1) / p) * p) by (nonlinear_arith)
        requires
            m >= 0,
            p >= 1,
    ;
}

/// One operand's share of the exact sum at a larger scale `s`.
proof fn lemma_operand_at_scale(d: (int, int), s: int)
    requires
        0 <= d.1 <= s,
    ensures
        (if d.0 < 0 {
            -d.0
        } else {
            d.0
        }) * pow10((s - d.1) as nat) <= magnitude_ceil(d) * pow10(s as nat),
        pow10((s - d.1) as nat) >= 1,
{
    let m = if d.0 < 0 {
        -d.0
    } else {
        d.0
    };
    let k = pow10((s - d.1) as nat);
    lemma_magnitude_ceil_bounds(d);
    lemma_pow10_add(d.1 as nat, (s - d.1) as nat);
    lemma_pow10_positive((s - d.1) as nat);
    assert((d.1 as nat + (s - d.1) as nat) as nat == s as nat);
    let c = magnitude_ceil(d);
    let p = pow10(d.1 as nat);
    assert(m * k <= c * p * k) by (nonlinear_arith)
        requires
            m <= c * p,
            k >= 1,
            m >= 0,
    ;
    assert(c * p * k == c * (p * k)) by (nonlinear_arith);
}

/// `m * k` lies within the magnitude of `m` times `k`, for a positive `k`.
proof fn lemma_term_bound(m: int, k: int)
    requires
        k >= 1,
    ensures
        m < 0 ==> m * k <= 0 && 0 - m * k == (0 - m) * k,
        m >= 0 ==> m * k >= 0,
{
    if m < 0 {
        assert(m * k <= 0 && 0 - m * k == (0 - m) * k) by (nonlinear_arith)
            requires
                m < 0,
                k >= 1,
        ;
    } else {
        assert(m * k >= 0) by (nonlinear_arith)
            requires
                m >= 0,
                k >= 1,
        ;
    }
}

/// Operands whose magnitude bounds add up to at most 2^96 - 1 have a sum
/// and a difference that round within range.
pub proof fn lemma_bounded_operands_round_within_range(a: (int, int), b: (int, int))
    requires
        a.1 >= 0,
        b.1 >= 0,
        magnitude_ceil(a) + magnitude_ceil(b) <= max_mantissa(),
    ensures
        rounds_within_range(exact_sum(a, b), common_scale(a, b)),
        rounds_within_range(exact_difference(a, b), common_scale(a, b)),
{
    let s = common_scale(a, b);
    lemma_operand_at_scale(a, s);
    lemma_operand_at_scale(b, s);
    let ka = pow10((s - a.1) as nat);
    let kb = pow10((s - b.1) as nat);
    let p = pow10(s as nat);
    lemma_pow10_positive(s as nat);
    let ca = magnitude_ceil(a);
    let cb = magnitude_ceil(b);
    lemma_term_bound(a.0, ka);
    lemma_term_bound(b.0, kb);
    assert(ca * p + cb * p == (ca + cb) * p) by (nonlinear_arith);
    assert((ca + cb) * p <= max_mantissa() * p) by (nonlinear_arith)
        requires
            ca + cb <= max_mantissa(),
            p >= 1,
    ;
    assert(2 * (max_mantissa() * p) < (2 * max_mantissa() + 1) * p) by (nonlinear_arith)
        requires
            p >= 1,
    ;
}

/// Whether two (mantissa, scale) pairs denote the same number.
pub open spec fn same_value(a: (int, int), b: (int, int)) -> bool {
    a.0 * pow10(b.1 as nat) == b.0 * pow10(a.1 as nat)
}

/// The (mantissa, scale) that `rust_decimal` gives for `a / b`.
pub uninterp spec fn decimal_quotient(a: (int, int), b: (int, int)) -> (int, int);

/// The (mantissa, scale) that `rust_decimal` gives for `a + b`.
pub uninterp spec fn decimal_sum(a: (int, int), b: (int, int)) -> (int, int);

/// The (mantissa, scale) that `rust_decimal` gives for `a - b`.
pub uninterp spec fn decimal_difference(a: (int, int), b: (int, int)) -> (int, int);

/// The (mantissa, scale) that `rust_decimal` gives for `a * b`.
pub uninterp spec fn decimal_product(a: (int, int), b: (int, int)) -> (int, int);

/// The (mantissa, scale) that `rust_decimal` gives for `a.fract()`.
pub uninterp spec fn decimal_fraction(a: (int, int)) -> (int, int);

/// The fractional part of `mantissa / 10^scale`, with its sign, at the
/// same scale: the mantissa's remainder by 10^scale, taken toward zero.
pub open spec fn fraction_of(d: (int, int)) -> (int, int) {
    let p = pow10(d.1 as nat);
    (
        if d.0 < 0 {
            -((-d.0) % p)
        } else {
            d.0 % p
        },
        d.1,
    )
}

/// `mantissa / 10^scale` rounded to an integer, a tie to the even one.
pub open spec fn rounded_half_even(d: (int, int)) -> int {
    let p = pow10(d.1 as nat);
    let m = if d.0 < 0 {
        -d.0
    } else {
        d.0
    };
    let q = m / p;
    let rem = m % p;
    let mag = if 2 * rem > p || (2 * rem == p && q % 2 == 1) {
        q + 1
    } else {
        q
    };
    if d.0 < 0 {
        -mag
    } else {
        mag
    }
}

/// A decimal number `mantissa / 10^scale`.
#[derive(Debug, Clone, Copy)]
pub struct Decimal {
    mantissa: i128,
    scale: u32,
}

impl View for Decimal {
    type V = (int, int);

    closed spec fn view(&self) -> (int, int) {
        (self.mantissa as int, self.scale as int)
    }
}

/// A decimal's scale is never negative.
pub proof fn lemma_scale_nonnegative(d: Decimal)
    ensures
        d@.1 >= 0,
{
}

impl Decimal {
    #[verifier::type_invariant]
    spec fn wf(self) -> bool {
        &&& -max_mantissa() <= self.mantissa <= max_mantissa()
        &&& self.scale <= 28
    }

    /// `num / 10^scale`; `rust_decimal` panics outside these bounds.
    pub fn from_i128_with_scale(num: i128, scale: u32) -> (r: Decimal)
        requires
            -max_mantissa() <= num <= max_mantissa(),
            scale <= 28,
        ensures
            r@ == (num as int, scale as int),
    {
        Decimal { mantissa: num, scale }
    }

    /// `num / 10^scale` for a 64-bit mantissa.
    pub fn new(num: i64, scale: u32) -> (r: Decimal)
        requires
            scale <= 28,
        ensures
            r@ == (num as int, scale as int),
    {
        Decimal { mantissa: num as i128, scale }
    }

    /// The integer `x`.
    pub fn from_u64(x: u64) -> (r: Decimal)
        ensures
            r@ == (x as int, 0int),
    {
        Decimal { mantissa: x as i128, scale: 0 }
    }

    /// The mantissa.
    pub fn mantissa(&self) -> (r: i128)
        ensures
            r == self@.0,
            -max_mantissa() <= r <= max_mantissa(),
    {
        proof {
            use_type_invariant(self);
        }
        self.mantissa
    }

    /// The scale: the number of decimal digits after the point.
    pub fn scale(&self) -> (r: u32)
        ensures
            r == self@.1,
            r <= 28,
    {
        proof {
            use_type_invariant(self);
        }
        self.scale
    }

    /// `rust_decimal`'s division; it panics on a zero divisor and on an
    /// overflowing quotient, which a dividend at most twice the divisor rules
    /// out. Such a quotient is at most 2 in magnitude.
    #[verifier::external_body]
    pub(crate) fn checked_quotient(&self, divisor: &Decimal) -> (r: Decimal)
        requires
            divisor@.0 != 0,
            (if self@.0 < 0 { -self@.0 } else { self@.0 }) * pow10(divisor@.1 as nat) <= 2 * (if divisor@.0
                < 0 {
                -divisor@.0
            } else {
                divisor@.0
            }) * pow10(self@.1 as nat),
        ensures
            r@ == decimal_quotient(self@, divisor@),
            magnitude_ceil(r@) <= 2,
    {
        let a = rust_decimal::Decimal::from_i128_with_scale(self.mantissa, self.scale);
        let b = rust_decimal::Decimal::from_i128_with_scale(divisor.mantissa, divisor.scale);
        let q = a / b;
        Decimal { mantissa: q.mantissa(), scale: q.scale() }
    }

    /// `rust_decimal`'s addition. It adds exactly at the larger of the two
    /// scales; where that needs more than 96 bits it drops digits, rounding
    /// to the nearest (ties to even), and it panics only when even at scale
    /// 0 the rounded sum exceeds 2^96 - 1 in magnitude. A sum that fits 96
    /// bits at the larger scale comes out exact. The mantissa and scale it
    /// writes the sum with (a zero operand gives back the other one as it
    /// is) are named, not written out.
    #[verifier::external_body]
    pub(crate) fn checked_sum(&self, other: &Decimal) -> (r: Decimal)
        requires
            rounds_within_range(exact_sum(self@, other@), common_scale(self@, other@)),
        ensures
            r@ == decimal_sum(self@, other@),
            rounded_from(r@, exact_sum(self@, other@), common_scale(self@, other@)),
            fits_mantissa(exact_sum(self@, other@)) ==> r@.0 * pow10(
                (common_scale(self@, other@) - r@.1) as nat,
            ) == exact_sum(self@, other@),
    {
        let a = rust_decimal::Decimal::from_i128_with_scale(self.mantissa, self.scale);
        let b = rust_decimal::Decimal::from_i128_with_scale(other.mantissa, other.scale);
        let s = a + b;
        Decimal { mantissa: s.mantissa(), scale: s.scale() }
    }

    /// `rust_decimal`'s subtraction, done as its addition of the negated
    /// operand: exact where the difference fits 96 bits at the larger
    /// scale, else rounded to the nearest at a smaller scale; it panics only
    /// when even at scale 0 the rounded difference exceeds 2^96 - 1 in
    /// magnitude.
    #[verifier::external_body]
    pub(crate) fn checked_difference(&self, other: &Decimal) -> (r: Decimal)
        requires
            rounds_within_range(exact_difference(self@, other@), common_scale(self@, other@)),
        ensures
            r@ == decimal_difference(self@, other@),
            rounded_from(r@, exact_difference(self@, other@), common_scale(self@, other@)),
            fits_mantissa(exact_difference(self@, other@)) ==> r@.0 * pow10(
                (common_scale(self@, other@) - r@.1) as nat,
            ) == exact_difference(self@, other@),
    {
        let a = rust_decimal::Decimal::from_i128_with_scale(self.mantissa, self.scale);
        let b = rust_decimal::Decimal::from_i128_with_scale(other.mantissa, other.scale);
        let d = a - b;
        Decimal { mantissa: d.mantissa(), scale: d.scale() }
    }

    /// `rust_decimal`'s multiplication; it panics when the product exceeds
    /// 2^96 - 1 in magnitude, which a factor of magnitude at most 1 rules
    /// out. It multiplies the mantissas exactly at the sum of the scales;
    /// where that needs more than 96 bits or a scale above 28 it drops
    /// digits, rounding to the nearest (ties to even), and a product that
    /// fits both comes out exact. The mantissa and scale it writes the
    /// product with are named.
    #[verifier::external_body]
    pub(crate) fn checked_product(&self, other: &Decimal) -> (r: Decimal)
        requires
            magnitude_ceil(self@) <= 1,
        ensures
            r@ == decimal_product(self@, other@),
            rounded_from(r@, self@.0 * other@.0, self@.1 + other@.1),
            fits_mantissa(self@.0 * other@.0) && self@.1 + other@.1 <= 28 ==> r@.0 * pow10(
                (self@.1 + other@.1 - r@.1) as nat,
            ) == self@.0 * other@.0,
    {
        let a = rust_decimal::Decimal::from_i128_with_scale(self.mantissa, self.scale);
        let b = rust_decimal::Decimal::from_i128_with_scale(other.mantissa, other.scale);
        let p = a * b;
        Decimal { mantissa: p.mantissa(), scale: p.scale() }
    }

    /// `rust_decimal`'s `fract`: the number less its integer part (taken
    /// toward zero), a subtraction that is exact here. Its value is stated;
    /// the scale it is written at (a zero may come at scale 0) is named.
    #[verifier::external_body]
    pub(crate) fn fract(&self) -> (r: Decimal)
        ensures
            r@ == decimal_fraction(self@),
            same_value(r@, fraction_of(self@)),
            magnitude_ceil(r@) <= 1,
    {
        let a = rust_decimal::Decimal::from_i128_with_scale(self.mantissa, self.scale);
        let f = a.fract();
        Decimal { mantissa: f.mantissa(), scale: f.scale() }
    }

    /// `rust_decimal`'s `round`: to the nearest integer, ties to even, at
    /// scale 0.
    #[verifier::external_body]
    pub(crate) fn round(&self) -> (r: Decimal)
        ensures
            r@ == (rounded_half_even(self@), 0int),
    {
        let a = rust_decimal::Decimal::from_i128_with_scale(self.mantissa, self.scale);
        let n = a.round();
        Decimal { mantissa: n.mantissa(), scale: n.scale() }
    }

    /// `rust_decimal`'s `==`, which compares the numbers the two decimals
    /// denote, whatever their scales.
    #[verifier::external_body]
    fn equals(&self, other: &Decimal) -> (r: bool)
        ensures
            r == same_value(self@, other@),
    {
        let a = rust_decimal::Decimal::from_i128_with_scale(self.mantissa, self.scale);
        let b = rust_decimal::Decimal::from_i128_with_scale(other.mantissa, other.scale);
        a == b
    }
}

impl PartialEq for Decimal {
    fn eq(&self, other: &Self) -> (r: bool) {
        self.equals(other)
    }
}

impl vstd::std_specs::cmp::PartialEqSpecImpl for Decimal {
    open spec fn obeys_eq_spec() -> bool {
        true
    }

    open spec fn eq_spec(&self, other: &Self) -> bool {
        same_value(self@, other@)
    }
}

} // verus!
