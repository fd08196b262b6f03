//! Conversions between on-chain integers and decimals: Q64.96 square-root
//! prices, token amounts scaled by their decimals, and fee amounts.
use crate::decimal::{
    common_scale, decimal_difference, decimal_fraction, decimal_product, decimal_quotient,
    decimal_sum, exact_sum, rounded_half_even, lemma_bounded_operands_round_within_range,
    lemma_magnitude_ceil_integer, lemma_pow10_positive,
    lemma_scale_nonnegative, magnitude_ceil, max_mantissa, pow10, rounded_from, Decimal,
};
use crate::uint::{p128, p64, p96, U160, U256};
use vstd::arithmetic::div_mod::{
    lemma_div_is_ordered, lemma_fundamental_div_mod, lemma_fundamental_div_mod_converse,
    lemma_mod_bound,
};
use vstd::prelude::*;

verus! {

/// 2^96 as a decimal with a rounded mantissa: the denominator of the Q64.96
/// fractional part.
pub open spec fn denominator_q96() -> (int, int) {
    (79228162500000000000000000000int, 0int)
}

fn denominator_q96_decimal() -> (r: Decimal)
    ensures
        r@ == denominator_q96(),
{
    Decimal::from_i128_with_scale(79228162500000000000000000000, 0)
}

/// `10^exp` when it fits in a u128.
pub fn checked_pow10(exp: u32) -> (r: Option<u128>)
    ensures
        pow10(exp as nat) <= u128::MAX ==> r == Some(pow10(exp as nat) as u128),
        pow10(exp as nat) > u128::MAX ==> r is None,
{
    let mut acc: u128 = 1;
    let mut i: u32 = 0;
    while i < exp
        invariant
            i <= exp,
            acc == pow10(i as nat),
        decreases exp - i,
    {
        if acc > u128::MAX / 10 {
            proof {
                lemma_pow10_monotone((i + 1) as nat, exp as nat);
            }
            return None;
        }
        acc = acc * 10;
        i = i + 1;
    }
    Some(acc)
}

/// 10^n grows with n.
pub proof fn lemma_pow10_monotone(a: nat, b: nat)
    requires
        a <= b,
    ensures
        pow10(a) <= pow10(b),
    decreases b - a,
{
    lemma_pow10_positive(b);
    if a < b {
        lemma_pow10_monotone(a, (b - 1) as nat);
        lemma_pow10_positive((b - 1) as nat);
    }
}

/// Why a token amount could not be turned into a decimal.
#[derive(Debug, Clone, Copy, PartialEq, Eq)]
pub enum DecimalConversionError {
    /// `10^decimals` does not fit in a u128.
    ExponentiationOverflow(U256, u32),
    /// The integer part needs more than 96 bits.
    IntegerPartOverflow(U256),
}

/// The inputs on which the conversion of an amount to a decimal completes:
/// the fractional digits must fit a decimal's scale whenever the integer
/// part fits, and the sum, rounded to an integer where 96 bits call for it,
/// must stay below 2^96: an integer part of 2^96 - 1 takes a fraction below
/// one half.
pub open spec fn decimal_conversion_defined(value: int, decimals: nat) -> bool {
    let p = pow10(decimals);
    &&& (decimals > 28 && p <= u128::MAX) ==> value / p >= p96()
    &&& (decimals <= 28 && value / p == p96() - 1) ==> 2 * (value % p) < p
}

/// The (mantissa, scale) that converting `value` with `decimals` gives, or
/// `None` when the conversion is refused.
pub open spec fn spec_converted_amount(value: int, decimals: nat) -> Option<(int, int)> {
    let p = pow10(decimals);
    if p > u128::MAX || value / p >= p96() {
        None
    } else {
        Some(decimal_sum((value / p, 0), (value % p, decimals as int)))
    }
}

/// Whether converting `value` with `decimals` completes, as an executable
/// check.
pub fn conversion_defined(value: &U256, decimals: u32) -> (r: bool)
    ensures
        r == decimal_conversion_defined(value@, decimals as nat),
{
    proof {
        lemma_pow10_positive(decimals as nat);
    }
    match checked_pow10(decimals) {
        None => {
            proof {
                if decimals <= 28 {
                    lemma_pow10_monotone(decimals as nat, 28);
                    assert(pow10(28) == 10000000000000000000000000000) by {
                        reveal_with_fuel(pow10, 29);
                    }
                }
            }
            true
        },
        Some(p) => {
            let wide = U256::from_u128(p);
            let q = value.div(wide);
            let r = value.rem(wide);
            let big = U256::from_u128(0x1_0000_0000_0000_0000_0000_0000u128);
            let edge = U256::from_u128(0xffff_ffff_ffff_ffff_ffff_ffffu128);
            let half = U256::from_u128((p - 1) / 2);
            let q_fits = q.lt(&big);
            let q_is_edge = !q.lt(&edge) && q.lt(&big);
            let below_half = !half.lt(&r);
            (decimals <= 28 || !q_fits) && (decimals > 28 || !q_is_edge || below_half)
        },
    }
}

/// `value / 10^decimals` as a decimal: its integer part and its remaining
/// digits, which `rust_decimal` adds up.
pub fn try_into_decimal(value: U256, decimals: u32) -> (r: Result<Decimal, DecimalConversionError>)
    requires
        decimal_conversion_defined(value@, decimals as nat),
    ensures
        pow10(decimals as nat) > u128::MAX ==> r == Err::<Decimal, DecimalConversionError>(
            DecimalConversionError::ExponentiationOverflow(value, decimals),
        ),
        pow10(decimals as nat) <= u128::MAX && value@ / pow10(decimals as nat) >= p96() ==> (r
            matches Err(DecimalConversionError::IntegerPartOverflow(q)) && q@ == value@ / pow10(
            decimals as nat,
        )),
        pow10(decimals as nat) <= u128::MAX && value@ / pow10(decimals as nat) < p96() ==> (r
            matches Ok(d) && d@ == decimal_sum(
            (value@ / pow10(decimals as nat), 0),
            (value@ % pow10(decimals as nat), decimals as int),
        )),
        r is Ok <==> spec_converted_amount(value@, decimals as nat) is Some,
        r matches Ok(d) ==> spec_converted_amount(value@, decimals as nat) == Some(d@),
        r matches Ok(d) ==> rounded_from(d@, value@, decimals as int),
        pow10(decimals as nat) <= u128::MAX && value@ <= max_mantissa() ==> (r matches Ok(d)
            && d@.0 * pow10((decimals - d@.1) as nat) == value@),
{
    proof {
        lemma_pow10_positive(decimals as nat);
    }
    let denominator = match checked_pow10(decimals) {
        Some(d) => d,
        None => {
            return Err(DecimalConversionError::ExponentiationOverflow(value, decimals));
        },
    };
    let denominator_wide = U256::from_u128(denominator);
    let quotient = value.div(denominator_wide);
    let remainder = value.rem(denominator_wide);
    let max_quotient = U256::from_u128(0x1_0000_0000_0000_0000_0000_0000u128);
    if !quotient.lt(&max_quotient) {
        return Err(DecimalConversionError::IntegerPartOverflow(quotient));
    }
    proof {
        lemma_mod_bound(value@, denominator as int);
        lemma_pow10_monotone(decimals as nat, 28);
        assert(pow10(28) == 10000000000000000000000000000) by {
            reveal_with_fuel(pow10, 29);
        }
    }
    let q = quotient.to_u128().unwrap() as i128;
    let r = remainder.to_u128().unwrap() as i128;
    let integer_part = Decimal::from_i128_with_scale(q, 0);
    let decimal_part = Decimal::from_i128_with_scale(r, decimals);
    proof {
        lemma_pow10_positive(0);
        let p = pow10(decimals as nat);
        let qi = q as int;
        let ri = r as int;
        assert(common_scale(integer_part@, decimal_part@) == decimals as int);
        assert(exact_sum(integer_part@, decimal_part@) == value@) by {
            assert(((decimals as int - 0) as nat) == decimals as nat);
            assert(((decimals as int - decimals as int) as nat) == 0nat);
            lemma_fundamental_div_mod(value@, p);
            assert(p * qi == qi * p) by (nonlinear_arith);
        }
        assert(value@ == qi * p + ri) by {
            lemma_fundamental_div_mod(value@, p);
            assert(p * qi == qi * p) by (nonlinear_arith);
        }
        assert(2 * value@ < (2 * max_mantissa() + 1) * p) by (nonlinear_arith)
            requires
                value@ == qi * p + ri,
                0 <= ri < p,
                0 <= qi <= max_mantissa(),
                qi == max_mantissa() ==> 2 * ri < p,
        ;
    }
    Ok(integer_part.checked_sum(&decimal_part))
}

/// A Q64.96 fixed-point number as a decimal: the low 96 bits divided by the
/// decimal `denominator_q96()`, plus the high 64 bits.
pub fn q_64_96_to_decimal(q_64_96: U160) -> (r: Decimal)
    requires
        q_64_96.wf(),
    ensures
        r@ == decimal_sum(
            decimal_quotient((q_64_96@ % p96(), 0), denominator_q96()),
            (q_64_96@ / p96(), 0),
        ),
{
    let limbs = q_64_96.as_limbs();
    let frac: u128 = limbs[0] as u128 + ((limbs[1] % 0x1_0000_0000) as u128)
        * 0x1_0000_0000_0000_0000u128;
    let int_part: u64 = limbs[1] / 0x1_0000_0000 + limbs[2] * 0x1_0000_0000;
    proof {
        let l1_low = limbs[1] % 0x1_0000_0000;
        let l1_high = limbs[1] / 0x1_0000_0000;
        lemma_fundamental_div_mod(limbs[1] as int, 0x1_0000_0000);
        assert(q_64_96@ == frac + p96() * int_part);
        lemma_fundamental_div_mod_converse(q_64_96@, p96(), int_part as int, frac as int);
    }
    let frac_decimal = Decimal::from_i128_with_scale(frac as i128, 0);
    let denominator = denominator_q96_decimal();
    proof {
        assert(pow10(0) == 1);
        assert(frac <= 2 * 79228162500000000000000000000int);
        assert(frac_decimal@.0 == frac);
        assert(frac_decimal@.0 * pow10(denominator@.1 as nat) == frac);
        assert(2 * denominator@.0 * pow10(frac_decimal@.1 as nat) == 2 * 79228162500000000000000000000int);
    }
    let sqrt_price_frac = frac_decimal.checked_quotient(&denominator);
    let sqrt_price_int = Decimal::from_u64(int_part);
    proof {
        lemma_magnitude_ceil_integer(int_part as int);
        lemma_scale_nonnegative(sqrt_price_frac);
        lemma_bounded_operands_round_within_range(sqrt_price_frac@, sqrt_price_int@);
    }
    sqrt_price_frac.checked_sum(&sqrt_price_int)
}

/// The integer part of `mantissa / 10^scale`, rounded toward zero.
pub open spec fn truncated_integer_part(d: (int, int)) -> int {
    let p = pow10(d.1 as nat);
    if d.0 >= 0 {
        d.0 / p
    } else {
        -((-d.0) / p)
    }
}

/// Why a decimal could not be turned into a Q64.96 number.
#[derive(Debug, Clone, Copy, PartialEq, Eq, Structural)]
pub enum QConversionError {
    /// The integer part needs more than 64 bits.
    IntegerPartTooLarge(i128),
}

/// The Q64.96 fractional part of a decimal: its fractional part times the
/// decimal `denominator_q96()`, as `rust_decimal` multiplies them, rounded
/// to the nearest integer, a tie to the even one.
pub open spec fn q96_fraction(d: (int, int)) -> int {
    rounded_half_even(decimal_product(decimal_fraction(d), denominator_q96()))
}

/// A decimal as a Q64.96 number: the fraction scaled by the decimal
/// `denominator_q96()` and rounded fills the low 96 bits, the integer part
/// the high 64 (each as its two's complement bits).
pub fn decimal_to_q_64_96(decimal: Decimal) -> (r: Result<U160, QConversionError>)
    ensures
        truncated_integer_part(decimal@) > u64::MAX ==> r == Err::<U160, QConversionError>(
            QConversionError::IntegerPartTooLarge(truncated_integer_part(decimal@) as i128),
        ),
        truncated_integer_part(decimal@) <= u64::MAX ==> (r matches Ok(q) && q.wf() && q@
            == q96_fraction(decimal@) % p96() + p96() * (truncated_integer_part(decimal@)
            % p64())),
{
    let mantissa = decimal.mantissa();
    let scale = decimal.scale();
    proof {
        lemma_pow10_monotone(scale as nat, 28);
        lemma_pow10_positive(scale as nat);
        assert(pow10(28) == 10000000000000000000000000000) by {
            reveal_with_fuel(pow10, 29);
        }
    }
    let scale_multiplier = checked_pow10(scale).unwrap() as i128;
    let integer_part = mantissa.checked_div(scale_multiplier).unwrap();
    proof {
        let p = scale_multiplier as int;
        let m = mantissa as int;
        if m < 0 {
            assert((m * -1) / p <= m * -1) by (nonlinear_arith)
                requires
                    m < 0,
                    p >= 1,
            ;
            assert(((m * -1) / p) * -1 == truncated_integer_part(decimal@));
        } else if m > 0 {
            assert(m / p <= m) by (nonlinear_arith)
                requires
                    m > 0,
                    p >= 1,
            ;
        }
    }
    if integer_part > u64::MAX as i128 {
        return Err(QConversionError::IntegerPartTooLarge(integer_part));
    }
    let fraction = decimal.fract();
    let scaled = fraction.checked_product(&denominator_q96_decimal());
    let frac = scaled.round().mantissa();
    let frac_low = frac.checked_rem_euclid(0x1_0000_0000_0000_0000_0000_0000i128).unwrap() as u128;
    let int_low = integer_part.checked_rem_euclid(0x1_0000_0000_0000_0000i128).unwrap() as u128;
    proof {
        lemma_mod_bound(frac as int, p96());
        lemma_mod_bound(integer_part as int, p64());
    }
    let l0 = (frac_low % 0x1_0000_0000_0000_0000u128) as u64;
    let l1 = (frac_low / 0x1_0000_0000_0000_0000u128 + (int_low % 0x1_0000_0000u128)
        * 0x1_0000_0000u128) as u64;
    let l2 = (int_low / 0x1_0000_0000u128) as u64;
    proof {
        lemma_fundamental_div_mod(frac_low as int, p64());
        lemma_fundamental_div_mod(int_low as int, 0x1_0000_0000);
        assert(l0 + p64() * l1 + p128() * l2 == frac_low + p96() * int_low);
    }
    Ok(U160::from_limbs([l0, l1, l2]))
}

/// A fee in hundredths of a basis point as a decimal fraction:
/// `fee / 10^6`.
pub fn fee_amount_from_int(fee: u32) -> (r: Decimal)
    ensures
        r@ == (fee as int, 6int),
{
    Decimal::new(fee as i64, 6)
}

/// One as the decimal `1.0`.
pub open spec fn decimal_one() -> (int, int) {
    (10int, 1int)
}

/// `1.0 - fee / 10^6`: the share of an input amount that a pool with this
/// fee passes on.
pub fn fee_multiplier_from_int(fee: u32) -> (r: Decimal)
    ensures
        r@ == decimal_difference(decimal_one(), (fee as int, 6int)),
        0 <= r@.1 <= 6,
        r@.0 * pow10((6 - r@.1) as nat) == 1000000 - fee,
{
    let one = Decimal::from_i128_with_scale(10, 1);
    let fee_amount = fee_amount_from_int(fee);
    proof {
        reveal_with_fuel(pow10, 7);
        assert(magnitude_ceil(one@) == 1) by {
            assert(pow10(1) == 10);
            assert((10int + 10 - 1) / 10 == 1);
        }
        assert(magnitude_ceil(fee_amount@) <= 4295) by {
            assert((fee + 1000000 - 1) / 1000000 <= 4295) by (nonlinear_arith)
                requires
                    0 <= fee <= u32::MAX,
            ;
        }
        lemma_bounded_operands_round_within_range(one@, fee_amount@);
    }
    one.checked_difference(&fee_amount)
}

} // verus!
