//! The state of a Uniswap V3 pool and the virtual reserves and swap limits
//! derived from it.
use crate::tick_math::{
    lemma_sqrt_price_at_tick_bounds, lemma_tick_bounds_bracket, sqrt_price_at_tick,
    spec_sqrt_price_at_tick, spec_tick_high, spec_tick_low, tick_high, tick_low, TickError,
    I24_MAX, I24_MIN, MAX_TICK,
};
use crate::uint::{lemma_pow2_values, p128, p160, p192, p256, p512, p96, U160, U256, U512};
use vstd::arithmetic::div_mod::{lemma_div_is_ordered, lemma_div_is_ordered_by_denominator};
use vstd::arithmetic::mul::lemma_mul_inequality;
use vstd::prelude::*;

verus! {

/// A pool's square-root price (Q64.96), its in-range liquidity and its
/// current tick.
#[derive(Debug, Clone, Copy, PartialEq, Eq)]
pub struct PoolState {
    pub sqrt_price_x96: U160,
    pub liquidity: u128,
    pub tick: i32,
}

/// Why a swap limit could not be computed.
#[derive(Debug, Clone, Copy, PartialEq, Eq)]
pub enum PoolStateError {
    /// The tick, or a boundary derived from it, is out of range.
    Tick(TickError),
    /// The reserve at the range boundary is below the current reserve.
    SwapLimitUnderflow(U256, U256),
}

/// The virtual reserve of token 0: `L * 2^96 / sqrtP`, rounded down, and 0
/// for a zero price.
pub open spec fn spec_virtual_reserve_x(sqrt_price_x96: int, liquidity: int) -> int {
    if sqrt_price_x96 == 0 {
        0
    } else {
        (liquidity * p96()) / sqrt_price_x96
    }
}

/// The virtual reserve of token 1: `L * sqrtP / 2^96`, rounded down.
pub open spec fn spec_virtual_reserve_y(sqrt_price_x96: int, liquidity: int) -> int {
    (liquidity * sqrt_price_x96) / p96()
}

fn virtual_reserve_x(sqrt_price_x96: U160, liquidity: u128) -> (r: U256)
    requires
        sqrt_price_x96.wf(),
    ensures
        r@ == spec_virtual_reserve_x(sqrt_price_x96@, liquidity as int),
{
    proof {
        lemma_pow2_values();
        assert(liquidity * p96() < p256()) by (nonlinear_arith)
            requires
                0 <= liquidity < p128(),
                p256() == p128() * p128(),
                p96() < p128(),
        ;
        assert(0 <= liquidity * p96()) by (nonlinear_arith);
    }
    let liquidity_x96 = U256::from_u128(liquidity).shl(96);
    match liquidity_x96.checked_div(sqrt_price_x96.to_u256()) {
        Some(reserve) => reserve,
        None => U256::zero(),
    }
}

fn virtual_reserve_y(sqrt_price_x96: U160, liquidity: u128) -> (r: U256)
    requires
        sqrt_price_x96.wf(),
    ensures
        r@ == spec_virtual_reserve_y(sqrt_price_x96@, liquidity as int),
{
    let q_96 = U512::from_u128(0x1_0000_0000_0000_0000_0000_0000u128);
    let liquidity_wide = U512::from_u128(liquidity);
    let sqrt_price_wide = sqrt_price_x96.to_u512();
    proof {
        assert(0 <= liquidity * sqrt_price_x96@ < p128() * p160()) by (nonlinear_arith)
            requires
                0 <= liquidity < p128(),
                0 <= sqrt_price_x96@ < p160(),
        ;
        assert(p128() * p160() < p512()) by (nonlinear_arith);
    }
    let product = liquidity_wide.wrapping_mul(sqrt_price_wide);
    proof {
        vstd::arithmetic::div_mod::lemma_small_mod(
            (liquidity * sqrt_price_x96@) as nat,
            p512() as nat,
        );
    }
    let quotient = product.div(q_96);
    proof {
        assert(p128() * p160() == p192() * p96());
        assert(quotient@ < p192()) by (nonlinear_arith)
            requires
                quotient@ == product@ / p96(),
                0 <= product@ < p128() * p160(),
                p96() > 0,
                p128() * p160() == p192() * p96(),
        ;
    }
    quotient.to_u256()
}

impl PoolState {
    /// The pool fields are within the range of their on-chain types.
    pub open spec fn wf(&self) -> bool {
        &&& self.sqrt_price_x96.wf()
        &&& I24_MIN <= self.tick <= I24_MAX
    }

    /// The virtual reserve of token 0 at the current price.
    pub fn virtual_reserve_x(&self) -> (r: U256)
        requires
            self.wf(),
        ensures
            r@ == spec_virtual_reserve_x(self.sqrt_price_x96@, self.liquidity as int),
    {
        virtual_reserve_x(self.sqrt_price_x96, self.liquidity)
    }

    /// The virtual reserve of token 1 at the current price.
    pub fn virtual_reserve_y(&self) -> (r: U256)
        requires
            self.wf(),
        ensures
            r@ == spec_virtual_reserve_y(self.sqrt_price_x96@, self.liquidity as int),
    {
        virtual_reserve_y(self.sqrt_price_x96, self.liquidity)
    }

    /// The token-0 reserve at the lower boundary of the current tick range.
    pub open spec fn spec_reserve_x_at_tick_low(&self, tick_spacing: int) -> int {
        spec_virtual_reserve_x(
            spec_sqrt_price_at_tick(spec_tick_low(self.tick as int, tick_spacing)),
            self.liquidity as int,
        )
    }

    /// The token-1 reserve at the upper boundary of the current tick range.
    pub open spec fn spec_reserve_y_at_tick_high(&self, tick_spacing: int) -> int {
        spec_virtual_reserve_y(
            spec_sqrt_price_at_tick(spec_tick_high(self.tick as int, tick_spacing)),
            self.liquidity as int,
        )
    }

    /// How much token 0 the pool can absorb before its price leaves the
    /// current tick range: the token-0 reserve at the range's lower price
    /// minus the current one.
    pub fn swap_limit_x(&self, tick_spacing: u16) -> (r: Result<U256, PoolStateError>)
        requires
            self.wf(),
            tick_spacing > 0,
        ensures
            !(-MAX_TICK <= self.tick <= MAX_TICK) ==> r == Err::<U256, PoolStateError>(
                PoolStateError::Tick(TickError::TickOutOfBounds(self.tick)),
            ),
            -MAX_TICK <= self.tick <= MAX_TICK ==> {
                let bound = self.spec_reserve_x_at_tick_low(tick_spacing as int);
                let current = spec_virtual_reserve_x(self.sqrt_price_x96@, self.liquidity as int);
                &&& bound >= current ==> r is Ok && r->Ok_0@ == bound - current
                &&& bound < current ==> (r matches Err(PoolStateError::SwapLimitUnderflow(b, c))
                    && b@ == bound && c@ == current)
            },
    {
        let low = match tick_low(self.tick, tick_spacing as u32) {
            Ok(t) => t,
            Err(e) => {
                return Err(PoolStateError::Tick(e));
            },
        };
        proof {
            lemma_tick_bounds_bracket(self.tick as int, tick_spacing as int);
        }
        let sqrt_price_min_x96 = match sqrt_price_at_tick(low) {
            Ok(p) => p,
            Err(e) => {
                return Err(PoolStateError::Tick(e));
            },
        };
        let reserve_current = virtual_reserve_x(self.sqrt_price_x96, self.liquidity);
        let reserve_min = virtual_reserve_x(sqrt_price_min_x96, self.liquidity);
        match reserve_min.checked_sub(reserve_current) {
            Some(limit) => Ok(limit),
            None => Err(PoolStateError::SwapLimitUnderflow(reserve_min, reserve_current)),
        }
    }

    /// How much token 1 the pool can absorb before its price leaves the
    /// current tick range: the token-1 reserve at the range's upper price
    /// minus the current one.
    pub fn swap_limit_y(&self, tick_spacing: u16) -> (r: Result<U256, PoolStateError>)
        requires
            self.wf(),
            tick_spacing > 0,
        ensures
            !(-MAX_TICK <= self.tick <= MAX_TICK) ==> r == Err::<U256, PoolStateError>(
                PoolStateError::Tick(TickError::TickOutOfBounds(self.tick)),
            ),
            -MAX_TICK <= self.tick <= MAX_TICK ==> {
                let bound = self.spec_reserve_y_at_tick_high(tick_spacing as int);
                let current = spec_virtual_reserve_y(self.sqrt_price_x96@, self.liquidity as int);
                &&& bound >= current ==> r is Ok && r->Ok_0@ == bound - current
                &&& bound < current ==> (r matches Err(PoolStateError::SwapLimitUnderflow(b, c))
                    && b@ == bound && c@ == current)
            },
    {
        proof {
            if -MAX_TICK <= self.tick <= MAX_TICK {
                lemma_tick_bounds_bracket(self.tick as int, tick_spacing as int);
            }
        }
        let high = match tick_high(self.tick, tick_spacing as u32) {
            Ok(t) => t,
            Err(e) => {
                return Err(PoolStateError::Tick(e));
            },
        };
        let sqrt_price_max_x96 = match sqrt_price_at_tick(high) {
            Ok(p) => p,
            Err(e) => {
                return Err(PoolStateError::Tick(e));
            },
        };
        let reserve_current = virtual_reserve_y(self.sqrt_price_x96, self.liquidity);
        let reserve_max = virtual_reserve_y(sqrt_price_max_x96, self.liquidity);
        match reserve_max.checked_sub(reserve_current) {
            Some(limit) => Ok(limit),
            None => Err(PoolStateError::SwapLimitUnderflow(reserve_max, reserve_current)),
        }
    }
}

/// While the current price is at or above the lower boundary of its tick
/// range, the token-0 swap limit exists: the virtual reserve of token 0 only
/// shrinks as the price rises.
pub proof fn lemma_swap_limit_x_defined(state: PoolState, tick_spacing: int)
    requires
        state.wf(),
        -887272 <= state.tick <= 887272,
        0 < tick_spacing < 0x1_0000,
        state.sqrt_price_x96@ >= spec_sqrt_price_at_tick(
            spec_tick_low(state.tick as int, tick_spacing),
        ),
    ensures
        state.spec_reserve_x_at_tick_low(tick_spacing) >= spec_virtual_reserve_x(
            state.sqrt_price_x96@,
            state.liquidity as int,
        ),
{
    lemma_tick_bounds_bracket(state.tick as int, tick_spacing);
    let low = spec_tick_low(state.tick as int, tick_spacing);
    lemma_sqrt_price_at_tick_bounds(low);
    let n = state.liquidity * p96();
    assert(0 <= n) by (nonlinear_arith)
        requires
            n == state.liquidity * p96(),
            state.liquidity >= 0,
    ;
    lemma_div_is_ordered_by_denominator(n, spec_sqrt_price_at_tick(low), state.sqrt_price_x96@);
}

/// While the current price is at or below the upper boundary of its tick
/// range, the token-1 swap limit exists: the virtual reserve of token 1 only
/// grows as the price rises.
pub proof fn lemma_swap_limit_y_defined(state: PoolState, tick_spacing: int)
    requires
        state.wf(),
        -887272 <= state.tick <= 887272,
        0 < tick_spacing < 0x1_0000,
        state.sqrt_price_x96@ <= spec_sqrt_price_at_tick(
            spec_tick_high(state.tick as int, tick_spacing),
        ),
    ensures
        state.spec_reserve_y_at_tick_high(tick_spacing) >= spec_virtual_reserve_y(
            state.sqrt_price_x96@,
            state.liquidity as int,
        ),
{
    let high = spec_tick_high(state.tick as int, tick_spacing);
    lemma_mul_inequality(state.sqrt_price_x96@, spec_sqrt_price_at_tick(high), state.liquidity as int);
    vstd::arithmetic::mul::lemma_mul_is_commutative(state.sqrt_price_x96@, state.liquidity as int);
    vstd::arithmetic::mul::lemma_mul_is_commutative(spec_sqrt_price_at_tick(high), state.liquidity as int);
    lemma_div_is_ordered(
        state.liquidity * state.sqrt_price_x96@,
        state.liquidity * spec_sqrt_price_at_tick(high),
        p96(),
    );
}

} // verus!
