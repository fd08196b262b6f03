//! Pool reserves as decimals, and the calls that read them on chain.
use crate::decimal::{max_mantissa, pow10, rounded_from, Decimal};
use crate::fixed_point::{
    conversion_defined, decimal_conversion_defined, spec_converted_amount, try_into_decimal,
    DecimalConversionError,
};
use crate::pool_state::{spec_virtual_reserve_x, spec_virtual_reserve_y, PoolState, PoolStateError};
use crate::abi::{read_word_i24, read_word_u128, read_word_u160, sign_extend_24, word_tail};
use crate::primitives::Address;
use crate::tick_math::MAX_TICK;
use vstd::prelude::*;

verus! {

/// One contract call of a multicall batch.
#[derive(Debug, Clone, PartialEq, Eq)]
pub struct Call {
    pub target: Address,
    pub call_data: Vec<u8>,
}

/// The target and call data of each call.
pub open spec fn call_entries(calls: Seq<Call>) -> Seq<(Address, Seq<u8>)> {
    calls.map_values(|c: Call| (c.target, c.call_data@))
}

/// A pool's reserves as seen by a swap: the virtual reserves, how much of
/// each token can be swapped in before the price leaves its range, and the
/// share of the input left after the fee.
#[derive(Debug, Clone, Copy, PartialEq)]
pub struct VirtualReserves {
    pub token0: Decimal,
    pub token1: Decimal,
    pub max_swap0: Decimal,
    pub max_swap1: Decimal,
    pub fee_multiplier: Decimal,
}

/// The reserves of a constant-product pool.
#[derive(Debug, Clone, Copy, PartialEq)]
pub struct Reserves {
    pub token0: Decimal,
    pub token1: Decimal,
    pub fee_multiplier: Decimal,
}

impl Reserves {
    /// A constant-product pool can absorb up to its whole reserve of each
    /// token.
    pub fn as_virtual_reserves(&self) -> (r: VirtualReserves)
        ensures
            r.token0 == self.token0,
            r.token1 == self.token1,
            r.max_swap0 == self.token0,
            r.max_swap1 == self.token1,
            r.fee_multiplier == self.fee_multiplier,
    {
        VirtualReserves {
            token0: self.token0,
            token1: self.token1,
            max_swap0: self.token0,
            max_swap1: self.token1,
            fee_multiplier: self.fee_multiplier,
        }
    }
}

/// Why a pool's call results could not be turned into reserves.
#[derive(Debug, Clone, Copy, PartialEq)]
pub enum DecodeErrorKind {
    /// The result of the call at this position is missing.
    MissingData(usize),
    /// There are more results than calls.
    InvalidResponseSize(usize),
    /// The result of the call at this position is too short.
    DecodeFailed(usize),
    /// The token-0 swap limit could not be computed.
    SwapLimitX(PoolStateError),
    /// The token-1 swap limit could not be computed.
    SwapLimitY(PoolStateError),
    /// An amount could not be converted to a decimal.
    Conversion(DecimalConversionError),
}

/// The token-0 swap limit of a state, when it is defined.
pub open spec fn spec_limit_x(state: PoolState, tick_spacing: int) -> Option<int> {
    let current = spec_virtual_reserve_x(state.sqrt_price_x96@, state.liquidity as int);
    let bound = state.spec_reserve_x_at_tick_low(tick_spacing);
    if -MAX_TICK <= state.tick <= MAX_TICK && bound >= current {
        Some(bound - current)
    } else {
        None
    }
}

/// The token-1 swap limit of a state, when it is defined.
pub open spec fn spec_limit_y(state: PoolState, tick_spacing: int) -> Option<int> {
    let current = spec_virtual_reserve_y(state.sqrt_price_x96@, state.liquidity as int);
    let bound = state.spec_reserve_y_at_tick_high(tick_spacing);
    if -MAX_TICK <= state.tick <= MAX_TICK && bound >= current {
        Some(bound - current)
    } else {
        None
    }
}

/// Whether `d` is the amount `value` of a token with `decimals` decimals:
/// `value / 10^decimals` written to within one unit of its last digit, at
/// no more than `decimals` digits, and exactly when `value` fits a
/// decimal's mantissa.
pub open spec fn converted_from(d: (int, int), value: int, decimals: nat) -> bool {
    &&& rounded_from(d, value, decimals as int)
    &&& value <= max_mantissa() ==> d.0 * pow10((decimals as int - d.1) as nat) == value
}

/// Whether the reserves hold the amounts of a concentrated-liquidity state,
/// each scaled by its own token's decimals: the virtual reserve and swap
/// limit of token 0 by `decimals0`, those of token 1 by `decimals1`.
pub open spec fn reserves_scaled(
    v: VirtualReserves,
    state: PoolState,
    tick_spacing: int,
    decimals0: nat,
    decimals1: nat,
) -> bool {
    &&& converted_from(
        v.token0@,
        spec_virtual_reserve_x(state.sqrt_price_x96@, state.liquidity as int),
        decimals0,
    )
    &&& converted_from(
        v.token1@,
        spec_virtual_reserve_y(state.sqrt_price_x96@, state.liquidity as int),
        decimals1,
    )
    &&& converted_from(v.max_swap0@, spec_limit_x(state, tick_spacing)->0, decimals0)
    &&& converted_from(v.max_swap1@, spec_limit_y(state, tick_spacing)->0, decimals1)
}

/// The amounts of a concentrated-liquidity pool that are converted to
/// decimals once both swap limits exist: reserve 0, reserve 1, limit 0,
/// limit 1.
pub open spec fn concentrated_amounts(state: PoolState, tick_spacing: int) -> Seq<int> {
    seq![
        spec_virtual_reserve_x(state.sqrt_price_x96@, state.liquidity as int),
        spec_virtual_reserve_y(state.sqrt_price_x96@, state.liquidity as int),
        spec_limit_x(state, tick_spacing)->0,
        spec_limit_y(state, tick_spacing)->0,
    ]
}

/// The conversions of a concentrated-liquidity pool's amounts complete
/// (those of token 0 with `decimals0`, of token 1 with `decimals1`).
pub open spec fn concentrated_conversions_defined(
    state: PoolState,
    tick_spacing: int,
    decimals0: nat,
    decimals1: nat,
) -> bool {
    let a = concentrated_amounts(state, tick_spacing);
    spec_limit_x(state, tick_spacing) is Some && spec_limit_y(state, tick_spacing) is Some ==> {
        &&& decimal_conversion_defined(a[0], decimals0)
        &&& decimal_conversion_defined(a[1], decimals1)
        &&& decimal_conversion_defined(a[2], decimals0)
        &&& decimal_conversion_defined(a[3], decimals1)
    }
}

/// The reserves of a concentrated-liquidity pool in a given state, once all
/// the conversions succeed.
pub open spec fn spec_concentrated_reserves(
    state: PoolState,
    tick_spacing: int,
    decimals0: nat,
    decimals1: nat,
) -> Option<Seq<(int, int)>> {
    let a = concentrated_amounts(state, tick_spacing);
    if spec_limit_x(state, tick_spacing) is Some && spec_limit_y(state, tick_spacing) is Some
        && spec_converted_amount(a[0], decimals0) is Some && spec_converted_amount(a[1], decimals1)
        is Some && spec_converted_amount(a[2], decimals0) is Some && spec_converted_amount(
        a[3],
        decimals1,
    ) is Some {
        Some(
            seq![
                spec_converted_amount(a[0], decimals0)->0,
                spec_converted_amount(a[1], decimals1)->0,
                spec_converted_amount(a[2], decimals0)->0,
                spec_converted_amount(a[3], decimals1)->0,
            ],
        )
    } else {
        None
    }
}

/// Whether the conversions of a concentrated-liquidity pool's amounts
/// complete, as an executable check.
pub fn concentrated_conversions_check(
    state: &PoolState,
    tick_spacing: u16,
    decimals0: u32,
    decimals1: u32,
) -> (r: bool)
    requires
        state.wf(),
        tick_spacing > 0,
    ensures
        r == concentrated_conversions_defined(
            *state,
            tick_spacing as int,
            decimals0 as nat,
            decimals1 as nat,
        ),
{
    let limit_x = state.swap_limit_x(tick_spacing);
    let limit_y = state.swap_limit_y(tick_spacing);
    match (limit_x, limit_y) {
        (Ok(max_swap0), Ok(max_swap1)) => {
            let reserve0 = state.virtual_reserve_x();
            let reserve1 = state.virtual_reserve_y();
            conversion_defined(&reserve0, decimals0) && conversion_defined(&reserve1, decimals1)
                && conversion_defined(&max_swap0, decimals0) && conversion_defined(
                &max_swap1,
                decimals1,
            )
        },
        _ => true,
    }
}

/// The reserves of a concentrated-liquidity pool (Uniswap V3 and V4,
/// PancakeSwap V3) in a given state: its virtual reserves, its swap limits
/// for the given tick spacing, all as decimals of the tokens' decimals, and
/// the pool's fee multiplier.
pub fn concentrated_reserves(
    state: &PoolState,
    tick_spacing: u16,
    decimals0: u32,
    decimals1: u32,
    fee_multiplier: Decimal,
) -> (r: Result<VirtualReserves, DecodeErrorKind>)
    requires
        state.wf(),
        tick_spacing > 0,
        concentrated_conversions_defined(
            *state,
            tick_spacing as int,
            decimals0 as nat,
            decimals1 as nat,
        ),
    ensures
        spec_limit_x(*state, tick_spacing as int) is None ==> r matches Err(
            DecodeErrorKind::SwapLimitX(_),
        ),
        spec_limit_x(*state, tick_spacing as int) is Some && spec_limit_y(
            *state,
            tick_spacing as int,
        ) is None ==> r matches Err(DecodeErrorKind::SwapLimitY(_)),
        r is Ok <==> spec_concentrated_reserves(
            *state,
            tick_spacing as int,
            decimals0 as nat,
            decimals1 as nat,
        ) is Some,
        r matches Ok(v) ==> {
            let s = spec_concentrated_reserves(
                *state,
                tick_spacing as int,
                decimals0 as nat,
                decimals1 as nat,
            )->0;
            &&& v.token0@ == s[0]
            &&& v.token1@ == s[1]
            &&& v.max_swap0@ == s[2]
            &&& v.max_swap1@ == s[3]
            &&& v.fee_multiplier == fee_multiplier
        },
        r matches Ok(v) ==> reserves_scaled(
            v,
            *state,
            tick_spacing as int,
            decimals0 as nat,
            decimals1 as nat,
        ),
{
    let reserve0 = state.virtual_reserve_x();
    let reserve1 = state.virtual_reserve_y();
    let max_swap0 = match state.swap_limit_x(tick_spacing) {
        Ok(v) => v,
        Err(e) => {
            return Err(DecodeErrorKind::SwapLimitX(e));
        },
    };
    let max_swap1 = match state.swap_limit_y(tick_spacing) {
        Ok(v) => v,
        Err(e) => {
            return Err(DecodeErrorKind::SwapLimitY(e));
        },
    };
    let token0 = match try_into_decimal(reserve0, decimals0) {
        Ok(d) => d,
        Err(e) => {
            return Err(DecodeErrorKind::Conversion(e));
        },
    };
    let token1 = match try_into_decimal(reserve1, decimals1) {
        Ok(d) => d,
        Err(e) => {
            return Err(DecodeErrorKind::Conversion(e));
        },
    };
    let max_swap0 = match try_into_decimal(max_swap0, decimals0) {
        Ok(d) => d,
        Err(e) => {
            return Err(DecodeErrorKind::Conversion(e));
        },
    };
    let max_swap1 = match try_into_decimal(max_swap1, decimals1) {
        Ok(d) => d,
        Err(e) => {
            return Err(DecodeErrorKind::Conversion(e));
        },
    };
    Ok(VirtualReserves { token0, token1, max_swap0, max_swap1, fee_multiplier })
}

/// `st` is the state held in the results of `slot0()` (its first word the
/// square-root price, its second the tick) and of `liquidity()`.
pub open spec fn is_decoded_state(st: PoolState, slot0: Seq<u8>, liquidity: Seq<u8>) -> bool {
    &&& st.wf()
    &&& st.sqrt_price_x96@ == word_tail(slot0, 0, 20)
    &&& st.tick == sign_extend_24(word_tail(slot0, 1, 3))
    &&& st.liquidity == word_tail(liquidity, 0, 16)
}

/// The conversions complete for the state held in the call results.
pub open spec fn decoded_conversions_defined(
    slot0: Seq<u8>,
    liquidity: Seq<u8>,
    tick_spacing: int,
    decimals0: nat,
    decimals1: nat,
) -> bool {
    forall|st: PoolState| #[trigger]
        is_decoded_state(st, slot0, liquidity) ==> concentrated_conversions_defined(
            st,
            tick_spacing,
            decimals0,
            decimals1,
        )
}

/// A decoding result holds the reserves of the state in the call results.
pub open spec fn decoded_reserves_match<A, E>(
    r: Result<(A, VirtualReserves), E>,
    slot0: Seq<u8>,
    liquidity: Seq<u8>,
    tick_spacing: int,
    decimals0: nat,
    decimals1: nat,
) -> bool {
    forall|st: PoolState| #[trigger]
        is_decoded_state(st, slot0, liquidity) ==> {
            let s = spec_concentrated_reserves(st, tick_spacing, decimals0, decimals1);
            &&& r is Ok <==> s is Some
            &&& r matches Ok((a, v)) ==> {
                &&& v.token0@ == s->0[0]
                &&& v.token1@ == s->0[1]
                &&& v.max_swap0@ == s->0[2]
                &&& v.max_swap1@ == s->0[3]
            }
        }
}

/// The reserves depend on a decoded state only through the call results.
pub proof fn lemma_decoded_state_determined(
    a: PoolState,
    b: PoolState,
    slot0: Seq<u8>,
    liquidity: Seq<u8>,
    tick_spacing: int,
    decimals0: nat,
    decimals1: nat,
)
    requires
        is_decoded_state(a, slot0, liquidity),
        is_decoded_state(b, slot0, liquidity),
    ensures
        spec_concentrated_reserves(a, tick_spacing, decimals0, decimals1)
            == spec_concentrated_reserves(b, tick_spacing, decimals0, decimals1),
        concentrated_conversions_defined(a, tick_spacing, decimals0, decimals1)
            == concentrated_conversions_defined(b, tick_spacing, decimals0, decimals1),
{
    assert(concentrated_amounts(a, tick_spacing) =~= concentrated_amounts(b, tick_spacing));
}

/// The pool state held in the results of `slot0()` (at least `slot0_size`
/// bytes) and `liquidity()`.
pub fn decode_pool_state(slot0: &[u8], liquidity: &[u8], slot0_size: usize) -> (r: Result<PoolState, DecodeErrorKind>)
    requires
        slot0_size >= 64,
    ensures
        slot0@.len() < slot0_size ==> r == Err::<PoolState, DecodeErrorKind>(
            DecodeErrorKind::DecodeFailed(0),
        ),
        slot0@.len() >= slot0_size && liquidity@.len() < 32 ==> r == Err::<PoolState, DecodeErrorKind>(
            DecodeErrorKind::DecodeFailed(1),
        ),
        slot0@.len() >= slot0_size && liquidity@.len() >= 32 ==> (r matches Ok(st) && is_decoded_state(
            st,
            slot0@,
            liquidity@,
        )),
{
    if slot0.len() < slot0_size {
        return Err(DecodeErrorKind::DecodeFailed(0));
    }
    if liquidity.len() < 32 {
        return Err(DecodeErrorKind::DecodeFailed(1));
    }
    let sqrt_price_x96 = read_word_u160(slot0, 0);
    let tick = read_word_i24(slot0, 1);
    let liquidity_value = read_word_u128(liquidity, 0, 16);
    Ok(PoolState { sqrt_price_x96, liquidity: liquidity_value, tick })
}

/// The reserves of the state held in the results of `slot0()` and
/// `liquidity()`.
pub fn decoded_reserves(
    slot0: &[u8],
    liquidity: &[u8],
    slot0_size: usize,
    tick_spacing: u16,
    decimals0: u32,
    decimals1: u32,
    fee_multiplier: Decimal,
) -> (r: Result<VirtualReserves, DecodeErrorKind>)
    requires
        tick_spacing > 0,
        slot0_size >= 64,
        slot0@.len() >= slot0_size && liquidity@.len() >= 32 ==> decoded_conversions_defined(
            slot0@,
            liquidity@,
            tick_spacing as int,
            decimals0 as nat,
            decimals1 as nat,
        ),
    ensures
        slot0@.len() < slot0_size ==> r == Err::<VirtualReserves, DecodeErrorKind>(
            DecodeErrorKind::DecodeFailed(0),
        ),
        slot0@.len() >= slot0_size && liquidity@.len() < 32 ==> r == Err::<
            VirtualReserves,
            DecodeErrorKind,
        >(DecodeErrorKind::DecodeFailed(1)),
        r matches Ok(v) ==> v.fee_multiplier == fee_multiplier,
        slot0@.len() >= slot0_size && liquidity@.len() >= 32 ==> forall|st: PoolState| #[trigger]
            is_decoded_state(st, slot0@, liquidity@) ==> {
                let s = spec_concentrated_reserves(
                    st,
                    tick_spacing as int,
                    decimals0 as nat,
                    decimals1 as nat,
                );
                &&& r is Ok <==> s is Some
                &&& r matches Ok(v) ==> {
                    &&& v.token0@ == s->0[0]
                    &&& v.token1@ == s->0[1]
                    &&& v.max_swap0@ == s->0[2]
                    &&& v.max_swap1@ == s->0[3]
                    &&& v.fee_multiplier == fee_multiplier
                    &&& reserves_scaled(
                        v,
                        st,
                        tick_spacing as int,
                        decimals0 as nat,
                        decimals1 as nat,
                    )
                }
            },
{
    let state = match decode_pool_state(slot0, liquidity, slot0_size) {
        Ok(s) => s,
        Err(kind) => {
            return Err(kind);
        },
    };
    proof {
        assert(is_decoded_state(state, slot0@, liquidity@));
    }
    let r = concentrated_reserves(&state, tick_spacing, decimals0, decimals1, fee_multiplier);
    proof {
        assert forall|st: PoolState| #[trigger] is_decoded_state(st, slot0@, liquidity@) implies (
        spec_concentrated_reserves(st, tick_spacing as int, decimals0 as nat, decimals1 as nat)
            == spec_concentrated_reserves(
            state,
            tick_spacing as int,
            decimals0 as nat,
            decimals1 as nat,
        )) by {
            lemma_decoded_state_determined(
                st,
                state,
                slot0@,
                liquidity@,
                tick_spacing as int,
                decimals0 as nat,
                decimals1 as nat,
            );
        }
    }
    r
}

/// Whether the conversions complete for the state held in the results of
/// `slot0()` and `liquidity()`, as an executable check.
pub fn decoded_conversions_check(
    slot0: &[u8],
    liquidity: &[u8],
    slot0_size: usize,
    tick_spacing: u16,
    decimals0: u32,
    decimals1: u32,
) -> (r: bool)
    requires
        slot0_size >= 64,
        tick_spacing > 0,
        slot0@.len() >= slot0_size,
        liquidity@.len() >= 32,
    ensures
        r == decoded_conversions_defined(
            slot0@,
            liquidity@,
            tick_spacing as int,
            decimals0 as nat,
            decimals1 as nat,
        ),
{
    let state = match decode_pool_state(slot0, liquidity, slot0_size) {
        Ok(s) => s,
        Err(_) => {
            return true;
        },
    };
    let r = concentrated_conversions_check(&state, tick_spacing, decimals0, decimals1);
    proof {
        assert forall|st: PoolState| #[trigger] is_decoded_state(st, slot0@, liquidity@) implies (
        concentrated_conversions_defined(st, tick_spacing as int, decimals0 as nat, decimals1 as nat)
            == r) by {
            lemma_decoded_state_determined(
                st,
                state,
                slot0@,
                liquidity@,
                tick_spacing as int,
                decimals0 as nat,
                decimals1 as nat,
            );
        }
    }
    r
}

} // verus!
