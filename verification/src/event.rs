//! Pool events seen on chain, and the reserve calls they call for.
use crate::blockchain::{BlockNumber, BlockchainNetwork};
use crate::dex_info::DexInfo;
use crate::pool_reserves_calls::ReservesCallData;
use crate::primitives::{Address, TokenAddress, B256};
use crate::{pancakeswap_v3, uniswap_v2, uniswap_v3, uniswap_v4};
use std::marker::PhantomData;
use vstd::prelude::*;

verus! {

/// The pool an event was emitted for.
#[derive(Debug, Clone, Copy, PartialEq, Eq, Structural, Hash)]
pub enum EventId {
    UniswapV2(Address),
    UniswapV3(Address),
    UniswapV4(B256),
    PancakeSwap(Address),
}

/// Where an event was seen.
pub struct EventInfo<B: BlockchainNetwork> {
    pub block_number: BlockNumber<B>,
}

impl<B: BlockchainNetwork> EventInfo<B> {
    /// The event seen at a block.
    pub fn new(block_number: BlockNumber<B>) -> (r: Self)
        ensures
            r.block_number == block_number,
    {
        Self { block_number }
    }
}

/// An event of a followed pool.
pub struct Event<B: BlockchainNetwork> {
    pub id: EventId,
    pub info: EventInfo<B>,
}

impl<B: BlockchainNetwork> Event<B> {
    /// The event of pool `id` seen at a block.
    pub fn new(id: EventId, block_number: BlockNumber<B>) -> (r: Self)
        ensures
            r.id == id,
            r.info.block_number == block_number,
    {
        Self { id, info: EventInfo::<B>::new(block_number) }
    }
}

/// Why the reserve calls of an event's pool could not be built.
#[derive(Debug, Clone, Copy, PartialEq, Eq, Structural)]
pub enum CallDataError {
    /// The pool is not known.
    PoolInfoNotFound(EventId),
    /// A token of the pool is not known.
    TokenNotFound(TokenAddress),
}

/// The decimals of a pool's two tokens, or the first unknown token.
pub open spec fn spec_token_decimals(
    dex: DexInfo,
    token0: TokenAddress,
    token1: TokenAddress,
) -> Result<(u32, u32), CallDataError> {
    if !dex.tokens@.contains_key(token0) {
        Err(CallDataError::TokenNotFound(token0))
    } else if !dex.tokens@.contains_key(token1) {
        Err(CallDataError::TokenNotFound(token1))
    } else {
        Ok((dex.tokens@[token0].decimals, dex.tokens@[token1].decimals))
    }
}

/// The reserve calls for an event's pool on blockchain `B`: the pool and
/// its two tokens must be known.
pub open spec fn spec_into_call_data<B: BlockchainNetwork>(id: EventId, dex: DexInfo) -> Result<
    ReservesCallData<B>,
    CallDataError,
> {
    match id {
        EventId::UniswapV2(address) => {
            let key = uniswap_v2::PoolAddress(address, B::spec_blockchain());
            if !dex.uniswap_v2_pools@.contains_key(key) {
                Err(CallDataError::PoolInfoNotFound(id))
            } else {
                let info = dex.uniswap_v2_pools@[key];
                match spec_token_decimals(dex, info.token0, info.token1) {
                    Err(e) => Err(e),
                    Ok((d0, d1)) => Ok(
                        ReservesCallData::UniswapV2(
                            uniswap_v2::ReservesCallData {
                                pool_address: address,
                                token0_decimals: d0,
                                token1_decimals: d1,
                                blockchain_marker: PhantomData,
                            },
                        ),
                    ),
                }
            }
        },
        EventId::UniswapV3(address) => {
            let key = uniswap_v3::PoolAddress(address, B::spec_blockchain());
            if !dex.uniswap_v3_pools@.contains_key(key) {
                Err(CallDataError::PoolInfoNotFound(id))
            } else {
                let info = dex.uniswap_v3_pools@[key];
                match spec_token_decimals(dex, info.token0, info.token1) {
                    Err(e) => Err(e),
                    Ok((d0, d1)) => Ok(
                        ReservesCallData::UniswapV3(
                            uniswap_v3::ReservesCallData {
                                pool_address: address,
                                token0_decimals: d0,
                                token1_decimals: d1,
                                fee: info.fee,
                                blockchain_marker: PhantomData,
                            },
                        ),
                    ),
                }
            }
        },
        EventId::UniswapV4(pool_id) => {
            let key = uniswap_v4::PoolId(pool_id, B::spec_blockchain());
            if !dex.uniswap_v4_pools@.contains_key(key) {
                Err(CallDataError::PoolInfoNotFound(id))
            } else {
                let info = dex.uniswap_v4_pools@[key];
                match spec_token_decimals(dex, info.token0, info.token1) {
                    Err(e) => Err(e),
                    Ok((d0, d1)) => Ok(
                        ReservesCallData::UniswapV4(
                            uniswap_v4::ReservesCallData {
                                pool_id,
                                token0_decimals: d0,
                                token1_decimals: d1,
                                fee: info.fee,
                                tick_spacing: info.tick_spacing,
                                blockchain_marker: PhantomData,
                            },
                        ),
                    ),
                }
            }
        },
        EventId::PancakeSwap(address) => {
            let key = pancakeswap_v3::PoolAddress(address, B::spec_blockchain());
            if !dex.pancakeswap_pools@.contains_key(key) {
                Err(CallDataError::PoolInfoNotFound(id))
            } else {
                let info = dex.pancakeswap_pools@[key];
                match spec_token_decimals(dex, info.token0, info.token1) {
                    Err(e) => Err(e),
                    Ok((d0, d1)) => Ok(
                        ReservesCallData::PancakeSwap(
                            pancakeswap_v3::ReservesCallData {
                                pool_address: address,
                                token0_decimals: d0,
                                token1_decimals: d1,
                                fee: info.fee,
                                blockchain_marker: PhantomData,
                            },
                        ),
                    ),
                }
            }
        },
    }
}

/// Whether `c` reads the reserves of the pool of event `id` as `dex` knows
/// it: the same pool, its fee (and tick spacing), and as token-0 and
/// token-1 decimals those of the tokens `dex` records as the pool's token 0
/// and token 1, both of them known.
pub open spec fn call_data_of_pool<B: BlockchainNetwork>(
    id: EventId,
    dex: DexInfo,
    c: ReservesCallData<B>,
) -> bool {
    match c {
        ReservesCallData::UniswapV2(d) => {
            let key = uniswap_v2::PoolAddress(d.pool_address, B::spec_blockchain());
            let info = dex.uniswap_v2_pools@[key];
            &&& id == EventId::UniswapV2(d.pool_address)
            &&& dex.uniswap_v2_pools@.contains_key(key)
            &&& dex.tokens@.contains_key(info.token0) && dex.tokens@.contains_key(info.token1)
            &&& d.token0_decimals == dex.tokens@[info.token0].decimals
            &&& d.token1_decimals == dex.tokens@[info.token1].decimals
        },
        ReservesCallData::UniswapV3(d) => {
            let key = uniswap_v3::PoolAddress(d.pool_address, B::spec_blockchain());
            let info = dex.uniswap_v3_pools@[key];
            &&& id == EventId::UniswapV3(d.pool_address)
            &&& dex.uniswap_v3_pools@.contains_key(key)
            &&& dex.tokens@.contains_key(info.token0) && dex.tokens@.contains_key(info.token1)
            &&& d.token0_decimals == dex.tokens@[info.token0].decimals
            &&& d.token1_decimals == dex.tokens@[info.token1].decimals
            &&& d.fee == info.fee
        },
        ReservesCallData::UniswapV4(d) => {
            let key = uniswap_v4::PoolId(d.pool_id, B::spec_blockchain());
            let info = dex.uniswap_v4_pools@[key];
            &&& id == EventId::UniswapV4(d.pool_id)
            &&& dex.uniswap_v4_pools@.contains_key(key)
            &&& dex.tokens@.contains_key(info.token0) && dex.tokens@.contains_key(info.token1)
            &&& d.token0_decimals == dex.tokens@[info.token0].decimals
            &&& d.token1_decimals == dex.tokens@[info.token1].decimals
            &&& d.fee == info.fee
            &&& d.tick_spacing == info.tick_spacing
        },
        ReservesCallData::PancakeSwap(d) => {
            let key = pancakeswap_v3::PoolAddress(d.pool_address, B::spec_blockchain());
            let info = dex.pancakeswap_pools@[key];
            &&& id == EventId::PancakeSwap(d.pool_address)
            &&& dex.pancakeswap_pools@.contains_key(key)
            &&& dex.tokens@.contains_key(info.token0) && dex.tokens@.contains_key(info.token1)
            &&& d.token0_decimals == dex.tokens@[info.token0].decimals
            &&& d.token1_decimals == dex.tokens@[info.token1].decimals
            &&& d.fee == info.fee
        },
    }
}

/// The reserve calls built for an event read its own pool, with the
/// decimals of the pool's token 0 and token 1 in that order.
pub proof fn lemma_call_data_of_pool<B: BlockchainNetwork>(id: EventId, dex: DexInfo)
    ensures
        spec_into_call_data::<B>(id, dex) matches Ok(c) ==> call_data_of_pool::<B>(id, dex, c),
{
}

fn token_pair(
    dex_info: &DexInfo,
    token0: TokenAddress,
    token1: TokenAddress,
) -> (r: Result<(crate::primitives::TokenInfo, crate::primitives::TokenInfo), CallDataError>)
    requires
        dex_info.wf(),
    ensures
        match spec_token_decimals(*dex_info, token0, token1) {
            Ok((d0, d1)) => r matches Ok((t0, t1)) && t0.decimals == d0 && t1.decimals == d1,
            Err(e) => r == Err::<(crate::primitives::TokenInfo, crate::primitives::TokenInfo), CallDataError>(e),
        },
{
    let t0 = match dex_info.tokens.get(&token0) {
        Some(t) => t,
        None => {
            return Err(CallDataError::TokenNotFound(token0));
        },
    };
    let t1 = match dex_info.tokens.get(&token1) {
        Some(t) => t,
        None => {
            return Err(CallDataError::TokenNotFound(token1));
        },
    };
    Ok((t0, t1))
}

impl EventId {
    /// The reserve calls for the event's pool on blockchain `B`.
    pub fn into_call_data<B: BlockchainNetwork>(self, dex_info: &DexInfo) -> (r: Result<
        ReservesCallData<B>,
        CallDataError,
    >)
        requires
            dex_info.wf(),
        ensures
            r == spec_into_call_data::<B>(self, *dex_info),
            r matches Ok(c) ==> call_data_of_pool::<B>(self, *dex_info, c),
    {
        match self {
            EventId::UniswapV2(address) => {
                let key = uniswap_v2::PoolAddress(address, B::blockchain());
                let pool_info = match dex_info.uniswap_v2_pools.get(&key) {
                    Some(p) => p,
                    None => {
                        return Err(CallDataError::PoolInfoNotFound(self));
                    },
                };
                let (token0, token1) = token_pair(dex_info, pool_info.token0, pool_info.token1)?;
                Ok(
                    ReservesCallData::UniswapV2(
                        uniswap_v2::ReservesCallData::new(address, &token0, &token1),
                    ),
                )
            },
            EventId::UniswapV3(address) => {
                let key = uniswap_v3::PoolAddress(address, B::blockchain());
                let pool_info = match dex_info.uniswap_v3_pools.get(&key) {
                    Some(p) => p,
                    None => {
                        return Err(CallDataError::PoolInfoNotFound(self));
                    },
                };
                let (token0, token1) = token_pair(dex_info, pool_info.token0, pool_info.token1)?;
                Ok(
                    ReservesCallData::UniswapV3(
                        uniswap_v3::ReservesCallData::new(address, &token0, &token1, pool_info.fee),
                    ),
                )
            },
            EventId::UniswapV4(id) => {
                let key = uniswap_v4::PoolId(id, B::blockchain());
                let pool_info = match dex_info.uniswap_v4_pools.get(&key) {
                    Some(p) => p,
                    None => {
                        return Err(CallDataError::PoolInfoNotFound(self));
                    },
                };
                let (token0, token1) = token_pair(dex_info, pool_info.token0, pool_info.token1)?;
                Ok(
                    ReservesCallData::UniswapV4(
                        uniswap_v4::ReservesCallData::new(
                            id,
                            &token0,
                            &token1,
                            pool_info.fee,
                            pool_info.tick_spacing,
                        ),
                    ),
                )
            },
            EventId::PancakeSwap(address) => {
                let key = pancakeswap_v3::PoolAddress(address, B::blockchain());
                let pool_info = match dex_info.pancakeswap_pools.get(&key) {
                    Some(p) => p,
                    None => {
                        return Err(CallDataError::PoolInfoNotFound(self));
                    },
                };
                let (token0, token1) = token_pair(dex_info, pool_info.token0, pool_info.token1)?;
                Ok(
                    ReservesCallData::PancakeSwap(
                        pancakeswap_v3::ReservesCallData::new(
                            address,
                            &token0,
                            &token1,
                            pool_info.fee,
                        ),
                    ),
                )
            },
        }
    }
}

} // verus!
