//! What the library knows of the tokens and pools it follows.
use crate::keyed_list::KeyedList;
use crate::pool_id::PoolId;
use crate::primitives::{TokenAddress, TokenInfo};
use crate::{pancakeswap_v3, uniswap_v2, uniswap_v3, uniswap_v4};
use vstd::prelude::*;

verus! {

/// The tokens and the pools of each protocol, by address.
pub struct DexInfo {
    pub tokens: KeyedList<TokenAddress, TokenInfo>,
    pub uniswap_v2_pools: KeyedList<uniswap_v2::PoolAddress, uniswap_v2::PoolInfo>,
    pub uniswap_v3_pools: KeyedList<uniswap_v3::PoolAddress, uniswap_v3::PoolInfo>,
    pub uniswap_v4_pools: KeyedList<uniswap_v4::PoolId, uniswap_v4::PoolInfo>,
    pub pancakeswap_pools: KeyedList<pancakeswap_v3::PoolAddress, pancakeswap_v3::PoolInfo>,
}

/// The two tokens of a pool, if the pool is known.
pub open spec fn spec_pool_tokens(dex: DexInfo, pool_id: PoolId) -> Option<(TokenAddress, TokenAddress)> {
    match pool_id {
        PoolId::UniswapV2(a) => if dex.uniswap_v2_pools@.contains_key(a) {
            Some((dex.uniswap_v2_pools@[a].token0, dex.uniswap_v2_pools@[a].token1))
        } else {
            None
        },
        PoolId::UniswapV3(a) => if dex.uniswap_v3_pools@.contains_key(a) {
            Some((dex.uniswap_v3_pools@[a].token0, dex.uniswap_v3_pools@[a].token1))
        } else {
            None
        },
        PoolId::UniswapV4(a) => if dex.uniswap_v4_pools@.contains_key(a) {
            Some((dex.uniswap_v4_pools@[a].token0, dex.uniswap_v4_pools@[a].token1))
        } else {
            None
        },
        PoolId::PancakeSwap(a) => if dex.pancakeswap_pools@.contains_key(a) {
            Some((dex.pancakeswap_pools@[a].token0, dex.pancakeswap_pools@[a].token1))
        } else {
            None
        },
    }
}

impl DexInfo {
    /// Well-formedness of every map.
    pub open spec fn wf(&self) -> bool {
        &&& self.tokens.wf()
        &&& self.uniswap_v2_pools.wf()
        &&& self.uniswap_v3_pools.wf()
        &&& self.uniswap_v4_pools.wf()
        &&& self.pancakeswap_pools.wf()
    }

    /// Nothing known yet.
    pub fn new() -> (r: DexInfo)
        ensures
            r.wf(),
            r.tokens@ == Map::<TokenAddress, TokenInfo>::empty(),
            r.uniswap_v2_pools@ == Map::<uniswap_v2::PoolAddress, uniswap_v2::PoolInfo>::empty(),
            r.uniswap_v3_pools@ == Map::<uniswap_v3::PoolAddress, uniswap_v3::PoolInfo>::empty(),
            r.uniswap_v4_pools@ == Map::<uniswap_v4::PoolId, uniswap_v4::PoolInfo>::empty(),
            r.pancakeswap_pools@ == Map::<
                pancakeswap_v3::PoolAddress,
                pancakeswap_v3::PoolInfo,
            >::empty(),
    {
        DexInfo {
            tokens: KeyedList::new(),
            uniswap_v2_pools: KeyedList::new(),
            uniswap_v3_pools: KeyedList::new(),
            uniswap_v4_pools: KeyedList::new(),
            pancakeswap_pools: KeyedList::new(),
        }
    }

    /// The two tokens of a pool, if the pool is known.
    pub fn lookup_pool_tokens(&self, pool_id: PoolId) -> (r: Option<(TokenAddress, TokenAddress)>)
        requires
            self.wf(),
        ensures
            r == spec_pool_tokens(*self, pool_id),
    {
        match pool_id {
            PoolId::UniswapV2(pool_address) => match self.uniswap_v2_pools.get(&pool_address) {
                Some(pool) => Some((pool.token0, pool.token1)),
                None => None,
            },
            PoolId::UniswapV3(pool_address) => match self.uniswap_v3_pools.get(&pool_address) {
                Some(pool) => Some((pool.token0, pool.token1)),
                None => None,
            },
            PoolId::UniswapV4(pool_id) => match self.uniswap_v4_pools.get(&pool_id) {
                Some(pool) => Some((pool.token0, pool.token1)),
                None => None,
            },
            PoolId::PancakeSwap(pool_address) => match self.pancakeswap_pools.get(&pool_address) {
                Some(pool) => Some((pool.token0, pool.token1)),
                None => None,
            },
        }
    }
}

} // verus!
