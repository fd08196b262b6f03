//! The identity of a pool across protocols and blockchains.
use crate::blockchain::Blockchain;
use crate::{pancakeswap_v3, uniswap_v2, uniswap_v3, uniswap_v4};
use vstd::prelude::*;

verus! {

/// A pool of one of the supported protocols.
#[derive(Debug, Clone, Copy, PartialEq, Eq, Structural, Hash, PartialOrd, Ord)]
pub enum PoolId {
    UniswapV2(uniswap_v2::PoolAddress),
    UniswapV3(uniswap_v3::PoolAddress),
    UniswapV4(uniswap_v4::PoolId),
    PancakeSwap(pancakeswap_v3::PoolAddress),
}

/// The blockchain a pool lives on.
pub open spec fn spec_pool_blockchain(id: PoolId) -> Blockchain {
    match id {
        PoolId::UniswapV2(a) => a.1,
        PoolId::UniswapV3(a) => a.1,
        PoolId::UniswapV4(a) => a.1,
        PoolId::PancakeSwap(a) => a.1,
    }
}

impl PoolId {
    /// The blockchain the pool lives on.
    pub fn blockchain(&self) -> (r: Blockchain)
        ensures
            r == spec_pool_blockchain(*self),
    {
        match self {
            PoolId::UniswapV2(uniswap_v2::PoolAddress(_, blockchain)) => *blockchain,
            PoolId::UniswapV3(uniswap_v3::PoolAddress(_, blockchain)) => *blockchain,
            PoolId::UniswapV4(uniswap_v4::PoolId(_, blockchain)) => *blockchain,
            PoolId::PancakeSwap(pancakeswap_v3::PoolAddress(_, blockchain)) => *blockchain,
        }
    }
}

} // verus!
