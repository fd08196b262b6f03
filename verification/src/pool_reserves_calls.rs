//! The reserve calls of a pool of any protocol.
use crate::blockchain::BlockchainNetwork;
use crate::pool_id::PoolId;
use crate::primitives::Address;
use crate::reserves::{call_entries, Call, VirtualReserves};
use crate::{pancakeswap_v3, uniswap_v2, uniswap_v3, uniswap_v4};
use vstd::prelude::*;

verus! {

/// The calls that read the reserves of one pool.
pub enum ReservesCallData<B: BlockchainNetwork> {
    UniswapV2(uniswap_v2::ReservesCallData<B>),
    UniswapV3(uniswap_v3::ReservesCallData<B>),
    UniswapV4(uniswap_v4::ReservesCallData<B>),
    PancakeSwap(pancakeswap_v3::ReservesCallData<B>),
}

/// Why a pool's call results could not be decoded, by protocol.
#[derive(Debug, Clone, Copy, PartialEq)]
pub enum ReservesDecodeError {
    UniswapV2(uniswap_v2::ReservesCallDataDecodeError),
    UniswapV3(uniswap_v3::ReservesCallDataDecodeError),
    UniswapV4(uniswap_v4::ReservesCallDataDecodeError),
    PancakeSwap(pancakeswap_v3::ReservesCallDataDecodeError),
}

/// A Uniswap V2 result as a result of any protocol.
pub open spec fn from_v2(
    inner: Result<(uniswap_v2::PoolAddress, VirtualReserves), uniswap_v2::ReservesCallDataDecodeError>,
) -> Result<(PoolId, VirtualReserves), ReservesDecodeError> {
    match inner {
        Ok((a, v)) => Ok((PoolId::UniswapV2(a), v)),
        Err(e) => Err(ReservesDecodeError::UniswapV2(e)),
    }
}

/// A Uniswap V3 result as a result of any protocol.
pub open spec fn from_v3(
    inner: Result<(uniswap_v3::PoolAddress, VirtualReserves), uniswap_v3::ReservesCallDataDecodeError>,
) -> Result<(PoolId, VirtualReserves), ReservesDecodeError> {
    match inner {
        Ok((a, v)) => Ok((PoolId::UniswapV3(a), v)),
        Err(e) => Err(ReservesDecodeError::UniswapV3(e)),
    }
}

/// A Uniswap V4 result as a result of any protocol.
pub open spec fn from_v4(
    inner: Result<(uniswap_v4::PoolId, VirtualReserves), uniswap_v4::ReservesCallDataDecodeError>,
) -> Result<(PoolId, VirtualReserves), ReservesDecodeError> {
    match inner {
        Ok((a, v)) => Ok((PoolId::UniswapV4(a), v)),
        Err(e) => Err(ReservesDecodeError::UniswapV4(e)),
    }
}

/// A PancakeSwap V3 result as a result of any protocol.
pub open spec fn from_pancake(
    inner: Result<
        (pancakeswap_v3::PoolAddress, VirtualReserves),
        pancakeswap_v3::ReservesCallDataDecodeError,
    >,
) -> Result<(PoolId, VirtualReserves), ReservesDecodeError> {
    match inner {
        Ok((a, v)) => Ok((PoolId::PancakeSwap(a), v)),
        Err(e) => Err(ReservesDecodeError::PancakeSwap(e)),
    }
}

impl<B: BlockchainNetwork> ReservesCallData<B> {
    /// The number of calls.
    pub fn size(&self) -> (r: usize)
        ensures
            r == match self {
                ReservesCallData::UniswapV2(_) => 1usize,
                _ => 2usize,
            },
    {
        match self {
            ReservesCallData::UniswapV2(data) => data.size(),
            ReservesCallData::UniswapV3(data) => data.size(),
            ReservesCallData::UniswapV4(data) => data.size(),
            ReservesCallData::PancakeSwap(data) => data.size(),
        }
    }

    /// The target and call data of each call of `to_calls`.
    pub open spec fn calls_spec(&self) -> Seq<(Address, Seq<u8>)> {
        match self {
            ReservesCallData::UniswapV2(d) => d.calls_spec(),
            ReservesCallData::UniswapV3(d) => d.calls_spec(),
            ReservesCallData::UniswapV4(d) => d.calls_spec(),
            ReservesCallData::PancakeSwap(d) => d.calls_spec(),
        }
    }

    /// The calls of the pool's protocol.
    pub fn to_calls(&self) -> (r: Vec<Call>)
        ensures
            call_entries(r@) == self.calls_spec(),
            self.calls_spec().len() == r@.len(),
            r@.len() == match self {
                ReservesCallData::UniswapV2(_) => 1int,
                _ => 2int,
            },
    {
        match self {
            ReservesCallData::UniswapV2(data) => data.to_calls(),
            ReservesCallData::UniswapV3(data) => data.to_calls(),
            ReservesCallData::UniswapV4(data) => data.to_calls(),
            ReservesCallData::PancakeSwap(data) => data.to_calls(),
        }
    }

    /// The inputs `decode_output` accepts.
    pub open spec fn decode_defined(&self, response: Seq<Vec<u8>>) -> bool {
        match self {
            ReservesCallData::UniswapV2(d) => d.decode_defined(response),
            ReservesCallData::UniswapV3(d) => d.decode_defined(response),
            ReservesCallData::UniswapV4(d) => d.decode_defined(response),
            ReservesCallData::PancakeSwap(d) => d.decode_defined(response),
        }
    }

    /// Whether `decode_output` accepts `response`, as an executable check.
    pub fn decode_defined_check(&self, response: &[Vec<u8>]) -> (r: bool)
        ensures
            r == self.decode_defined(response@),
    {
        match self {
            ReservesCallData::UniswapV2(d) => d.decode_defined_check(response),
            ReservesCallData::UniswapV3(d) => d.decode_defined_check(response),
            ReservesCallData::UniswapV4(d) => d.decode_defined_check(response),
            ReservesCallData::PancakeSwap(d) => d.decode_defined_check(response),
        }
    }

    /// The pool and its reserves read from the results of `to_calls`, as
    /// the pool's protocol decodes them.
    pub fn decode_output(&self, response: &[Vec<u8>]) -> (r: Result<
        (PoolId, VirtualReserves),
        ReservesDecodeError,
    >)
        requires
            self.decode_defined(response@),
        ensures
            self matches ReservesCallData::UniswapV2(d) ==> exists|inner| #[trigger]
                d.decode_relation(response@, inner) && r == from_v2(inner),
            self matches ReservesCallData::UniswapV3(d) ==> exists|inner| #[trigger]
                d.decode_relation(response@, inner) && r == from_v3(inner),
            self matches ReservesCallData::UniswapV4(d) ==> exists|inner| #[trigger]
                d.decode_relation(response@, inner) && r == from_v4(inner),
            self matches ReservesCallData::PancakeSwap(d) ==> exists|inner| #[trigger]
                d.decode_relation(response@, inner) && r == from_pancake(inner),
    {
        match self {
            ReservesCallData::UniswapV2(data) => {
                let inner = data.decode_output(response);
                let r = match inner {
                    Ok((address, reserves)) => Ok((PoolId::UniswapV2(address), reserves)),
                    Err(e) => Err(ReservesDecodeError::UniswapV2(e)),
                };
                assert(data.decode_relation(response@, inner));
                r
            },
            ReservesCallData::UniswapV3(data) => {
                let inner = data.decode_output(response);
                let r = match inner {
                    Ok((address, reserves)) => Ok((PoolId::UniswapV3(address), reserves)),
                    Err(e) => Err(ReservesDecodeError::UniswapV3(e)),
                };
                assert(data.decode_relation(response@, inner));
                r
            },
            ReservesCallData::UniswapV4(data) => {
                let inner = data.decode_output(response);
                let r = match inner {
                    Ok((id, reserves)) => Ok((PoolId::UniswapV4(id), reserves)),
                    Err(e) => Err(ReservesDecodeError::UniswapV4(e)),
                };
                assert(data.decode_relation(response@, inner));
                r
            },
            ReservesCallData::PancakeSwap(data) => {
                let inner = data.decode_output(response);
                let r = match inner {
                    Ok((address, reserves)) => Ok((PoolId::PancakeSwap(address), reserves)),
                    Err(e) => Err(ReservesDecodeError::PancakeSwap(e)),
                };
                assert(data.decode_relation(response@, inner));
                r
            },
        }
    }
}

} // verus!
