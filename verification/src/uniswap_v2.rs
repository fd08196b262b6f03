//! Uniswap V2 pairs.
use crate::blockchain::Blockchain;
use crate::keyed_list::KeyedList;
use crate::subgraph::{add_pool_tokens, with_pool_tokens, TokenData};
use crate::abi::{encode_call, read_word_u128, spec_selector, word_tail};
use crate::blockchain::BlockchainNetwork;
use crate::decimal::Decimal;
use crate::fixed_point::{conversion_defined, decimal_conversion_defined, spec_converted_amount, try_into_decimal};
use crate::primitives::{Address, TokenAddress, TokenInfo};
use crate::reserves::{
    converted_from,
    call_entries, Call, DecodeErrorKind, Reserves, VirtualReserves,
};
use crate::uint::U256;
use std::marker::PhantomData;
use vstd::string::StringSliceAdditionalSpecFns;
use vstd::prelude::*;

verus! {

/// A Uniswap V2 pair's address on a blockchain.
#[derive(Debug, Clone, Copy, PartialEq, Eq, Structural, PartialOrd, Ord, Hash)]
pub struct PoolAddress(pub Address, pub Blockchain);

impl PoolAddress {
    /// The blockchain the pair lives on.
    pub fn blockchain(&self) -> (r: Blockchain)
        ensures
            r == self.1,
    {
        self.1
    }
}

/// The two tokens of a pair.
#[derive(Debug, Clone, Copy, PartialEq, Eq, Structural)]
pub struct PoolInfo {
    pub token0: TokenAddress,
    pub token1: TokenAddress,
}

/// A pair and its tokens.
#[derive(Debug, Clone, Copy, PartialEq, Eq, Structural)]
pub struct Pool {
    pub address: PoolAddress,
    pub info: PoolInfo,
}

/// The fee multiplier of every pair, 0.997: the fee is fixed at 0.3%.
pub open spec fn pair_fee_multiplier() -> (int, int) {
    (997int, 3int)
}

/// The call that reads a pair's reserves, and the decimals of its tokens.
pub struct ReservesCallData<B: BlockchainNetwork> {
    pub pool_address: Address,
    pub token0_decimals: u32,
    pub token1_decimals: u32,
    pub blockchain_marker: PhantomData<B>,
}

/// Why a pair's call result could not be decoded.
#[derive(Debug, Clone, Copy, PartialEq)]
pub struct ReservesCallDataDecodeError {
    pub kind: DecodeErrorKind,
    pub pool_address: PoolAddress,
}

/// The two reserves in the result of `getReserves()`.
pub open spec fn reserve_words(data: Seq<u8>) -> (int, int) {
    (word_tail(data, 0, 14), word_tail(data, 1, 14))
}

impl<B: BlockchainNetwork> ReservesCallData<B> {
    /// The call for the pair at `pool_address` with the given tokens.
    pub fn new(pool_address: Address, token0: &TokenInfo, token1: &TokenInfo) -> (r: Self)
        ensures
            r.pool_address == pool_address,
            r.token0_decimals == token0.decimals,
            r.token1_decimals == token1.decimals,
    {
        ReservesCallData {
            pool_address,
            token0_decimals: token0.decimals,
            token1_decimals: token1.decimals,
            blockchain_marker: PhantomData,
        }
    }

    /// The number of calls.
    pub fn size(&self) -> (r: usize)
        ensures
            r == 1,
    {
        1
    }

    /// `getReserves()` on the pair.
    /// The target and call data of each call of `to_calls`.
    pub open spec fn calls_spec(&self) -> Seq<(Address, Seq<u8>)> {
        seq![(self.pool_address, spec_selector("getReserves()".spec_bytes()))]
    }

    pub fn to_calls(&self) -> (r: Vec<Call>)
        ensures
            call_entries(r@) == self.calls_spec(),
            r@.len() == 1,
            r@[0].target == self.pool_address,
            r@[0].call_data@ == spec_selector("getReserves()".spec_bytes()),
    {
        let mut calls = Vec::new();
        calls.push(Call { target: self.pool_address, call_data: encode_call("getReserves()") });
        calls
    }

    /// The pair address and reserves read from the result of `to_calls`.
    /// What `decode_output` returns on `response`.
    pub open spec fn decode_relation(
        &self,
        response: Seq<Vec<u8>>,
        r: Result<(PoolAddress, VirtualReserves), ReservesCallDataDecodeError>,
    ) -> bool {
        &&& (r matches Err(e) ==> e.pool_address == PoolAddress(self.pool_address, B::spec_blockchain()))
        &&& (response.len() == 0 ==> (r matches Err(e) && e.kind == DecodeErrorKind::MissingData(0)))
        &&& (response.len() > 1 ==> (r matches Err(e) && e.kind == DecodeErrorKind::InvalidResponseSize(
            response.len() as usize,
        )))
        &&& (response.len() == 1 && response[0]@.len() < 96 ==> (r matches Err(e) && e.kind
            == DecodeErrorKind::DecodeFailed(0)))
        &&& (response.len() == 1 && response[0]@.len() >= 96 ==> {
            let (r0, r1) = reserve_words(response[0]@);
            let c0 = spec_converted_amount(r0, self.token0_decimals as nat);
            let c1 = spec_converted_amount(r1, self.token1_decimals as nat);
            &&& r is Ok <==> c0 is Some && c1 is Some
            &&& r matches Ok((a, v)) ==> {
                &&& a == PoolAddress(self.pool_address, B::spec_blockchain())
                &&& v.token0@ == c0->0
                &&& v.token1@ == c1->0
                &&& v.max_swap0@ == c0->0
                &&& v.max_swap1@ == c1->0
                &&& v.fee_multiplier@ == pair_fee_multiplier()
            }
        })
    }

    /// The inputs `decode_output` accepts.
    pub open spec fn decode_defined(&self, response: Seq<Vec<u8>>) -> bool {
        &&& (response.len() == 1 && response[0]@.len() >= 96 ==> {
            let (r0, r1) = reserve_words(response[0]@);
            &&& decimal_conversion_defined(r0, self.token0_decimals as nat)
            &&& spec_converted_amount(r0, self.token0_decimals as nat) is Some
                ==> decimal_conversion_defined(r1, self.token1_decimals as nat)
        })
    }

    /// Whether `decode_output` accepts `response`, as an executable check.
    pub fn decode_defined_check(&self, response: &[Vec<u8>]) -> (r: bool)
        ensures
            r == self.decode_defined(response@),
    {
        if response.len() != 1 {
            return true;
        }
        let data = response[0].as_slice();
        if data.len() < 96 {
            return true;
        }
        let reserve0 = U256::from_u128(read_word_u128(data, 0, 14));
        let reserve1 = U256::from_u128(read_word_u128(data, 1, 14));
        if !conversion_defined(&reserve0, self.token0_decimals) {
            return false;
        }
        match try_into_decimal(reserve0, self.token0_decimals) {
            Ok(_) => conversion_defined(&reserve1, self.token1_decimals),
            Err(_) => true,
        }
    }

    pub fn decode_output(&self, response: &[Vec<u8>]) -> (r: Result<
        (PoolAddress, VirtualReserves),
        ReservesCallDataDecodeError,
    >)
        requires
            self.decode_defined(response@),
        ensures
            self.decode_relation(response@, r),
            r matches Ok((a, v)) ==> {
                let (r0, r1) = reserve_words(response@[0]@);
                &&& response@.len() == 1
                &&& converted_from(v.token0@, r0, self.token0_decimals as nat)
                &&& converted_from(v.token1@, r1, self.token1_decimals as nat)
                &&& converted_from(v.max_swap0@, r0, self.token0_decimals as nat)
                &&& converted_from(v.max_swap1@, r1, self.token1_decimals as nat)
            },
    {
        let pool_address = PoolAddress(self.pool_address, B::blockchain());
        if response.len() == 0 {
            return Err(ReservesCallDataDecodeError { kind: DecodeErrorKind::MissingData(0), pool_address });
        }
        if response.len() > 1 {
            return Err(
                ReservesCallDataDecodeError {
                    kind: DecodeErrorKind::InvalidResponseSize(response.len()),
                    pool_address,
                },
            );
        }
        let data = response[0].as_slice();
        if data.len() < 96 {
            return Err(ReservesCallDataDecodeError { kind: DecodeErrorKind::DecodeFailed(0), pool_address });
        }
        let reserve0 = U256::from_u128(read_word_u128(data, 0, 14));
        let reserve1 = U256::from_u128(read_word_u128(data, 1, 14));
        let token0 = match try_into_decimal(reserve0, self.token0_decimals) {
            Ok(d) => d,
            Err(e) => {
                return Err(ReservesCallDataDecodeError { kind: DecodeErrorKind::Conversion(e), pool_address });
            },
        };
        let token1 = match try_into_decimal(reserve1, self.token1_decimals) {
            Ok(d) => d,
            Err(e) => {
                return Err(ReservesCallDataDecodeError { kind: DecodeErrorKind::Conversion(e), pool_address });
            },
        };
        let reserves = Reserves {
            token0,
            token1,
            fee_multiplier: Decimal::from_i128_with_scale(997, 3),
        };
        Ok((pool_address, reserves.as_virtual_reserves()))
    }
}

/// A pair as a subgraph lists it.
#[derive(Debug, Clone, Copy, PartialEq, Eq, Structural)]
pub struct PoolData {
    pub address: Address,
    pub token0: TokenData,
    pub token1: TokenData,
}

/// The pairs of a subgraph page on a blockchain, in order, and the token
/// map with their tokens added, each token kept as first listed.
pub fn map_pools(
    blockchain: Blockchain,
    tokens_map: KeyedList<TokenAddress, TokenInfo>,
    data: &[PoolData],
) -> (r: (Vec<Pool>, KeyedList<TokenAddress, TokenInfo>))
    requires
        tokens_map.wf(),
    ensures
        r.1.wf(),
        r.1@ == with_pool_tokens(
            tokens_map@,
            data@.map_values(|p: PoolData| (p.token0, p.token1)),
            blockchain,
        ),
        r.0@.len() == data@.len(),
        forall|i: int|
            0 <= i < data@.len() ==> #[trigger] r.0@[i] == (Pool {
                address: PoolAddress(data@[i].address, blockchain),
                info: PoolInfo {
                    token0: TokenAddress(data@[i].token0.address, blockchain),
                    token1: TokenAddress(data@[i].token1.address, blockchain),
                },
            }),
{
    let mut pools: Vec<Pool> = Vec::new();
    let mut tokens = tokens_map;
    let ghost pairs = data@.map_values(|p: PoolData| (p.token0, p.token1));
    let mut i: usize = 0;
    while i < data.len()
        invariant
            i <= data@.len(),
            pairs == data@.map_values(|p: PoolData| (p.token0, p.token1)),
            tokens.wf(),
            tokens@ == with_pool_tokens(tokens_map@, pairs.subrange(0, i as int), blockchain),
            pools@.len() == i,
            forall|j: int|
                0 <= j < i ==> #[trigger] pools@[j] == (Pool {
                    address: PoolAddress(data@[j].address, blockchain),
                    info: PoolInfo {
                        token0: TokenAddress(data@[j].token0.address, blockchain),
                        token1: TokenAddress(data@[j].token1.address, blockchain),
                    },
                }),
        decreases data@.len() - i,
    {
        let pool_data = data[i];
        pools.push(Pool {
            address: PoolAddress(pool_data.address, blockchain),
            info: PoolInfo {
                token0: TokenAddress(pool_data.token0.address, blockchain),
                token1: TokenAddress(pool_data.token1.address, blockchain),
            },
        });
        add_pool_tokens(&mut tokens, pool_data.token0, pool_data.token1, blockchain);
        proof {
            assert(pairs.subrange(0, i + 1).drop_last() =~= pairs.subrange(0, i as int));
        }
        i = i + 1;
    }
    proof {
        assert(pairs.subrange(0, i as int) =~= pairs);
    }
    (pools, tokens)
}

} // verus!
