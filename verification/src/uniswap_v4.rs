//! Uniswap V4 pools, identified by their 32-byte pool id.
use crate::blockchain::Blockchain;
use crate::keyed_list::KeyedList;
use crate::subgraph::{add_pool_tokens, with_pool_tokens, TokenData};
use crate::decimal::{decimal_difference, Decimal};
use crate::fixed_point::{decimal_one, fee_amount_from_int, fee_multiplier_from_int};
use crate::abi::{b256_bytes, encode_call_with_word, spec_selector};
use crate::blockchain::BlockchainNetwork;
use crate::primitives::{Address, TokenAddress, TokenInfo, B256};
use crate::reserves::{
    call_entries,
    decoded_conversions_check, decoded_conversions_defined, decoded_reserves, decoded_reserves_match, is_decoded_state, reserves_scaled, Call, DecodeErrorKind,
    VirtualReserves,
};
use std::marker::PhantomData;
use vstd::string::StringSliceAdditionalSpecFns;
use crate::pool_state::PoolState;
use crate::decimal::pow10;
use vstd::prelude::*;

verus! {

/// A pool fee in hundredths of a basis point.
#[derive(Debug, Clone, Copy, PartialEq, Eq, Structural, PartialOrd, Ord, Hash)]
pub struct Fee(pub u32);

impl Fee {
    /// The fee as a fraction of the input amount.
    pub fn fee_amount(self) -> (r: Decimal)
        ensures
            r@ == (self.0 as int, 6int),
    {
        fee_amount_from_int(self.0)
    }

    /// The share of the input amount that remains after the fee.
    pub fn fee_multiplier(self) -> (r: Decimal)
        ensures
            r@ == decimal_difference(decimal_one(), (self.0 as int, 6int)),
            0 <= r@.1 <= 6,
            r@.0 * pow10((6 - r@.1) as nat) == 1000000 - self.0,
    {
        fee_multiplier_from_int(self.0)
    }
}

/// A Uniswap V4 pool id on a blockchain.
#[derive(Debug, Clone, Copy, PartialEq, Eq, Structural, PartialOrd, Ord, Hash)]
pub struct PoolId(pub B256, pub Blockchain);

impl PoolId {
    /// The blockchain the pool lives on.
    pub fn blockchain(&self) -> (r: Blockchain)
        ensures
            r == self.1,
    {
        self.1
    }
}

/// The static description of a pool.
#[derive(Debug, Clone, Copy, PartialEq, Eq, Structural)]
pub struct PoolInfo {
    pub fee: Fee,
    pub tick_spacing: u32,
    pub token0: TokenAddress,
    pub token1: TokenAddress,
}

/// A pool and its description.
#[derive(Debug, Clone, Copy, PartialEq, Eq, Structural)]
pub struct Pool {
    pub id: PoolId,
    pub info: PoolInfo,
}

/// The StateView contract of a blockchain.
pub open spec fn spec_state_view_address(blockchain: Blockchain) -> Address {
    match blockchain {
        Blockchain::Ethereum => Address { hi: 0x7fFE42C4, mid: 0xa5DEeA5b0feC41C9, lo: 0x4C136Cf115597227 },
        Blockchain::BSC => Address { hi: 0xd13dd3d6, mid: 0xe93f276fafc9db9e, lo: 0x6bb47c1180aee0c4 },
        Blockchain::Arbitrum => Address { hi: 0x76fd297e, mid: 0x2d437cd7f76d50f0, lo: 0x1afe6160f86e9990 },
    }
}

/// The StateView contract, which reads the state of V4 pools, on a
/// blockchain.
pub fn state_view_address(blockchain: Blockchain) -> (r: Address)
    ensures
        r == spec_state_view_address(blockchain),
{
    match blockchain {
        Blockchain::Ethereum => Address { hi: 0x7fFE42C4, mid: 0xa5DEeA5b0feC41C9, lo: 0x4C136Cf115597227 },
        Blockchain::BSC => Address { hi: 0xd13dd3d6, mid: 0xe93f276fafc9db9e, lo: 0x6bb47c1180aee0c4 },
        Blockchain::Arbitrum => Address { hi: 0x76fd297e, mid: 0x2d437cd7f76d50f0, lo: 0x1afe6160f86e9990 },
    }
}

/// The calls that read a pool's state, and what decoding them needs.
pub struct ReservesCallData<B: BlockchainNetwork> {
    pub pool_id: B256,
    pub token0_decimals: u32,
    pub token1_decimals: u32,
    pub fee: Fee,
    pub tick_spacing: u32,
    pub blockchain_marker: PhantomData<B>,
}

/// Why a pool's call results could not be decoded.
#[derive(Debug, Clone, Copy, PartialEq)]
pub struct ReservesCallDataDecodeError {
    pub kind: DecodeErrorKind,
    pub pool_id: PoolId,
}

impl<B: BlockchainNetwork> ReservesCallData<B> {
    /// The calls for the pool `pool_id` with the given tokens, fee and tick
    /// spacing.
    pub fn new(
        pool_id: B256,
        token0: &TokenInfo,
        token1: &TokenInfo,
        fee: Fee,
        tick_spacing: u32,
    ) -> (r: Self)
        ensures
            r.pool_id == pool_id,
            r.token0_decimals == token0.decimals,
            r.token1_decimals == token1.decimals,
            r.fee == fee,
            r.tick_spacing == tick_spacing,
    {
        ReservesCallData {
            pool_id,
            token0_decimals: token0.decimals,
            token1_decimals: token1.decimals,
            fee,
            tick_spacing,
            blockchain_marker: PhantomData,
        }
    }

    /// The number of calls.
    pub fn size(&self) -> (r: usize)
        ensures
            r == 2,
    {
        2
    }

    /// `getSlot0(poolId)` and `getLiquidity(poolId)` on the StateView
    /// contract.
    /// The target and call data of each call of `to_calls`.
    pub open spec fn calls_spec(&self) -> Seq<(Address, Seq<u8>)> {
        seq![
            (
                spec_state_view_address(B::spec_blockchain()),
                spec_selector("getSlot0(bytes32)".spec_bytes()) + b256_bytes(self.pool_id),
            ),
            (
                spec_state_view_address(B::spec_blockchain()),
                spec_selector("getLiquidity(bytes32)".spec_bytes()) + b256_bytes(self.pool_id),
            ),
        ]
    }

    pub fn to_calls(&self) -> (r: Vec<Call>)
        ensures
            call_entries(r@) == self.calls_spec(),
            r@.len() == 2,
            r@[0].target == spec_state_view_address(B::spec_blockchain()),
            r@[0].call_data@ == spec_selector("getSlot0(bytes32)".spec_bytes()) + b256_bytes(
                self.pool_id,
            ),
            r@[1].target == spec_state_view_address(B::spec_blockchain()),
            r@[1].call_data@ == spec_selector("getLiquidity(bytes32)".spec_bytes()) + b256_bytes(
                self.pool_id,
            ),
    {
        let target = state_view_address(B::blockchain());
        let mut calls = Vec::new();
        calls.push(
            Call { target, call_data: encode_call_with_word("getSlot0(bytes32)", self.pool_id) },
        );
        calls.push(
            Call { target, call_data: encode_call_with_word("getLiquidity(bytes32)", self.pool_id) },
        );
        calls
    }

    /// The pool id and reserves read from the results of `to_calls`; the
    /// tick spacing is taken modulo 2^16, as a u16.
    /// What `decode_output` returns on `response`.
    pub open spec fn decode_relation(
        &self,
        response: Seq<Vec<u8>>,
        r: Result<(PoolId, VirtualReserves), ReservesCallDataDecodeError>,
    ) -> bool {
        &&& (r matches Err(e) ==> e.pool_id == PoolId(self.pool_id, B::spec_blockchain()))
        &&& (response.len() == 0 ==> (r matches Err(e) && e.kind == DecodeErrorKind::MissingData(0)))
        &&& (response.len() == 1 ==> (r matches Err(e) && e.kind == DecodeErrorKind::MissingData(1)))
        &&& (response.len() > 2 ==> (r matches Err(e) && e.kind == DecodeErrorKind::InvalidResponseSize(
            response.len() as usize,
        )))
        &&& (response.len() == 2 && response[0]@.len() < 128 ==> (r matches Err(e) && e.kind
            == DecodeErrorKind::DecodeFailed(0)))
        &&& (response.len() == 2 && response[0]@.len() >= 128 && response[1]@.len() < 32 ==> (r
            matches Err(e) && e.kind == DecodeErrorKind::DecodeFailed(1)))
        &&& (response.len() == 2 && response[0]@.len() >= 128 && response[1]@.len() >= 32
            ==> decoded_reserves_match(
            r,
            response[0]@,
            response[1]@,
            (self.tick_spacing % 0x1_0000) as int,
            self.token0_decimals as nat,
            self.token1_decimals as nat,
        ))
        &&& (r matches Ok((a, v)) ==> (a == PoolId(self.pool_id, B::spec_blockchain())
            && v.fee_multiplier@ == decimal_difference(decimal_one(), (self.fee.0 as int, 6int))))
    }

    /// The inputs `decode_output` accepts.
    pub open spec fn decode_defined(&self, response: Seq<Vec<u8>>) -> bool {
        &&& (self.tick_spacing % 0x1_0000 != 0)
        &&& (response.len() == 2 && response[0]@.len() >= 128 && response[1]@.len() >= 32
            ==> decoded_conversions_defined(
            response[0]@,
            response[1]@,
            (self.tick_spacing % 0x1_0000) as int,
            self.token0_decimals as nat,
            self.token1_decimals as nat,
        ))
    }

    /// Whether `decode_output` accepts `response`, as an executable check.
    pub fn decode_defined_check(&self, response: &[Vec<u8>]) -> (r: bool)
        ensures
            r == self.decode_defined(response@),
    {
        let tick_spacing = (self.tick_spacing % 0x1_0000) as u16;
        if tick_spacing == 0 {
            return false;
        }
        if response.len() != 2 || response[0].len() < 128 || response[1].len() < 32 {
            return true;
        }
        decoded_conversions_check(
            response[0].as_slice(),
            response[1].as_slice(),
            128,
            tick_spacing,
            self.token0_decimals,
            self.token1_decimals,
        )
    }

    pub fn decode_output(&self, response: &[Vec<u8>]) -> (r: Result<
        (PoolId, VirtualReserves),
        ReservesCallDataDecodeError,
    >)
        requires
            self.decode_defined(response@),
        ensures
            self.decode_relation(response@, r),
            r matches Ok((a, v)) ==> response@.len() == 2 && forall|st: PoolState| #[trigger]
                is_decoded_state(st, response@[0]@, response@[1]@) ==> reserves_scaled(
                v,
                st,
                (self.tick_spacing % 0x1_0000) as int,
                self.token0_decimals as nat,
                self.token1_decimals as nat,
            ),
            r matches Ok((a, v)) ==> 0 <= v.fee_multiplier@.1 <= 6 && v.fee_multiplier@.0 * pow10(
                (6 - v.fee_multiplier@.1) as nat,
            ) == 1000000 - self.fee.0,
    {
        let pool_id = PoolId(self.pool_id, B::blockchain());
        if response.len() == 0 {
            return Err(ReservesCallDataDecodeError { kind: DecodeErrorKind::MissingData(0), pool_id });
        }
        if response.len() == 1 {
            return Err(ReservesCallDataDecodeError { kind: DecodeErrorKind::MissingData(1), pool_id });
        }
        if response.len() > 2 {
            return Err(
                ReservesCallDataDecodeError {
                    kind: DecodeErrorKind::InvalidResponseSize(response.len()),
                    pool_id,
                },
            );
        }
        let slot0 = response[0].as_slice();
        let liquidity = response[1].as_slice();
        let fee_multiplier = self.fee.fee_multiplier();
        let tick_spacing = (self.tick_spacing % 0x1_0000) as u16;
        match decoded_reserves(
            slot0,
            liquidity,
            128,
            tick_spacing,
            self.token0_decimals,
            self.token1_decimals,
            fee_multiplier,
        ) {
            Ok(reserves) => Ok((pool_id, reserves)),
            Err(kind) => Err(ReservesCallDataDecodeError { kind, pool_id }),
        }
    }
}

/// A pool as a subgraph lists it: its id, fee and tick spacing.
#[derive(Debug, Clone, Copy, PartialEq, Eq, Structural)]
pub struct PoolData {
    pub id: B256,
    pub fee: u32,
    pub tick_spacing: u32,
    pub token0: TokenData,
    pub token1: TokenData,
}

/// The pools of a subgraph page on a blockchain, in order, and the token
/// map with their tokens added, each token kept as first listed.
pub fn map_pools(
    blockchain: Blockchain,
    tokens_map: KeyedList<TokenAddress, TokenInfo>,
    data: &[PoolData],
) -> (r: (Vec<Pool>, KeyedList<TokenAddress, TokenInfo>))
    requires
        tokens_map.wf(),
    ensures
        r.1.wf(),
        r.1@ == with_pool_tokens(
            tokens_map@,
            data@.map_values(|p: PoolData| (p.token0, p.token1)),
            blockchain,
        ),
        r.0@.len() == data@.len(),
        forall|i: int|
            0 <= i < data@.len() ==> #[trigger] r.0@[i] == (Pool {
                id: PoolId(data@[i].id, blockchain),
                info: PoolInfo {
                    fee: Fee(data@[i].fee),
                    tick_spacing: data@[i].tick_spacing,
                    token0: TokenAddress(data@[i].token0.address, blockchain),
                    token1: TokenAddress(data@[i].token1.address, blockchain),
                },
            }),
{
    let mut pools: Vec<Pool> = Vec::new();
    let mut tokens = tokens_map;
    let ghost pairs = data@.map_values(|p: PoolData| (p.token0, p.token1));
    let mut i: usize = 0;
    while i < data.len()
        invariant
            i <= data@.len(),
            pairs == data@.map_values(|p: PoolData| (p.token0, p.token1)),
            tokens.wf(),
            tokens@ == with_pool_tokens(tokens_map@, pairs.subrange(0, i as int), blockchain),
            pools@.len() == i,
            forall|j: int|
                0 <= j < i ==> #[trigger] pools@[j] == (Pool {
                    id: PoolId(data@[j].id, blockchain),
                    info: PoolInfo {
                        fee: Fee(data@[j].fee),
                        tick_spacing: data@[j].tick_spacing,
                        token0: TokenAddress(data@[j].token0.address, blockchain),
                        token1: TokenAddress(data@[j].token1.address, blockchain),
                    },
                }),
        decreases data@.len() - i,
    {
        let pool_data = data[i];
        pools.push(Pool {
            id: PoolId(pool_data.id, blockchain),
            info: PoolInfo {
                fee: Fee(pool_data.fee),
                tick_spacing: pool_data.tick_spacing,
                token0: TokenAddress(pool_data.token0.address, blockchain),
                token1: TokenAddress(pool_data.token1.address, blockchain),
            },
        });
        add_pool_tokens(&mut tokens, pool_data.token0, pool_data.token1, blockchain);
        proof {
            assert(pairs.subrange(0, i + 1).drop_last() =~= pairs.subrange(0, i as int));
        }
        i = i + 1;
    }
    proof {
        assert(pairs.subrange(0, i as int) =~= pairs);
    }
    (pools, tokens)
}

} // verus!
