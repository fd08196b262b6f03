//! PancakeSwap V3 pools: their addresses, fee tiers and tick spacings.
use crate::blockchain::Blockchain;
use crate::subgraph::TokenData;
use crate::decimal::{decimal_difference, Decimal};
use crate::fixed_point::{decimal_one, fee_amount_from_int, fee_multiplier_from_int};
use crate::abi::{encode_call, spec_selector};
use crate::blockchain::BlockchainNetwork;
use crate::reserves::{
    call_entries,
    decoded_conversions_check, decoded_conversions_defined, decoded_reserves, decoded_reserves_match, is_decoded_state, reserves_scaled, Call, DecodeErrorKind,
    VirtualReserves,
};
use std::marker::PhantomData;
use vstd::string::StringSliceAdditionalSpecFns;
use crate::primitives::{Address, TokenAddress, TokenInfo};
use crate::pool_state::PoolState;
use crate::decimal::pow10;
use vstd::prelude::*;

verus! {

/// A PancakeSwap V3 pool's address on a blockchain.
#[derive(Debug, Clone, Copy, PartialEq, Eq, Structural, PartialOrd, Ord, Hash)]
pub struct PoolAddress(pub Address, pub Blockchain);

impl PoolAddress {
    /// The blockchain the pool lives on.
    pub fn blockchain(&self) -> (r: Blockchain)
        ensures
            r == self.1,
    {
        self.1
    }
}

/// The fee tiers the factory enables, in hundredths of a basis point.
#[derive(Debug, Clone, Copy, PartialEq, Eq, Structural, Hash)]
pub enum Fee {
    Lowest,
    Low,
    Medium,
    High,
}

/// Why a fee amount was refused.
#[derive(Debug, Clone, Copy, PartialEq, Eq, Structural)]
pub enum FeeError {
    /// The amount is none of the enabled fee tiers.
    InvalidFeeAmount(u32),
}

/// The fee of a tier in hundredths of a basis point.
pub open spec fn spec_fee_value(fee: Fee) -> u32 {
    match fee {
        Fee::Lowest => 100,
        Fee::Low => 500,
        Fee::Medium => 2500,
        Fee::High => 10000,
    }
}

/// The tick spacing of a tier.
pub open spec fn spec_tick_spacing(fee: Fee) -> u16 {
    match fee {
        Fee::Lowest => 1,
        Fee::Low => 10,
        Fee::Medium => 50,
        Fee::High => 200,
    }
}

impl Fee {
    /// The fee in hundredths of a basis point.
    pub fn value(self) -> (r: u32)
        ensures
            r == spec_fee_value(self),
    {
        match self {
            Fee::Lowest => 100,
            Fee::Low => 500,
            Fee::Medium => 2500,
            Fee::High => 10000,
        }
    }

    /// The fee as a fraction of the input amount.
    pub fn fee_amount(self) -> (r: Decimal)
        ensures
            r@ == (spec_fee_value(self) as int, 6int),
    {
        fee_amount_from_int(self.value())
    }

    /// The share of the input amount that remains after the fee.
    pub fn fee_multiplier(self) -> (r: Decimal)
        ensures
            r@ == decimal_difference(decimal_one(), (spec_fee_value(self) as int, 6int)),
            0 <= r@.1 <= 6,
            r@.0 * pow10((6 - r@.1) as nat) == 1000000 - spec_fee_value(self),
    {
        fee_multiplier_from_int(self.value())
    }

    /// The spacing of initializable ticks in pools of this tier.
    pub fn tick_spacing(self) -> (r: u16)
        ensures
            r == spec_tick_spacing(self),
            r > 0,
    {
        match self {
            Fee::Lowest => 1,
            Fee::Low => 10,
            Fee::Medium => 50,
            Fee::High => 200,
        }
    }
}

/// The tier with the given fee amount, if any.
pub open spec fn spec_fee_from_int(fee_amount: u32) -> Result<Fee, FeeError> {
    if fee_amount == 100 {
        Ok(Fee::Lowest)
    } else if fee_amount == 500 {
        Ok(Fee::Low)
    } else if fee_amount == 2500 {
        Ok(Fee::Medium)
    } else if fee_amount == 10000 {
        Ok(Fee::High)
    } else {
        Err(FeeError::InvalidFeeAmount(fee_amount))
    }
}

/// The tier with the given fee amount.
pub fn fee_from_int(fee_amount: u32) -> (r: Result<Fee, FeeError>)
    ensures
        r == spec_fee_from_int(fee_amount),
{
    match fee_amount {
        100 => Ok(Fee::Lowest),
        500 => Ok(Fee::Low),
        2500 => Ok(Fee::Medium),
        10000 => Ok(Fee::High),
        invalid_amount => Err(FeeError::InvalidFeeAmount(invalid_amount)),
    }
}

/// Reading a tier's fee amount back gives the tier, and a tier that is read
/// from an amount has that amount.
pub proof fn lemma_fee_from_int_roundtrip(fee: Fee, amount: u32)
    ensures
        spec_fee_from_int(spec_fee_value(fee)) == Ok::<Fee, FeeError>(fee),
        spec_fee_from_int(amount) matches Ok(f) ==> spec_fee_value(f) == amount,
{
}

impl Default for Fee {
    fn default() -> (r: Fee)
        ensures
            r == Fee::Medium,
    {
        Fee::Medium
    }
}

/// A pool, its fee tier and its two tokens.
#[derive(Debug, Clone, Copy, PartialEq, Eq, Structural)]
pub struct Pool {
    pub address: PoolAddress,
    pub fee: Fee,
    pub token0: TokenInfo,
    pub token1: TokenInfo,
}

/// The static description of a pool: its fee tier and its two tokens.
#[derive(Debug, Clone, Copy, PartialEq, Eq, Structural)]
pub struct PoolInfo {
    pub fee: Fee,
    pub token0: TokenAddress,
    pub token1: TokenAddress,
}

/// The calls that read a pool's state, and the decimals of its tokens.
pub struct ReservesCallData<B: BlockchainNetwork> {
    pub pool_address: Address,
    pub token0_decimals: u32,
    pub token1_decimals: u32,
    pub fee: Fee,
    pub blockchain_marker: PhantomData<B>,
}

/// Why a pool's call results could not be decoded.
#[derive(Debug, Clone, Copy, PartialEq)]
pub struct ReservesCallDataDecodeError {
    pub kind: DecodeErrorKind,
    pub pool_address: PoolAddress,
}

impl<B: BlockchainNetwork> ReservesCallData<B> {
    /// The calls for the pool at `pool_address` with the given tokens and
    /// fee tier.
    pub fn new(pool_address: Address, token0: &TokenInfo, token1: &TokenInfo, fee: Fee) -> (r: Self)
        ensures
            r.pool_address == pool_address,
            r.token0_decimals == token0.decimals,
            r.token1_decimals == token1.decimals,
            r.fee == fee,
    {
        ReservesCallData {
            pool_address,
            token0_decimals: token0.decimals,
            token1_decimals: token1.decimals,
            fee,
            blockchain_marker: PhantomData,
        }
    }

    /// The number of calls.
    pub fn size(&self) -> (r: usize)
        ensures
            r == 2,
    {
        2
    }

    /// `slot0()` and `liquidity()` on the pool.
    /// The target and call data of each call of `to_calls`.
    pub open spec fn calls_spec(&self) -> Seq<(Address, Seq<u8>)> {
        seq![
            (self.pool_address, spec_selector("slot0()".spec_bytes())),
            (self.pool_address, spec_selector("liquidity()".spec_bytes())),
        ]
    }

    pub fn to_calls(&self) -> (r: Vec<Call>)
        ensures
            call_entries(r@) == self.calls_spec(),
            r@.len() == 2,
            r@[0].target == self.pool_address,
            r@[0].call_data@ == spec_selector("slot0()".spec_bytes()),
            r@[1].target == self.pool_address,
            r@[1].call_data@ == spec_selector("liquidity()".spec_bytes()),
    {
        let slot0_call = Call { target: self.pool_address, call_data: encode_call("slot0()") };
        let liquidity_call = Call {
            target: self.pool_address,
            call_data: encode_call("liquidity()"),
        };
        let mut calls = Vec::new();
        calls.push(slot0_call);
        calls.push(liquidity_call);
        calls
    }

    /// The pool address and reserves read from the results of `to_calls`.
    /// What `decode_output` returns on `response`.
    pub open spec fn decode_relation(
        &self,
        response: Seq<Vec<u8>>,
        r: Result<(PoolAddress, VirtualReserves), ReservesCallDataDecodeError>,
    ) -> bool {
        &&& (r matches Err(e) ==> e.pool_address == PoolAddress(self.pool_address, B::spec_blockchain()))
        &&& (response.len() == 0 ==> (r matches Err(e) && e.kind == DecodeErrorKind::MissingData(0)))
        &&& (response.len() == 1 ==> (r matches Err(e) && e.kind == DecodeErrorKind::MissingData(1)))
        &&& (response.len() > 2 ==> (r matches Err(e) && e.kind == DecodeErrorKind::InvalidResponseSize(
            response.len() as usize,
        )))
        &&& (response.len() == 2 && response[0]@.len() < 224 ==> (r matches Err(e) && e.kind
            == DecodeErrorKind::DecodeFailed(0)))
        &&& (response.len() == 2 && response[0]@.len() >= 224 && response[1]@.len() < 32 ==> (r
            matches Err(e) && e.kind == DecodeErrorKind::DecodeFailed(1)))
        &&& (response.len() == 2 && response[0]@.len() >= 224 && response[1]@.len() >= 32
            ==> decoded_reserves_match(
            r,
            response[0]@,
            response[1]@,
            spec_tick_spacing(self.fee) as int,
            self.token0_decimals as nat,
            self.token1_decimals as nat,
        ))
        &&& (r matches Ok((a, v)) ==> (a == PoolAddress(self.pool_address, B::spec_blockchain())
            && v.fee_multiplier@ == decimal_difference(
            decimal_one(),
            (spec_fee_value(self.fee) as int, 6int),
        )))
    }

    /// The inputs `decode_output` accepts.
    pub open spec fn decode_defined(&self, response: Seq<Vec<u8>>) -> bool {
        &&& (response.len() == 2 && response[0]@.len() >= 224 && response[1]@.len() >= 32
            ==> decoded_conversions_defined(
            response[0]@,
            response[1]@,
            spec_tick_spacing(self.fee) as int,
            self.token0_decimals as nat,
            self.token1_decimals as nat,
        ))
    }

    /// Whether `decode_output` accepts `response`, as an executable check.
    pub fn decode_defined_check(&self, response: &[Vec<u8>]) -> (r: bool)
        ensures
            r == self.decode_defined(response@),
    {
        if response.len() != 2 || response[0].len() < 224 || response[1].len() < 32 {
            return true;
        }
        decoded_conversions_check(
            response[0].as_slice(),
            response[1].as_slice(),
            224,
            self.fee.tick_spacing(),
            self.token0_decimals,
            self.token1_decimals,
        )
    }

    pub fn decode_output(&self, response: &[Vec<u8>]) -> (r: Result<
        (PoolAddress, VirtualReserves),
        ReservesCallDataDecodeError,
    >)
        requires
            self.decode_defined(response@),
        ensures
            self.decode_relation(response@, r),
            r matches Ok((a, v)) ==> response@.len() == 2 && forall|st: PoolState| #[trigger]
                is_decoded_state(st, response@[0]@, response@[1]@) ==> reserves_scaled(
                v,
                st,
                spec_tick_spacing(self.fee) as int,
                self.token0_decimals as nat,
                self.token1_decimals as nat,
            ),
            r matches Ok((a, v)) ==> 0 <= v.fee_multiplier@.1 <= 6 && v.fee_multiplier@.0 * pow10(
                (6 - v.fee_multiplier@.1) as nat,
            ) == 1000000 - spec_fee_value(self.fee),
    {
        let pool_address = PoolAddress(self.pool_address, B::blockchain());
        if response.len() == 0 {
            return Err(ReservesCallDataDecodeError { kind: DecodeErrorKind::MissingData(0), pool_address });
        }
        if response.len() == 1 {
            return Err(ReservesCallDataDecodeError { kind: DecodeErrorKind::MissingData(1), pool_address });
        }
        if response.len() > 2 {
            return Err(
                ReservesCallDataDecodeError {
                    kind: DecodeErrorKind::InvalidResponseSize(response.len()),
                    pool_address,
                },
            );
        }
        let slot0 = response[0].as_slice();
        let liquidity = response[1].as_slice();
        let fee_multiplier = self.fee.fee_multiplier();
        match decoded_reserves(
            slot0,
            liquidity,
            224,
            self.fee.tick_spacing(),
            self.token0_decimals,
            self.token1_decimals,
            fee_multiplier,
        ) {
            Ok(reserves) => Ok((pool_address, reserves)),
            Err(kind) => Err(ReservesCallDataDecodeError { kind, pool_address }),
        }
    }
}

/// A pool as a subgraph lists it, its fee tier read.
#[derive(Debug, Clone, Copy, PartialEq, Eq, Structural)]
pub struct PoolData {
    pub address: Address,
    pub fee: Fee,
    pub token0: TokenData,
    pub token1: TokenData,
}

/// The pools of a subgraph page on a blockchain, in order, each with its
/// tokens and their decimals.
pub fn map_pools(data: &[PoolData], blockchain: Blockchain) -> (r: Vec<Pool>)
    ensures
        r@.len() == data@.len(),
        forall|i: int|
            0 <= i < data@.len() ==> #[trigger] r@[i] == (Pool {
                address: PoolAddress(data@[i].address, blockchain),
                fee: data@[i].fee,
                token0: TokenInfo {
                    address: TokenAddress(data@[i].token0.address, blockchain),
                    decimals: data@[i].token0.decimals,
                },
                token1: TokenInfo {
                    address: TokenAddress(data@[i].token1.address, blockchain),
                    decimals: data@[i].token1.decimals,
                },
            }),
{
    let mut pools: Vec<Pool> = Vec::new();
    let mut i: usize = 0;
    while i < data.len()
        invariant
            i <= data@.len(),
            pools@.len() == i,
            forall|j: int|
                0 <= j < i ==> #[trigger] pools@[j] == (Pool {
                    address: PoolAddress(data@[j].address, blockchain),
                    fee: data@[j].fee,
                    token0: TokenInfo {
                        address: TokenAddress(data@[j].token0.address, blockchain),
                        decimals: data@[j].token0.decimals,
                    },
                    token1: TokenInfo {
                        address: TokenAddress(data@[j].token1.address, blockchain),
                        decimals: data@[j].token1.decimals,
                    },
                }),
        decreases data@.len() - i,
    {
        let pool_data = data[i];
        pools.push(Pool {
            address: PoolAddress(pool_data.address, blockchain),
            fee: pool_data.fee,
            token0: TokenInfo {
                address: TokenAddress(pool_data.token0.address, blockchain),
                decimals: pool_data.token0.decimals,
            },
            token1: TokenInfo {
                address: TokenAddress(pool_data.token1.address, blockchain),
                decimals: pool_data.token1.decimals,
            },
        });
        i = i + 1;
    }
    pools
}

} // verus!
