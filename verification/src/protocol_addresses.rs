//! The addresses of followed pools on one blockchain, and the recognition
//! of their events among the logs of that blockchain.
use crate::abi::{event_topic, keccak_digest};
use crate::blockchain::{Blockchain, BlockNumber, BlockchainNetwork};
use crate::pool_id::PoolId;
use crate::{pancakeswap_v3, uniswap_v2, uniswap_v3, uniswap_v4};
use crate::dex_info::DexInfo;
use crate::event::{
    call_data_of_pool, lemma_call_data_of_pool, spec_into_call_data, CallDataError, Event, EventId,
};
use crate::keyed_list::KeyedList;
use crate::pool_reserves_calls::ReservesCallData;
use crate::primitives::{be_value, Address, B256};
use std::marker::PhantomData;
use vstd::prelude::*;
use vstd::string::StringSliceAdditionalSpecFns;

verus! {

/// How the event of a pool with a known address is named.
#[derive(Debug, Clone, Copy, PartialEq, Eq, Structural)]
pub enum AddressEvent {
    UniswapV2,
    UniswapV3,
    PancakeSwap,
}

/// How the event of a pool with a known pool id is named.
#[derive(Debug, Clone, Copy, PartialEq, Eq, Structural)]
pub enum PoolIdEvent {
    UniswapV4,
}

/// The event id of a pool at `address`.
pub open spec fn spec_address_event_id(kind: AddressEvent, address: Address) -> EventId {
    match kind {
        AddressEvent::UniswapV2 => EventId::UniswapV2(address),
        AddressEvent::UniswapV3 => EventId::UniswapV3(address),
        AddressEvent::PancakeSwap => EventId::PancakeSwap(address),
    }
}

impl AddressEvent {
    /// The event id of a pool at `address`.
    pub fn event_id(self, address: Address) -> (r: EventId)
        ensures
            r == spec_address_event_id(self, address),
    {
        match self {
            AddressEvent::UniswapV2 => EventId::UniswapV2(address),
            AddressEvent::UniswapV3 => EventId::UniswapV3(address),
            AddressEvent::PancakeSwap => EventId::PancakeSwap(address),
        }
    }
}

/// A log of the blockchain: the emitting contract, the topics, and the
/// block it was included in (if it was).
pub struct Log {
    pub address: Address,
    pub topics: Vec<B256>,
    pub block_number: Option<u64>,
}

/// Why a log could not be read.
#[derive(Debug, Clone, Copy, PartialEq, Eq, Structural)]
pub enum LookupError {
    MissingBlockNumber,
    MissingTopic0,
    MissingTopic1,
    UnknownEvent(B256),
}

/// `t` is the topic of the event with this signature.
pub open spec fn is_topic(t: B256, signature: Seq<u8>) -> bool {
    let d = keccak_digest(signature);
    &&& t.w0 == be_value(d, 0, 8)
    &&& t.w1 == be_value(d, 8, 8)
    &&& t.w2 == be_value(d, 16, 8)
    &&& t.w3 == be_value(d, 24, 8)
}

/// Whether the first topic of the log is the topic of the event with this
/// signature.
pub open spec fn log_of_event(log: Log, signature: Seq<u8>) -> bool {
    log.topics@.len() > 0 && is_topic(log.topics@[0], signature)
}

/// The event id of a log's emitter among pools followed by address.
pub open spec fn address_lookup(pools: Map<Address, AddressEvent>, log: Log) -> Option<EventId> {
    if pools.contains_key(log.address) {
        Some(spec_address_event_id(pools[log.address], log.address))
    } else {
        None
    }
}

/// The event id of a V4 log's pool (its second topic) among followed pools.
pub open spec fn pool_id_lookup(pools: Map<B256, PoolIdEvent>, log: Log) -> Option<EventId> {
    if pools.contains_key(log.topics@[1]) {
        Some(EventId::UniswapV4(log.topics@[1]))
    } else {
        None
    }
}

/// Whether reading a log answered the event of pool `id` at the log's
/// block, or no event where `id` is `None`.
pub open spec fn reads_event<B: BlockchainNetwork>(
    r: Result<Option<Event<B>>, LookupError>,
    id: Option<EventId>,
    log: Log,
) -> bool {
    match id {
        None => r matches Ok(None),
        Some(i) => r matches Ok(Some(ev)) && ev.id == i && ev.info.block_number.spec_value()
            == log.block_number->0,
    }
}

/// The pool of an event id, if any, on a blockchain.
pub open spec fn pool_of(id: Option<EventId>, chain: Blockchain) -> Option<PoolId> {
    match id {
        None => None,
        Some(i) => Some(spec_event_pool(i, chain)),
    }
}

/// Whether a log is one that pool events are read from: it has a block
/// number and its first topic is the topic of one of the ten followed pool
/// events (a V4 event also naming its pool in a second topic).
pub open spec fn readable_log(log: Log) -> bool {
    &&& log.block_number is Some
    &&& {
        ||| log_of_event(log, "Swap(address,uint256,uint256,uint256,uint256,address)".spec_bytes())
        ||| log_of_event(log, "Mint(address,uint256,uint256)".spec_bytes())
        ||| log_of_event(log, "Burn(address,uint256,uint256,address)".spec_bytes())
        ||| log_of_event(log, "Sync(uint112,uint112)".spec_bytes())
        ||| log_of_event(log, "Swap(address,address,int256,int256,uint160,uint128,int24)".spec_bytes())
        ||| log_of_event(log, "Mint(address,address,int24,int24,uint128,uint256,uint256)".spec_bytes())
        ||| log_of_event(log, "Burn(address,int24,int24,uint128,uint256,uint256)".spec_bytes())
        ||| log_of_event(log, "ModifyLiquidity(bytes32,address,int24,int24,int256,bytes32)".spec_bytes()) && log.topics@.len() >= 2
        ||| log_of_event(log, "Swap(bytes32,address,int128,int128,uint160,uint128,int24,uint24)".spec_bytes()) && log.topics@.len() >= 2
        ||| log_of_event(log, "Donate(bytes32,address,uint256,uint256)".spec_bytes()) && log.topics@.len() >= 2
    }
}

/// The topics of the events of followed pools.
pub struct EventTopics {
    pub v2_swap: B256,
    pub v2_mint: B256,
    pub v2_burn: B256,
    pub v2_sync: B256,
    pub v3_swap: B256,
    pub v3_mint: B256,
    pub v3_burn: B256,
    pub v4_modify_liquidity: B256,
    pub v4_swap: B256,
    pub v4_donate: B256,
}

/// A Uniswap V2 pair event.
pub open spec fn is_v2_topic(t: B256) -> bool {
    ||| is_topic(t, "Swap(address,uint256,uint256,uint256,uint256,address)".spec_bytes())
    ||| is_topic(t, "Mint(address,uint256,uint256)".spec_bytes())
    ||| is_topic(t, "Burn(address,uint256,uint256,address)".spec_bytes())
    ||| is_topic(t, "Sync(uint112,uint112)".spec_bytes())
}

/// A Uniswap V3 pool event.
pub open spec fn is_v3_topic(t: B256) -> bool {
    ||| is_topic(t, "Swap(address,address,int256,int256,uint160,uint128,int24)".spec_bytes())
    ||| is_topic(t, "Mint(address,address,int24,int24,uint128,uint256,uint256)".spec_bytes())
    ||| is_topic(t, "Burn(address,int24,int24,uint128,uint256,uint256)".spec_bytes())
}

/// A Uniswap V4 pool manager event.
pub open spec fn is_v4_topic(t: B256) -> bool {
    ||| is_topic(t, "ModifyLiquidity(bytes32,address,int24,int24,int256,bytes32)".spec_bytes())
    ||| is_topic(
        t,
        "Swap(bytes32,address,int128,int128,uint160,uint128,int24,uint24)".spec_bytes(),
    )
    ||| is_topic(t, "Donate(bytes32,address,uint256,uint256)".spec_bytes())
}

impl EventTopics {
    /// Each topic is that of its event.
    pub open spec fn wf(&self) -> bool {
        &&& is_topic(self.v2_swap, "Swap(address,uint256,uint256,uint256,uint256,address)".spec_bytes())
        &&& is_topic(self.v2_mint, "Mint(address,uint256,uint256)".spec_bytes())
        &&& is_topic(self.v2_burn, "Burn(address,uint256,uint256,address)".spec_bytes())
        &&& is_topic(self.v2_sync, "Sync(uint112,uint112)".spec_bytes())
        &&& is_topic(
            self.v3_swap,
            "Swap(address,address,int256,int256,uint160,uint128,int24)".spec_bytes(),
        )
        &&& is_topic(
            self.v3_mint,
            "Mint(address,address,int24,int24,uint128,uint256,uint256)".spec_bytes(),
        )
        &&& is_topic(self.v3_burn, "Burn(address,int24,int24,uint128,uint256,uint256)".spec_bytes())
        &&& is_topic(
            self.v4_modify_liquidity,
            "ModifyLiquidity(bytes32,address,int24,int24,int256,bytes32)".spec_bytes(),
        )
        &&& is_topic(
            self.v4_swap,
            "Swap(bytes32,address,int128,int128,uint160,uint128,int24,uint24)".spec_bytes(),
        )
        &&& is_topic(self.v4_donate, "Donate(bytes32,address,uint256,uint256)".spec_bytes())
    }

    /// The topics, hashed from the events' signatures.
    pub fn new() -> (r: EventTopics)
        ensures
            r.wf(),
    {
        EventTopics {
            v2_swap: event_topic("Swap(address,uint256,uint256,uint256,uint256,address)"),
            v2_mint: event_topic("Mint(address,uint256,uint256)"),
            v2_burn: event_topic("Burn(address,uint256,uint256,address)"),
            v2_sync: event_topic("Sync(uint112,uint112)"),
            v3_swap: event_topic("Swap(address,address,int256,int256,uint160,uint128,int24)"),
            v3_mint: event_topic("Mint(address,address,int24,int24,uint128,uint256,uint256)"),
            v3_burn: event_topic("Burn(address,int24,int24,uint128,uint256,uint256)"),
            v4_modify_liquidity: event_topic(
                "ModifyLiquidity(bytes32,address,int24,int24,int256,bytes32)",
            ),
            v4_swap: event_topic("Swap(bytes32,address,int128,int128,uint160,uint128,int24,uint24)"),
            v4_donate: event_topic("Donate(bytes32,address,uint256,uint256)"),
        }
    }
}

/// The followed pools of one blockchain: V2 pairs and V3-style pools by
/// address, V4 pools by pool id.
pub struct ProtocolAddresses<B: BlockchainNetwork> {
    pub v2: KeyedList<Address, AddressEvent>,
    pub v3: KeyedList<Address, AddressEvent>,
    pub v4: KeyedList<B256, PoolIdEvent>,
    pub topics: EventTopics,
    pub blockchain_marker: PhantomData<B>,
}

/// The events of followed pools in the logs, in order, or the first log
/// that is not a pool event.
pub open spec fn spec_logs_events<B: BlockchainNetwork>(pa: ProtocolAddresses<B>, logs: Seq<Log>) -> Result<
    Seq<(EventId, u64)>,
    LookupError,
>
    decreases logs.len(),
{
    if logs.len() == 0 {
        Ok(Seq::empty())
    } else {
        match spec_logs_events(pa, logs.drop_last()) {
            Err(e) => Err(e),
            Ok(events) => match spec_try_lookup(pa, logs.last()) {
                Err(e) => Err(e),
                Ok(None) => Ok(events),
                Ok(Some(ev)) => Ok(events.push(ev)),
            },
        }
    }
}

/// What reading a log gives: nothing when the log is from a pool that is
/// not followed, else the pool's event id and the log's block number.
pub open spec fn spec_try_lookup<B: BlockchainNetwork>(pa: ProtocolAddresses<B>, log: Log) -> Result<
    Option<(EventId, u64)>,
    LookupError,
> {
    if log.block_number is None {
        Err(LookupError::MissingBlockNumber)
    } else if log.topics@.len() == 0 {
        Err(LookupError::MissingTopic0)
    } else {
        let t0 = log.topics@[0];
        let block = log.block_number->0;
        if is_v2_topic(t0) {
            Ok(
                if pa.v2@.contains_key(log.address) {
                    Some((spec_address_event_id(pa.v2@[log.address], log.address), block))
                } else {
                    None
                },
            )
        } else if is_v3_topic(t0) {
            Ok(
                if pa.v3@.contains_key(log.address) {
                    Some((spec_address_event_id(pa.v3@[log.address], log.address), block))
                } else {
                    None
                },
            )
        } else if is_v4_topic(t0) {
            if log.topics@.len() < 2 {
                Err(LookupError::MissingTopic1)
            } else {
                let id = log.topics@[1];
                Ok(
                    if pa.v4@.contains_key(id) {
                        Some((EventId::UniswapV4(id), block))
                    } else {
                        None
                    },
                )
            }
        } else {
            Err(LookupError::UnknownEvent(t0))
        }
    }
}

/// The pool of an event id on a blockchain.
pub open spec fn spec_event_pool(id: EventId, chain: Blockchain) -> PoolId {
    match id {
        EventId::UniswapV2(a) => PoolId::UniswapV2(uniswap_v2::PoolAddress(a, chain)),
        EventId::UniswapV3(a) => PoolId::UniswapV3(uniswap_v3::PoolAddress(a, chain)),
        EventId::UniswapV4(i) => PoolId::UniswapV4(uniswap_v4::PoolId(i, chain)),
        EventId::PancakeSwap(a) => PoolId::PancakeSwap(pancakeswap_v3::PoolAddress(a, chain)),
    }
}

/// The pool of an event id on a blockchain.
pub fn event_pool(id: EventId, chain: Blockchain) -> (r: PoolId)
    ensures
        r == spec_event_pool(id, chain),
{
    match id {
        EventId::UniswapV2(a) => PoolId::UniswapV2(uniswap_v2::PoolAddress(a, chain)),
        EventId::UniswapV3(a) => PoolId::UniswapV3(uniswap_v3::PoolAddress(a, chain)),
        EventId::UniswapV4(i) => PoolId::UniswapV4(uniswap_v4::PoolId(i, chain)),
        EventId::PancakeSwap(a) => PoolId::PancakeSwap(pancakeswap_v3::PoolAddress(a, chain)),
    }
}

/// The event ids of all followed pools, in the order `initial_calls` visits
/// them: pairs, then V3-style pools, then V4 pools.
pub open spec fn spec_followed_ids<B: BlockchainNetwork>(pa: ProtocolAddresses<B>) -> Seq<EventId> {
    pa.v2.entries().map_values(|e: (Address, AddressEvent)| spec_address_event_id(e.1, e.0))
        + pa.v3.entries().map_values(|e: (Address, AddressEvent)| spec_address_event_id(e.1, e.0))
        + pa.v4.entries().map_values(|e: (B256, PoolIdEvent)| EventId::UniswapV4(e.0))
}

impl<B: BlockchainNetwork> ProtocolAddresses<B> {
    /// Well-formedness of the maps and the topics.
    pub open spec fn wf(&self) -> bool {
        &&& self.v2.wf()
        &&& self.v3.wf()
        &&& self.v4.wf()
        &&& self.topics.wf()
    }

    /// No pool followed yet.
    pub fn new() -> (r: Self)
        ensures
            r.wf(),
            r.v2@ == Map::<Address, AddressEvent>::empty(),
            r.v3@ == Map::<Address, AddressEvent>::empty(),
            r.v4@ == Map::<B256, PoolIdEvent>::empty(),
    {
        ProtocolAddresses {
            v2: KeyedList::new(),
            v3: KeyedList::new(),
            v4: KeyedList::new(),
            topics: EventTopics::new(),
            blockchain_marker: PhantomData,
        }
    }

    /// Also follows the pair at `address`.
    pub fn with_v2_address(self, address: Address, ctor: AddressEvent) -> (r: Self)
        requires
            self.wf(),
        ensures
            r.wf(),
            r.v2@ == self.v2@.insert(address, ctor),
            r.v3@ == self.v3@,
            r.v4@ == self.v4@,
    {
        let mut pa = self;
        pa.v2.insert(address, ctor);
        pa
    }

    /// Also follows the V3-style pool at `address`.
    pub fn with_v3_address(self, address: Address, ctor: AddressEvent) -> (r: Self)
        requires
            self.wf(),
        ensures
            r.wf(),
            r.v2@ == self.v2@,
            r.v3@ == self.v3@.insert(address, ctor),
            r.v4@ == self.v4@,
    {
        let mut pa = self;
        pa.v3.insert(address, ctor);
        pa
    }

    /// Also follows the V4 pool `id`.
    pub fn with_v4_id(self, id: B256, ctor: PoolIdEvent) -> (r: Self)
        requires
            self.wf(),
        ensures
            r.wf(),
            r.v2@ == self.v2@,
            r.v3@ == self.v3@,
            r.v4@ == self.v4@.insert(id, ctor),
    {
        let mut pa = self;
        pa.v4.insert(id, ctor);
        pa
    }

    /// The events of followed pools in a burst of logs, in order; the first
    /// log that is not a pool event is the error.
    pub fn events_from_logs(&self, logs: &[Log]) -> (r: Result<Vec<Event<B>>, LookupError>)
        requires
            self.wf(),
        ensures
            match spec_logs_events(*self, logs@) {
                Err(e) => r == Err::<Vec<Event<B>>, LookupError>(e),
                Ok(evs) => r matches Ok(events) && events@.len() == evs.len() && forall|i: int|
                    0 <= i < evs.len() ==> (#[trigger] events@[i]).id == evs[i].0
                        && events@[i].info.block_number.spec_value() == evs[i].1,
            },
            (forall|i: int| 0 <= i < logs@.len() ==> readable_log(#[trigger] logs@[i])) ==> r is Ok,
    {
        let mut events: Vec<Event<B>> = Vec::new();
        let ghost mut evs: Seq<(EventId, u64)> = Seq::empty();
        let mut i: usize = 0;
        while i < logs.len()
            invariant
                self.wf(),
                i <= logs@.len(),
                spec_logs_events(*self, logs@.subrange(0, i as int)) == Ok::<Seq<(EventId, u64)>, LookupError>(evs),
                events@.len() == evs.len(),
                forall|j: int|
                    0 <= j < evs.len() ==> (#[trigger] events@[j]).id == evs[j].0
                        && events@[j].info.block_number.spec_value() == evs[j].1,
            decreases logs@.len() - i,
        {
            proof {
                assert(logs@.subrange(0, i + 1).drop_last() =~= logs@.subrange(0, i as int));
                assert(logs@.subrange(0, i + 1).last() == logs@[i as int]);
            }
            match self.try_lookup(&logs[i]) {
                Err(e) => {
                    proof {
                        lemma_logs_events_error(*self, logs@, i as int + 1);
                    }
                    return Err(e);
                },
                Ok(None) => {},
                Ok(Some(ev)) => {
                    proof {
                        evs = evs.push((ev.id, ev.info.block_number.spec_value()));
                    }
                    events.push(ev);
                },
            }
            i = i + 1;
        }
        proof {
            assert(logs@.subrange(0, i as int) =~= logs@);
        }
        Ok(events)
    }

    /// The event of a followed pool in a log, if the log is one.
    pub fn try_lookup(&self, log: &Log) -> (r: Result<Option<Event<B>>, LookupError>)
        requires
            self.wf(),
        ensures
            match spec_try_lookup(*self, *log) {
                Err(e) => r == Err::<Option<Event<B>>, LookupError>(e),
                Ok(None) => r matches Ok(None),
                Ok(Some((id, block))) => r matches Ok(Some(ev)) && ev.id == id
                    && ev.info.block_number.spec_value() == block,
            },
            log.block_number is Some
                && log_of_event(*log, "Swap(address,uint256,uint256,uint256,uint256,address)".spec_bytes())
                ==> reads_event(r, address_lookup(self.v2@, *log), *log),
            log.block_number is Some
                && log_of_event(*log, "Mint(address,uint256,uint256)".spec_bytes())
                ==> reads_event(r, address_lookup(self.v2@, *log), *log),
            log.block_number is Some
                && log_of_event(*log, "Burn(address,uint256,uint256,address)".spec_bytes())
                ==> reads_event(r, address_lookup(self.v2@, *log), *log),
            log.block_number is Some
                && log_of_event(*log, "Sync(uint112,uint112)".spec_bytes())
                ==> reads_event(r, address_lookup(self.v2@, *log), *log),
            log.block_number is Some
                && log_of_event(*log, "Swap(address,address,int256,int256,uint160,uint128,int24)".spec_bytes())
                && !is_v2_topic(log.topics@[0])
                ==> reads_event(r, address_lookup(self.v3@, *log), *log),
            log.block_number is Some
                && log_of_event(*log, "Mint(address,address,int24,int24,uint128,uint256,uint256)".spec_bytes())
                && !is_v2_topic(log.topics@[0])
                ==> reads_event(r, address_lookup(self.v3@, *log), *log),
            log.block_number is Some
                && log_of_event(*log, "Burn(address,int24,int24,uint128,uint256,uint256)".spec_bytes())
                && !is_v2_topic(log.topics@[0])
                ==> reads_event(r, address_lookup(self.v3@, *log), *log),
            log.block_number is Some
                && log_of_event(*log, "ModifyLiquidity(bytes32,address,int24,int24,int256,bytes32)".spec_bytes())
                && !is_v2_topic(log.topics@[0])
                && !is_v3_topic(log.topics@[0])
                && log.topics@.len() >= 2
                ==> reads_event(r, pool_id_lookup(self.v4@, *log), *log),
            log.block_number is Some
                && log_of_event(*log, "Swap(bytes32,address,int128,int128,uint160,uint128,int24,uint24)".spec_bytes())
                && !is_v2_topic(log.topics@[0])
                && !is_v3_topic(log.topics@[0])
                && log.topics@.len() >= 2
                ==> reads_event(r, pool_id_lookup(self.v4@, *log), *log),
            log.block_number is Some
                && log_of_event(*log, "Donate(bytes32,address,uint256,uint256)".spec_bytes())
                && !is_v2_topic(log.topics@[0])
                && !is_v3_topic(log.topics@[0])
                && log.topics@.len() >= 2
                ==> reads_event(r, pool_id_lookup(self.v4@, *log), *log),
    {
        let block = match log.block_number {
            Some(b) => b,
            None => {
                return Err(LookupError::MissingBlockNumber);
            },
        };
        let block_number = BlockNumber::<B>::new(block);
        if log.topics.len() == 0 {
            return Err(LookupError::MissingTopic0);
        }
        let t0 = log.topics[0];
        let topics = &self.topics;
        if t0 == topics.v2_swap || t0 == topics.v2_mint || t0 == topics.v2_burn || t0
            == topics.v2_sync {
            return Ok(
                match self.v2.get(&log.address) {
                    Some(ctor) => Some(Event::new(ctor.event_id(log.address), block_number)),
                    None => None,
                },
            );
        }
        if t0 == topics.v3_swap || t0 == topics.v3_mint || t0 == topics.v3_burn {
            return Ok(
                match self.v3.get(&log.address) {
                    Some(ctor) => Some(Event::new(ctor.event_id(log.address), block_number)),
                    None => None,
                },
            );
        }
        if t0 == topics.v4_modify_liquidity || t0 == topics.v4_swap || t0 == topics.v4_donate {
            if log.topics.len() < 2 {
                return Err(LookupError::MissingTopic1);
            }
            let id = log.topics[1];
            return Ok(
                match self.v4.get(&id) {
                    Some(_) => Some(Event::new(EventId::UniswapV4(id), block_number)),
                    None => None,
                },
            );
        }
        Err(LookupError::UnknownEvent(t0))
    }

    /// The pool a log is from, if it is an event of a followed pool; unlike
    /// `try_lookup` it does not need the log's block.
    pub fn lookup(&self, log: &Log) -> (r: Result<Option<PoolId>, LookupError>)
        requires
            self.wf(),
        ensures
            match spec_try_lookup(*self, Log { block_number: Some(0), ..*log }) {
                Err(e) => r == Err::<Option<PoolId>, LookupError>(e),
                Ok(None) => r == Ok::<Option<PoolId>, LookupError>(None),
                Ok(Some((id, _))) => r == Ok::<Option<PoolId>, LookupError>(
                    Some(spec_event_pool(id, B::spec_blockchain())),
                ),
            },
            log_of_event(*log, "Swap(address,uint256,uint256,uint256,uint256,address)".spec_bytes())
                ==> r == Ok::<Option<PoolId>, LookupError>(pool_of(address_lookup(self.v2@, *log), B::spec_blockchain())),
            log_of_event(*log, "Mint(address,uint256,uint256)".spec_bytes())
                ==> r == Ok::<Option<PoolId>, LookupError>(pool_of(address_lookup(self.v2@, *log), B::spec_blockchain())),
            log_of_event(*log, "Burn(address,uint256,uint256,address)".spec_bytes())
                ==> r == Ok::<Option<PoolId>, LookupError>(pool_of(address_lookup(self.v2@, *log), B::spec_blockchain())),
            log_of_event(*log, "Sync(uint112,uint112)".spec_bytes())
                ==> r == Ok::<Option<PoolId>, LookupError>(pool_of(address_lookup(self.v2@, *log), B::spec_blockchain())),
            log_of_event(*log, "Swap(address,address,int256,int256,uint160,uint128,int24)".spec_bytes())
                && !is_v2_topic(log.topics@[0])
                ==> r == Ok::<Option<PoolId>, LookupError>(pool_of(address_lookup(self.v3@, *log), B::spec_blockchain())),
            log_of_event(*log, "Mint(address,address,int24,int24,uint128,uint256,uint256)".spec_bytes())
                && !is_v2_topic(log.topics@[0])
                ==> r == Ok::<Option<PoolId>, LookupError>(pool_of(address_lookup(self.v3@, *log), B::spec_blockchain())),
            log_of_event(*log, "Burn(address,int24,int24,uint128,uint256,uint256)".spec_bytes())
                && !is_v2_topic(log.topics@[0])
                ==> r == Ok::<Option<PoolId>, LookupError>(pool_of(address_lookup(self.v3@, *log), B::spec_blockchain())),
            log_of_event(*log, "ModifyLiquidity(bytes32,address,int24,int24,int256,bytes32)".spec_bytes())
                && !is_v2_topic(log.topics@[0])
                && !is_v3_topic(log.topics@[0])
                && log.topics@.len() >= 2
                ==> r == Ok::<Option<PoolId>, LookupError>(pool_of(pool_id_lookup(self.v4@, *log), B::spec_blockchain())),
            log_of_event(*log, "Swap(bytes32,address,int128,int128,uint160,uint128,int24,uint24)".spec_bytes())
                && !is_v2_topic(log.topics@[0])
                && !is_v3_topic(log.topics@[0])
                && log.topics@.len() >= 2
                ==> r == Ok::<Option<PoolId>, LookupError>(pool_of(pool_id_lookup(self.v4@, *log), B::spec_blockchain())),
            log_of_event(*log, "Donate(bytes32,address,uint256,uint256)".spec_bytes())
                && !is_v2_topic(log.topics@[0])
                && !is_v3_topic(log.topics@[0])
                && log.topics@.len() >= 2
                ==> r == Ok::<Option<PoolId>, LookupError>(pool_of(pool_id_lookup(self.v4@, *log), B::spec_blockchain())),
    {
        if log.topics.len() == 0 {
            return Err(LookupError::MissingTopic0);
        }
        let chain = B::blockchain();
        let t0 = log.topics[0];
        let topics = &self.topics;
        if t0 == topics.v2_swap || t0 == topics.v2_mint || t0 == topics.v2_burn || t0
            == topics.v2_sync {
            return Ok(
                match self.v2.get(&log.address) {
                    Some(ctor) => Some(event_pool(ctor.event_id(log.address), chain)),
                    None => None,
                },
            );
        }
        if t0 == topics.v3_swap || t0 == topics.v3_mint || t0 == topics.v3_burn {
            return Ok(
                match self.v3.get(&log.address) {
                    Some(ctor) => Some(event_pool(ctor.event_id(log.address), chain)),
                    None => None,
                },
            );
        }
        if t0 == topics.v4_modify_liquidity || t0 == topics.v4_swap || t0 == topics.v4_donate {
            if log.topics.len() < 2 {
                return Err(LookupError::MissingTopic1);
            }
            let id = log.topics[1];
            return Ok(
                match self.v4.get(&id) {
                    Some(_) => Some(event_pool(EventId::UniswapV4(id), chain)),
                    None => None,
                },
            );
        }
        Err(LookupError::UnknownEvent(t0))
    }

    /// The reserve calls of every followed pool, in the order of
    /// `spec_followed_ids`; the first pool whose calls cannot be built makes
    /// the whole batch fail.
    pub fn initial_calls(&self, dex_info: &DexInfo) -> (r: Result<
        Vec<ReservesCallData<B>>,
        CallDataError,
    >)
        requires
            self.wf(),
            dex_info.wf(),
        ensures
            ({
                let ids = spec_followed_ids(*self);
                &&& r is Ok <==> forall|i: int|
                    0 <= i < ids.len() ==> #[trigger] spec_into_call_data::<B>(ids[i], *dex_info) is Ok
                &&& r matches Ok(calls) ==> calls@.len() == ids.len() && forall|i: int|
                    0 <= i < ids.len() ==> #[trigger] spec_into_call_data::<B>(ids[i], *dex_info)
                        == Ok::<ReservesCallData<B>, CallDataError>(calls@[i])
                &&& r matches Ok(calls) ==> forall|a: Address| #[trigger] self.v2@.contains_key(a)
                    ==> exists|i: int|
                    0 <= i < calls@.len() && call_data_of_pool::<B>(
                        spec_address_event_id(self.v2@[a], a),
                        *dex_info,
                        calls@[i],
                    )
                &&& r matches Ok(calls) ==> forall|a: Address| #[trigger] self.v3@.contains_key(a)
                    ==> exists|i: int|
                    0 <= i < calls@.len() && call_data_of_pool::<B>(
                        spec_address_event_id(self.v3@[a], a),
                        *dex_info,
                        calls@[i],
                    )
                &&& r matches Ok(calls) ==> forall|id: B256| #[trigger] self.v4@.contains_key(id)
                    ==> exists|i: int|
                    0 <= i < calls@.len() && call_data_of_pool::<B>(
                        EventId::UniswapV4(id),
                        *dex_info,
                        calls@[i],
                    )
                &&& r matches Err(e) ==> exists|i: int|
                    0 <= i < ids.len() && #[trigger] spec_into_call_data::<B>(ids[i], *dex_info)
                        == Err::<ReservesCallData<B>, CallDataError>(e) && forall|j: int|
                        0 <= j < i ==> (#[trigger] spec_into_call_data::<B>(ids[j], *dex_info)) is Ok
            }),
    {
        let ghost ids = spec_followed_ids(*self);
        let ghost n2 = self.v2.entries().len();
        let ghost n3 = self.v3.entries().len();
        let mut calls: Vec<ReservesCallData<B>> = Vec::new();
        let mut i: usize = 0;
        while i < self.v2.len()
            invariant
                self.wf(),
                dex_info.wf(),
                ids == spec_followed_ids(*self),
                n2 == self.v2.entries().len(),
                i <= n2,
                calls@.len() == i,
                forall|j: int|
                    0 <= j < i ==> #[trigger] spec_into_call_data::<B>(ids[j], *dex_info) == Ok::<
                        ReservesCallData<B>,
                        CallDataError,
                    >(calls@[j]),
            decreases n2 - i,
        {
            let (address, ctor) = self.v2.entry(i);
            let id = ctor.event_id(address);
            assert(ids[i as int] == id);
            match id.into_call_data::<B>(dex_info) {
                Ok(c) => calls.push(c),
                Err(e) => {
                    return Err(e);
                },
            }
            i = i + 1;
        }
        let mut k: usize = 0;
        while k < self.v3.len()
            invariant
                self.wf(),
                dex_info.wf(),
                ids == spec_followed_ids(*self),
                n2 == self.v2.entries().len(),
                n3 == self.v3.entries().len(),
                k <= n3,
                calls@.len() == n2 + k,
                forall|j: int|
                    0 <= j < n2 + k ==> #[trigger] spec_into_call_data::<B>(ids[j], *dex_info)
                        == Ok::<ReservesCallData<B>, CallDataError>(calls@[j]),
            decreases n3 - k,
        {
            let (address, ctor) = self.v3.entry(k);
            let id = ctor.event_id(address);
            assert(ids[n2 + k] == id);
            match id.into_call_data::<B>(dex_info) {
                Ok(c) => calls.push(c),
                Err(e) => {
                    return Err(e);
                },
            }
            k = k + 1;
        }
        let mut m: usize = 0;
        while m < self.v4.len()
            invariant
                self.wf(),
                dex_info.wf(),
                ids == spec_followed_ids(*self),
                n2 == self.v2.entries().len(),
                n3 == self.v3.entries().len(),
                m <= self.v4.entries().len(),
                calls@.len() == n2 + n3 + m,
                forall|j: int|
                    0 <= j < n2 + n3 + m ==> #[trigger] spec_into_call_data::<B>(ids[j], *dex_info)
                        == Ok::<ReservesCallData<B>, CallDataError>(calls@[j]),
            decreases self.v4.entries().len() - m,
        {
            let (id, _) = self.v4.entry(m);
            let event_id = EventId::UniswapV4(id);
            assert(ids[n2 + n3 + m] == event_id);
            match event_id.into_call_data::<B>(dex_info) {
                Ok(c) => calls.push(c),
                Err(e) => {
                    return Err(e);
                },
            }
            m = m + 1;
        }
        proof {
            self.v2.lemma_entries_are_map();
            self.v3.lemma_entries_are_map();
            self.v4.lemma_entries_are_map();
            assert forall|a: Address| #[trigger] self.v2@.contains_key(a) implies exists|i: int|
                0 <= i < calls@.len() && call_data_of_pool::<B>(
                    spec_address_event_id(self.v2@[a], a),
                    *dex_info,
                    calls@[i],
                ) by {
                let j = choose|j: int| 0 <= j < n2 && self.v2.entries()[j].0 == a;
                assert(ids[j] == spec_address_event_id(self.v2@[a], a));
                assert(spec_into_call_data::<B>(ids[j], *dex_info) == Ok::<
                    ReservesCallData<B>,
                    CallDataError,
                >(calls@[j]));
                lemma_call_data_of_pool::<B>(ids[j], *dex_info);
            }
            assert forall|a: Address| #[trigger] self.v3@.contains_key(a) implies exists|i: int|
                0 <= i < calls@.len() && call_data_of_pool::<B>(
                    spec_address_event_id(self.v3@[a], a),
                    *dex_info,
                    calls@[i],
                ) by {
                let j = choose|j: int| 0 <= j < n3 && self.v3.entries()[j].0 == a;
                assert(ids[n2 + j] == spec_address_event_id(self.v3@[a], a));
                assert(spec_into_call_data::<B>(ids[n2 + j], *dex_info) == Ok::<
                    ReservesCallData<B>,
                    CallDataError,
                >(calls@[n2 + j]));
                lemma_call_data_of_pool::<B>(ids[n2 + j], *dex_info);
            }
            assert forall|id: B256| #[trigger] self.v4@.contains_key(id) implies exists|i: int|
                0 <= i < calls@.len() && call_data_of_pool::<B>(
                    EventId::UniswapV4(id),
                    *dex_info,
                    calls@[i],
                ) by {
                let j = choose|j: int|
                    0 <= j < self.v4.entries().len() && self.v4.entries()[j].0 == id;
                assert(ids[n2 + n3 + j] == EventId::UniswapV4(id));
                assert(spec_into_call_data::<B>(ids[n2 + n3 + j], *dex_info) == Ok::<
                    ReservesCallData<B>,
                    CallDataError,
                >(calls@[n2 + n3 + j]));
                lemma_call_data_of_pool::<B>(ids[n2 + n3 + j], *dex_info);
            }
        }
        Ok(calls)
    }
}

/// A log of one of the followed pool events is always read, whether or not
/// its pool is followed.
pub proof fn lemma_readable_log_read<B: BlockchainNetwork>(pa: ProtocolAddresses<B>, log: Log)
    requires
        readable_log(log),
    ensures
        spec_try_lookup(pa, log) is Ok,
{
}

/// A burst of logs of followed pool events is read whole.
pub proof fn lemma_readable_logs_read<B: BlockchainNetwork>(pa: ProtocolAddresses<B>, logs: Seq<Log>)
    requires
        forall|i: int| 0 <= i < logs.len() ==> readable_log(#[trigger] logs[i]),
    ensures
        spec_logs_events(pa, logs) is Ok,
    decreases logs.len(),
{
    if logs.len() > 0 {
        let prev = logs.drop_last();
        assert forall|i: int| 0 <= i < prev.len() implies readable_log(#[trigger] prev[i]) by {
            assert(prev[i] == logs[i]);
        }
        lemma_readable_logs_read(pa, prev);
        lemma_readable_log_read(pa, logs[logs.len() - 1]);
    }
}

/// Once a log is not a pool event, no longer burst has its events.
proof fn lemma_logs_events_error<B: BlockchainNetwork>(pa: ProtocolAddresses<B>, logs: Seq<Log>, n: int)
    requires
        0 <= n <= logs.len(),
        spec_logs_events(pa, logs.subrange(0, n)) is Err,
    ensures
        spec_logs_events(pa, logs) == spec_logs_events(pa, logs.subrange(0, n)),
    decreases logs.len() - n,
{
    if n < logs.len() {
        assert(logs.subrange(0, n + 1).drop_last() =~= logs.subrange(0, n));
        lemma_logs_events_error(pa, logs, n + 1);
    } else {
        assert(logs.subrange(0, n) =~= logs);
    }
}

} // verus!
