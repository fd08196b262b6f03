//! The decisions of the state manager: which pools each blockchain follows,
//! and which reserve calls a batch of events calls for at which block.
use crate::blockchain::{Arbitrum, Blockchain, BlockNumber, BlockchainNetwork, Ethereum, BSC};
use crate::event::{Event, EventId};
use crate::pool_id::PoolId;
use crate::primitives::{Address, B256};
use crate::protocol_addresses::{AddressEvent, PoolIdEvent, ProtocolAddresses};
use crate::{pancakeswap_v3, uniswap_v2, uniswap_v3, uniswap_v4};
use vstd::prelude::*;

verus! {

/// The pairs of `chain` among `pools`, by address.
pub open spec fn registered_v2(pools: Seq<PoolId>, chain: Blockchain) -> Map<Address, AddressEvent>
    decreases pools.len(),
{
    if pools.len() == 0 {
        Map::empty()
    } else {
        let m = registered_v2(pools.drop_last(), chain);
        match pools.last() {
            PoolId::UniswapV2(p) => if p.1 == chain {
                m.insert(p.0, AddressEvent::UniswapV2)
            } else {
                m
            },
            _ => m,
        }
    }
}

/// The V3-style pools of `chain` among `pools`, by address; of two pools at
/// one address the later one stays.
pub open spec fn registered_v3(pools: Seq<PoolId>, chain: Blockchain) -> Map<Address, AddressEvent>
    decreases pools.len(),
{
    if pools.len() == 0 {
        Map::empty()
    } else {
        let m = registered_v3(pools.drop_last(), chain);
        match pools.last() {
            PoolId::UniswapV3(p) => if p.1 == chain {
                m.insert(p.0, AddressEvent::UniswapV3)
            } else {
                m
            },
            PoolId::PancakeSwap(p) => if p.1 == chain {
                m.insert(p.0, AddressEvent::PancakeSwap)
            } else {
                m
            },
            _ => m,
        }
    }
}

/// The V4 pools of `chain` among `pools`, by pool id.
pub open spec fn registered_v4(pools: Seq<PoolId>, chain: Blockchain) -> Map<B256, PoolIdEvent>
    decreases pools.len(),
{
    if pools.len() == 0 {
        Map::empty()
    } else {
        let m = registered_v4(pools.drop_last(), chain);
        match pools.last() {
            PoolId::UniswapV4(p) => if p.1 == chain {
                m.insert(p.0, PoolIdEvent::UniswapV4)
            } else {
                m
            },
            _ => m,
        }
    }
}

/// The followed pools of each blockchain.
pub struct StateManagerBuilder {
    pub protocol_addresses_ethereum: ProtocolAddresses<Ethereum>,
    pub protocol_addresses_bsc: ProtocolAddresses<BSC>,
    pub protocol_addresses_arbitrum: ProtocolAddresses<Arbitrum>,
}

/// The followed pools of one blockchain are those of `pools` on it.
pub open spec fn follows<B: BlockchainNetwork>(
    pa: ProtocolAddresses<B>,
    pools: Seq<PoolId>,
    chain: Blockchain,
) -> bool {
    &&& pa.wf()
    &&& pa.v2@ == registered_v2(pools, chain)
    &&& pa.v3@ == registered_v3(pools, chain)
    &&& pa.v4@ == registered_v4(pools, chain)
}

/// A blockchain follows exactly the pairs of `pools` that live on it.
pub proof fn lemma_registered_v2_domain(pools: Seq<PoolId>, chain: Blockchain, a: Address)
    ensures
        registered_v2(pools, chain).contains_key(a) <==> exists|i: int|
            0 <= i < pools.len() && pools[i] == PoolId::UniswapV2(uniswap_v2::PoolAddress(a, chain)),
    decreases pools.len(),
{
    if pools.len() > 0 {
        let rest = pools.drop_last();
        lemma_registered_v2_domain(rest, chain, a);
        let target = PoolId::UniswapV2(uniswap_v2::PoolAddress(a, chain));
        if exists|i: int| 0 <= i < rest.len() && rest[i] == target {
            let i = choose|i: int| 0 <= i < rest.len() && rest[i] == target;
            assert(pools[i] == target);
        }
        if exists|i: int| 0 <= i < pools.len() && pools[i] == target {
            let i = choose|i: int| 0 <= i < pools.len() && pools[i] == target;
            if i < rest.len() {
                assert(rest[i] == target);
            }
        }
    }
}

/// A blockchain follows exactly the V3 and PancakeSwap pools of `pools`
/// that live on it.
pub proof fn lemma_registered_v3_domain(pools: Seq<PoolId>, chain: Blockchain, a: Address)
    ensures
        registered_v3(pools, chain).contains_key(a) <==> exists|i: int|
            0 <= i < pools.len() && (pools[i] == PoolId::UniswapV3(uniswap_v3::PoolAddress(a, chain))
                || pools[i] == PoolId::PancakeSwap(pancakeswap_v3::PoolAddress(a, chain))),
    decreases pools.len(),
{
    if pools.len() > 0 {
        let rest = pools.drop_last();
        lemma_registered_v3_domain(rest, chain, a);
        let t1 = PoolId::UniswapV3(uniswap_v3::PoolAddress(a, chain));
        let t2 = PoolId::PancakeSwap(pancakeswap_v3::PoolAddress(a, chain));
        if exists|i: int| 0 <= i < rest.len() && (rest[i] == t1 || rest[i] == t2) {
            let i = choose|i: int| 0 <= i < rest.len() && (rest[i] == t1 || rest[i] == t2);
            assert(pools[i] == rest[i]);
        }
        if exists|i: int| 0 <= i < pools.len() && (pools[i] == t1 || pools[i] == t2) {
            let i = choose|i: int| 0 <= i < pools.len() && (pools[i] == t1 || pools[i] == t2);
            if i < rest.len() {
                assert(rest[i] == pools[i]);
            }
        }
    }
}

/// A blockchain follows exactly the V4 pools of `pools` that live on it.
pub proof fn lemma_registered_v4_domain(pools: Seq<PoolId>, chain: Blockchain, id: B256)
    ensures
        registered_v4(pools, chain).contains_key(id) <==> exists|i: int|
            0 <= i < pools.len() && pools[i] == PoolId::UniswapV4(uniswap_v4::PoolId(id, chain)),
    decreases pools.len(),
{
    if pools.len() > 0 {
        let rest = pools.drop_last();
        lemma_registered_v4_domain(rest, chain, id);
        let target = PoolId::UniswapV4(uniswap_v4::PoolId(id, chain));
        if exists|i: int| 0 <= i < rest.len() && rest[i] == target {
            let i = choose|i: int| 0 <= i < rest.len() && rest[i] == target;
            assert(pools[i] == target);
        }
        if exists|i: int| 0 <= i < pools.len() && pools[i] == target {
            let i = choose|i: int| 0 <= i < pools.len() && pools[i] == target;
            if i < rest.len() {
                assert(rest[i] == target);
            }
        }
    }
}

impl StateManagerBuilder {
    /// No pool followed on any blockchain.
    pub fn new() -> (r: Self)
        ensures
            follows(r.protocol_addresses_ethereum, Seq::empty(), Blockchain::Ethereum),
            follows(r.protocol_addresses_bsc, Seq::empty(), Blockchain::BSC),
            follows(r.protocol_addresses_arbitrum, Seq::empty(), Blockchain::Arbitrum),
    {
        StateManagerBuilder {
            protocol_addresses_ethereum: ProtocolAddresses::new(),
            protocol_addresses_bsc: ProtocolAddresses::new(),
            protocol_addresses_arbitrum: ProtocolAddresses::new(),
        }
    }

    /// Follows each pool on its own blockchain: pairs by address, V3 and
    /// PancakeSwap pools by address, V4 pools by pool id.
    pub fn from_pools(pools: &[PoolId]) -> (r: Self)
        ensures
            follows(r.protocol_addresses_ethereum, pools@, Blockchain::Ethereum),
            follows(r.protocol_addresses_bsc, pools@, Blockchain::BSC),
            follows(r.protocol_addresses_arbitrum, pools@, Blockchain::Arbitrum),
    {
        let mut builder = StateManagerBuilder::new();
        let mut i: usize = 0;
        while i < pools.len()
            invariant
                i <= pools@.len(),
                follows(
                    builder.protocol_addresses_ethereum,
                    pools@.subrange(0, i as int),
                    Blockchain::Ethereum,
                ),
                follows(builder.protocol_addresses_bsc, pools@.subrange(0, i as int), Blockchain::BSC),
                follows(
                    builder.protocol_addresses_arbitrum,
                    pools@.subrange(0, i as int),
                    Blockchain::Arbitrum,
                ),
            decreases pools@.len() - i,
        {
            proof {
                assert(pools@.subrange(0, i + 1).drop_last() =~= pools@.subrange(0, i as int));
                assert(pools@.subrange(0, i + 1).last() == pools@[i as int]);
            }
            let StateManagerBuilder {
                protocol_addresses_ethereum: mut eth,
                protocol_addresses_bsc: mut bsc,
                protocol_addresses_arbitrum: mut arb,
            } = builder;
            match pools[i] {
                PoolId::UniswapV2(uniswap_v2::PoolAddress(address, chain)) => match chain {
                    Blockchain::Ethereum => {
                        eth = eth.with_v2_address(address, AddressEvent::UniswapV2);
                    },
                    Blockchain::BSC => {
                        bsc = bsc.with_v2_address(address, AddressEvent::UniswapV2);
                    },
                    Blockchain::Arbitrum => {
                        arb = arb.with_v2_address(address, AddressEvent::UniswapV2);
                    },
                },
                PoolId::UniswapV3(uniswap_v3::PoolAddress(address, chain)) => match chain {
                    Blockchain::Ethereum => {
                        eth = eth.with_v3_address(address, AddressEvent::UniswapV3);
                    },
                    Blockchain::BSC => {
                        bsc = bsc.with_v3_address(address, AddressEvent::UniswapV3);
                    },
                    Blockchain::Arbitrum => {
                        arb = arb.with_v3_address(address, AddressEvent::UniswapV3);
                    },
                },
                PoolId::UniswapV4(uniswap_v4::PoolId(id, chain)) => match chain {
                    Blockchain::Ethereum => {
                        eth = eth.with_v4_id(id, PoolIdEvent::UniswapV4);
                    },
                    Blockchain::BSC => {
                        bsc = bsc.with_v4_id(id, PoolIdEvent::UniswapV4);
                    },
                    Blockchain::Arbitrum => {
                        arb = arb.with_v4_id(id, PoolIdEvent::UniswapV4);
                    },
                },
                PoolId::PancakeSwap(pancakeswap_v3::PoolAddress(address, chain)) => match chain {
                    Blockchain::Ethereum => {
                        eth = eth.with_v3_address(address, AddressEvent::PancakeSwap);
                    },
                    Blockchain::BSC => {
                        bsc = bsc.with_v3_address(address, AddressEvent::PancakeSwap);
                    },
                    Blockchain::Arbitrum => {
                        arb = arb.with_v3_address(address, AddressEvent::PancakeSwap);
                    },
                },
            }
            builder = StateManagerBuilder {
                protocol_addresses_ethereum: eth,
                protocol_addresses_bsc: bsc,
                protocol_addresses_arbitrum: arb,
            };
            i = i + 1;
        }
        proof {
            assert(pools@.subrange(0, pools@.len() as int) =~= pools@);
        }
        builder
    }
}

/// The latest block among a batch of events, if the batch is not empty.
pub open spec fn spec_latest_block<B: BlockchainNetwork>(events: Seq<Event<B>>) -> Option<u64>
    decreases events.len(),
{
    if events.len() == 0 {
        None
    } else {
        let b = events.last().info.block_number.spec_value();
        match spec_latest_block(events.drop_last()) {
            None => Some(b),
            Some(a) => Some(if a >= b { a } else { b }),
        }
    }
}

/// The block at which to read the reserves after a batch of events: the
/// latest block of the batch.
pub fn latest_block_number<B: BlockchainNetwork>(events: &[Event<B>]) -> (r: Option<BlockNumber<B>>)
    ensures
        r is None <==> events@.len() == 0,
        r matches Some(b) ==> spec_latest_block(events@) == Some(b.spec_value()),
{
    if events.len() == 0 {
        return None;
    }
    let mut latest = events[0].info.block_number;
    let mut i: usize = 1;
    proof {
        assert(events@.subrange(0, 1).drop_last() =~= Seq::<Event<B>>::empty());
        assert(events@.subrange(0, 1).last() == events@[0]);
        assert(spec_latest_block(Seq::<Event<B>>::empty()) == None::<u64>);
        assert(spec_latest_block(events@.subrange(0, 1)) == Some(
            events@[0].info.block_number.spec_value(),
        ));
    }
    while i < events.len()
        invariant
            1 <= i <= events@.len(),
            spec_latest_block(events@.subrange(0, i as int)) == Some(latest.spec_value()),
        decreases events@.len() - i,
    {
        proof {
            assert(events@.subrange(0, i + 1).drop_last() =~= events@.subrange(0, i as int));
        }
        latest = BlockNumber::pick_latest(latest, events[i].info.block_number);
        i = i + 1;
    }
    proof {
        assert(events@.subrange(0, events@.len() as int) =~= events@);
    }
    Some(latest)
}

/// The pools whose reserves a batch of events asks to read again: the
/// distinct ids of the events after the first one (the fold that gathers
/// them starts from the first event's block, not from its id).
pub open spec fn spec_updated_ids<B: BlockchainNetwork>(events: Seq<Event<B>>) -> Set<EventId> {
    Set::new(|id: EventId| exists|i: int| 1 <= i < events.len() && events[i].id == id)
}

/// The distinct pool ids a batch of events asks to read again, and the
/// block at which to read them; nothing for an empty batch.
pub fn updated_event_ids<B: BlockchainNetwork>(events: &[Event<B>]) -> (r: Option<
    (Vec<EventId>, BlockNumber<B>),
>)
    ensures
        r is None <==> events@.len() == 0,
        r matches Some((ids, b)) ==> {
            &&& spec_latest_block(events@) == Some(b.spec_value())
            &&& ids@.to_set() == spec_updated_ids(events@)
            &&& ids@.no_duplicates()
        },
{
    let latest = match latest_block_number(events) {
        Some(b) => b,
        None => {
            return None;
        },
    };
    let mut ids: Vec<EventId> = Vec::new();
    let mut i: usize = 1;
    while i < events.len()
        invariant
            1 <= i <= events@.len(),
            ids@.no_duplicates(),
            forall|id: EventId|
                ids@.contains(id) <==> exists|j: int| 1 <= j < i && events@[j].id == id,
        decreases events@.len() - i,
    {
        let id = events[i].id;
        let mut found = false;
        let mut k: usize = 0;
        while k < ids.len()
            invariant
                k <= ids@.len(),
                found <==> exists|m: int| 0 <= m < k && ids@[m] == id,
            decreases ids@.len() - k,
        {
            if ids[k] == id {
                found = true;
            }
            k = k + 1;
        }
        if !found {
            let ghost old_ids = ids@;
            ids.push(id);
            proof {
                assert(ids@ == old_ids.push(id));
                assert forall|x: EventId| ids@.contains(x) <==> exists|j: int|
                    1 <= j < i + 1 && events@[j].id == x by {
                    if ids@.contains(x) {
                        if x == id {
                            assert(events@[i as int].id == x);
                        } else {
                            let m = choose|m: int| 0 <= m < ids@.len() && ids@[m] == x;
                            assert(m < old_ids.len());
                            assert(old_ids[m] == x);
                            assert(old_ids.contains(x));
                            let j = choose|j: int| 1 <= j < i && events@[j].id == x;
                            assert(events@[j].id == x);
                        }
                    }
                    if exists|j: int| 1 <= j < i + 1 && events@[j].id == x {
                        let j = choose|j: int| 1 <= j < i + 1 && events@[j].id == x;
                        if j == i {
                            assert(ids@[ids@.len() - 1] == x);
                        } else {
                            assert(exists|j: int| 1 <= j < i && events@[j].id == x);
                            assert(old_ids.contains(x));
                            let m = choose|m: int| 0 <= m < old_ids.len() && old_ids[m] == x;
                            assert(ids@[m] == x);
                        }
                    }
                }
                assert(!old_ids.contains(id));
            }
        } else {
            proof {
                assert forall|x: EventId| ids@.contains(x) <==> exists|j: int|
                    1 <= j < i + 1 && events@[j].id == x by {
                    if x == id {
                        let m = choose|m: int| 0 <= m < ids@.len() && ids@[m] == id;
                        assert(ids@.contains(x));
                        assert(events@[i as int].id == x);
                    }
                    if exists|j: int| 1 <= j < i + 1 && events@[j].id == x {
                        let j = choose|j: int| 1 <= j < i + 1 && events@[j].id == x;
                        if j < i {
                            assert(exists|j: int| 1 <= j < i && events@[j].id == x);
                        }
                    }
                }
            }
        }
        i = i + 1;
    }
    proof {
        assert(ids@.to_set() =~= spec_updated_ids(events@));
    }
    Some((ids, latest))
}

} // verus!
