use evm::blockchain::{chain_selector, BlockNumber, Blockchain, Ethereum};
use evm::dex_info::DexInfo;
use evm::event::{CallDataError, Event, EventId};
use evm::pool_id::PoolId;
use evm::pool_reserves_calls::ReservesCallData;
use evm::primitives::{Address, TokenAddress, TokenInfo, B256};
use evm::protocol_addresses::{AddressEvent, Log, LookupError, PoolIdEvent, ProtocolAddresses};
use evm::state_manager::{latest_block_number, updated_event_ids, StateManagerBuilder};
use evm::uniswap_v2;
use evm::uniswap_v4;

fn address(n: u64) -> Address {
    Address { hi: 0, mid: 0, lo: n }
}

fn topic(signature: &str) -> B256 {
    B256::from_bytes(&alloy::primitives::keccak256(signature.as_bytes()).0)
}

fn log(address_n: u64, topics: Vec<B256>, block: Option<u64>) -> Log {
    Log { address: address(address_n), topics, block_number: block }
}

const V2_SWAP: &str = "Swap(address,uint256,uint256,uint256,uint256,address)";
const V2_SYNC: &str = "Sync(uint112,uint112)";
const V3_SWAP: &str = "Swap(address,address,int256,int256,uint160,uint128,int24)";
const V4_SWAP: &str = "Swap(bytes32,address,int128,int128,uint160,uint128,int24,uint24)";

fn followed() -> ProtocolAddresses<Ethereum> {
    ProtocolAddresses::<Ethereum>::new()
        .with_v2_address(address(1), AddressEvent::UniswapV2)
        .with_v3_address(address(2), AddressEvent::UniswapV3)
        .with_v3_address(address(3), AddressEvent::PancakeSwap)
        .with_v4_id(B256 { w0: 7, w1: 0, w2: 0, w3: 9 }, PoolIdEvent::UniswapV4)
}

#[test]
fn v2_swap_log_of_a_followed_pair_is_its_event() {
    let pa = followed();
    let ev = pa.try_lookup(&log(1, vec![topic(V2_SWAP)], Some(42))).unwrap().unwrap();
    assert_eq!(ev.id, EventId::UniswapV2(address(1)));
    assert_eq!(ev.info.block_number.value(), 42);
}

#[test]
fn v2_sync_of_an_unfollowed_pair_is_nothing() {
    let pa = followed();
    assert!(pa.try_lookup(&log(5, vec![topic(V2_SYNC)], Some(42))).unwrap().is_none());
}

#[test]
fn pancake_pool_answers_to_v3_topics() {
    let pa = followed();
    let ev = pa.try_lookup(&log(3, vec![topic(V3_SWAP)], Some(1))).unwrap().unwrap();
    assert_eq!(ev.id, EventId::PancakeSwap(address(3)));
}

#[test]
fn v4_events_are_found_by_topic1() {
    let pa = followed();
    let id = B256 { w0: 7, w1: 0, w2: 0, w3: 9 };
    let ev = pa.try_lookup(&log(99, vec![topic(V4_SWAP), id], Some(3))).unwrap().unwrap();
    assert_eq!(ev.id, EventId::UniswapV4(id));
    let missing = pa.try_lookup(&log(99, vec![topic(V4_SWAP)], Some(3)));
    assert!(matches!(missing, Err(LookupError::MissingTopic1)));
}

#[test]
fn lookup_errors() {
    let pa = followed();
    assert!(matches!(pa.try_lookup(&log(1, vec![topic(V2_SWAP)], None)), Err(LookupError::MissingBlockNumber)));
    assert!(matches!(pa.try_lookup(&log(1, vec![], Some(1))), Err(LookupError::MissingTopic0)));
    let unknown = topic("Transfer(address,address,uint256)");
    assert!(matches!(
        pa.try_lookup(&log(1, vec![unknown], Some(1))),
        Err(LookupError::UnknownEvent(t)) if t == unknown
    ));
}

#[test]
fn lookup_names_the_pool() {
    let pa = followed();
    let id = pa.lookup(&log(2, vec![topic(V3_SWAP)], None)).unwrap().unwrap();
    assert_eq!(id, PoolId::UniswapV3(evm::uniswap_v3::PoolAddress(address(2), Blockchain::Ethereum)));
}

#[test]
fn events_from_logs_keeps_followed_events_in_order() {
    let pa = followed();
    let logs = vec![
        log(1, vec![topic(V2_SWAP)], Some(10)),
        log(8, vec![topic(V2_SWAP)], Some(11)),
        log(2, vec![topic(V3_SWAP)], Some(12)),
    ];
    let events = pa.events_from_logs(&logs).unwrap();
    assert_eq!(events.len(), 2);
    assert_eq!(events[0].id, EventId::UniswapV2(address(1)));
    assert_eq!(events[1].id, EventId::UniswapV3(address(2)));
    assert_eq!(events[1].info.block_number.value(), 12);
}

#[test]
fn events_from_logs_stops_at_the_first_bad_log() {
    let pa = followed();
    let logs = vec![log(1, vec![topic(V2_SWAP)], Some(10)), log(1, vec![], Some(11)), log(1, vec![topic(V2_SWAP)], None)];
    assert!(matches!(pa.events_from_logs(&logs), Err(LookupError::MissingTopic0)));
}

fn ev(id: EventId, block: u64) -> Event<Ethereum> {
    Event::new(id, BlockNumber::new(block))
}

#[test]
fn latest_block_of_a_batch() {
    let events = vec![ev(EventId::UniswapV2(address(1)), 5), ev(EventId::UniswapV2(address(2)), 9), ev(EventId::UniswapV2(address(1)), 7)];
    assert_eq!(latest_block_number(&events).unwrap().value(), 9);
    assert!(latest_block_number::<Ethereum>(&[]).is_none());
}

#[test]
fn updated_ids_skip_the_first_event_and_repeat_none() {
    let events = vec![
        ev(EventId::UniswapV2(address(1)), 5),
        ev(EventId::UniswapV2(address(2)), 9),
        ev(EventId::UniswapV2(address(2)), 7),
        ev(EventId::UniswapV3(address(3)), 8),
    ];
    let (mut ids, block) = updated_event_ids(&events).unwrap();
    ids.sort_by_key(|id| format!("{:?}", id));
    assert_eq!(block.value(), 9);
    assert_eq!(ids, vec![EventId::UniswapV2(address(2)), EventId::UniswapV3(address(3))]);
    assert!(updated_event_ids::<Ethereum>(&[]).is_none());
}

#[test]
fn pick_latest_takes_the_larger_block() {
    let a = BlockNumber::<Ethereum>::new(3);
    let b = BlockNumber::<Ethereum>::new(8);
    assert_eq!(BlockNumber::pick_latest(a, b).value(), 8);
    assert_eq!(BlockNumber::pick_latest(b, a).value(), 8);
}

#[test]
fn builder_follows_pools_on_their_own_blockchain() {
    let pools = vec![
        PoolId::UniswapV2(uniswap_v2::PoolAddress(address(1), Blockchain::Ethereum)),
        PoolId::UniswapV2(uniswap_v2::PoolAddress(address(2), Blockchain::BSC)),
        PoolId::UniswapV4(uniswap_v4::PoolId(B256 { w0: 1, w1: 2, w2: 3, w3: 4 }, Blockchain::Arbitrum)),
    ];
    let builder = StateManagerBuilder::from_pools(&pools);
    assert_eq!(builder.protocol_addresses_ethereum.v2.len(), 1);
    assert_eq!(builder.protocol_addresses_bsc.v2.len(), 1);
    assert_eq!(builder.protocol_addresses_arbitrum.v2.len(), 0);
    assert_eq!(builder.protocol_addresses_arbitrum.v4.len(), 1);
    assert!(builder.protocol_addresses_ethereum.v2.get(&address(1)).is_some());
    assert!(builder.protocol_addresses_ethereum.v2.get(&address(2)).is_none());
}

fn dex_info_with_pair() -> DexInfo {
    let mut dex = DexInfo::new();
    let t0 = TokenAddress(address(10), Blockchain::Ethereum);
    let t1 = TokenAddress(address(11), Blockchain::Ethereum);
    dex.tokens.insert(t0, TokenInfo { address: t0, decimals: 18 });
    dex.tokens.insert(t1, TokenInfo { address: t1, decimals: 6 });
    dex.uniswap_v2_pools.insert(
        uniswap_v2::PoolAddress(address(1), Blockchain::Ethereum),
        uniswap_v2::PoolInfo { token0: t0, token1: t1 },
    );
    dex
}

#[test]
fn event_of_a_known_pair_calls_get_reserves() {
    let dex = dex_info_with_pair();
    let calls = EventId::UniswapV2(address(1)).into_call_data::<Ethereum>(&dex).unwrap();
    match calls {
        ReservesCallData::UniswapV2(d) => {
            assert_eq!(d.pool_address, address(1));
            assert_eq!(d.token0_decimals, 18);
            assert_eq!(d.token1_decimals, 6);
        }
        _ => panic!("expected a pair"),
    }
}

#[test]
fn event_of_an_unknown_pool_is_an_error() {
    let dex = dex_info_with_pair();
    let r = EventId::UniswapV2(address(2)).into_call_data::<Ethereum>(&dex);
    assert!(matches!(r, Err(CallDataError::PoolInfoNotFound(EventId::UniswapV2(a))) if a == address(2)));
}

#[test]
fn pool_of_unknown_token_is_an_error() {
    let mut dex = DexInfo::new();
    let t0 = TokenAddress(address(10), Blockchain::Ethereum);
    let t1 = TokenAddress(address(11), Blockchain::Ethereum);
    dex.tokens.insert(t0, TokenInfo { address: t0, decimals: 18 });
    dex.uniswap_v2_pools.insert(
        uniswap_v2::PoolAddress(address(1), Blockchain::Ethereum),
        uniswap_v2::PoolInfo { token0: t0, token1: t1 },
    );
    let r = EventId::UniswapV2(address(1)).into_call_data::<Ethereum>(&dex);
    assert!(matches!(r, Err(CallDataError::TokenNotFound(t)) if t == t1));
}

#[test]
fn initial_calls_cover_followed_pools() {
    let dex = dex_info_with_pair();
    let pa = ProtocolAddresses::<Ethereum>::new().with_v2_address(address(1), AddressEvent::UniswapV2);
    let calls = pa.initial_calls(&dex).unwrap();
    assert_eq!(calls.len(), 1);
    let missing = ProtocolAddresses::<Ethereum>::new().with_v2_address(address(5), AddressEvent::UniswapV2);
    assert!(missing.initial_calls(&dex).is_err());
}

#[test]
fn dex_info_finds_pool_tokens() {
    let dex = dex_info_with_pair();
    let id = PoolId::UniswapV2(uniswap_v2::PoolAddress(address(1), Blockchain::Ethereum));
    let (a, b) = dex.lookup_pool_tokens(id).unwrap();
    assert_eq!(a, TokenAddress(address(10), Blockchain::Ethereum));
    assert_eq!(b, TokenAddress(address(11), Blockchain::Ethereum));
    let other = PoolId::UniswapV2(uniswap_v2::PoolAddress(address(3), Blockchain::Ethereum));
    assert!(dex.lookup_pool_tokens(other).is_none());
}

#[test]
fn chain_selectors_are_distinct() {
    assert_eq!(chain_selector(Blockchain::Ethereum), 5009297550715157269);
    assert_eq!(chain_selector(Blockchain::BSC), 11344663589394136015);
    assert_eq!(chain_selector(Blockchain::Arbitrum), 4949039107694359620);
}

#[test]
fn blockchain_names() {
    assert_eq!(Blockchain::Ethereum.name(), "ethereum");
    assert_eq!(Blockchain::BSC.name(), "bsc");
    assert_eq!(Blockchain::Arbitrum.name(), "arbitrum");
    assert!(Blockchain::BSC.same_as(Blockchain::BSC).is_ok());
    assert!(Blockchain::BSC.same_as(Blockchain::Ethereum).is_err());
}

#[test]
fn block_numbers_compare_as_their_numbers() {
    let a = BlockNumber::<Ethereum>::new(17);
    let b = BlockNumber::<Ethereum>::new(42);
    assert!(a < b);
    assert!(b > a);
    assert_eq!(a, BlockNumber::<Ethereum>::new(17));
    assert_ne!(a, b);
    assert_eq!(std::cmp::max(a, b).value(), 42);
}
