use evm::blockchain::Blockchain;
use evm::keyed_list::KeyedList;
use evm::pancakeswap_v3;
use evm::primitives::{Address, TokenAddress, TokenInfo, B256};
use evm::subgraph::{next_page_skip, TokenData};
use evm::uniswap_v2;
use evm::uniswap_v3;
use evm::uniswap_v4;

fn address(n: u64) -> Address {
    Address { hi: 0, mid: 0, lo: n }
}

fn token_data(n: u64, decimals: u32) -> TokenData {
    TokenData { address: address(n), decimals }
}

#[test]
fn v2_pairs_become_pools_and_tokens() {
    let data = vec![
        uniswap_v2::PoolData { address: address(1), token0: token_data(10, 18), token1: token_data(11, 6) },
        uniswap_v2::PoolData { address: address(2), token0: token_data(11, 99), token1: token_data(12, 8) },
    ];
    let (pools, tokens) = uniswap_v2::map_pools(Blockchain::BSC, KeyedList::new(), &data);
    assert_eq!(pools.len(), 2);
    assert_eq!(pools[1].address, uniswap_v2::PoolAddress(address(2), Blockchain::BSC));
    assert_eq!(pools[1].info.token0, TokenAddress(address(11), Blockchain::BSC));
    assert_eq!(tokens.len(), 3);
    // a token keeps the decimals it was first listed with
    let t11 = TokenAddress(address(11), Blockchain::BSC);
    assert_eq!(tokens.get(&t11), Some(TokenInfo { address: t11, decimals: 6 }));
}

#[test]
fn known_tokens_are_kept() {
    let t10 = TokenAddress(address(10), Blockchain::Ethereum);
    let mut known = KeyedList::new();
    known.insert(t10, TokenInfo { address: t10, decimals: 3 });
    let data = vec![uniswap_v3::PoolData {
        address: address(1),
        fee: uniswap_v3::Fee::High,
        token0: token_data(10, 18),
        token1: token_data(11, 6),
    }];
    let (pools, tokens) = uniswap_v3::map_pools(Blockchain::Ethereum, known, &data);
    assert_eq!(pools[0].info.fee, uniswap_v3::Fee::High);
    assert_eq!(tokens.get(&t10).unwrap().decimals, 3);
    assert_eq!(tokens.len(), 2);
}

#[test]
fn v4_pools_keep_fee_and_tick_spacing() {
    let id = B256 { w0: 1, w1: 2, w2: 3, w3: 4 };
    let data = vec![uniswap_v4::PoolData {
        id,
        fee: 3000,
        tick_spacing: 60,
        token0: token_data(10, 18),
        token1: token_data(11, 6),
    }];
    let (pools, tokens) = uniswap_v4::map_pools(Blockchain::Arbitrum, KeyedList::new(), &data);
    assert_eq!(pools[0].id, uniswap_v4::PoolId(id, Blockchain::Arbitrum));
    assert_eq!(pools[0].info.fee, uniswap_v4::Fee(3000));
    assert_eq!(pools[0].info.tick_spacing, 60);
    assert_eq!(tokens.len(), 2);
}

#[test]
fn pancake_pools_carry_their_tokens() {
    let data = vec![pancakeswap_v3::PoolData {
        address: address(1),
        fee: pancakeswap_v3::Fee::Low,
        token0: token_data(10, 18),
        token1: token_data(11, 6),
    }];
    let pools = pancakeswap_v3::map_pools(&data, Blockchain::BSC);
    assert_eq!(pools.len(), 1);
    assert_eq!(pools[0].token1, TokenInfo { address: TokenAddress(address(11), Blockchain::BSC), decimals: 6 });
}

#[test]
fn paging_stops_at_an_empty_page() {
    assert_eq!(next_page_skip(0, 1000), Some(1000));
    assert_eq!(next_page_skip(1000, 17), Some(1017));
    assert_eq!(next_page_skip(1017, 0), None);
}
