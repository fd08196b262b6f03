use evm::blockchain::Blockchain;
use evm::chainlink::BridgeSource;
use evm::graph::DexGraph;
use evm::hub_pools::{into_model_bridges, Bridge};
use evm::hub_tokens::TokenId;
use evm::primitives::{Address, TokenAddress};
use evm::uniswap_v2::{Pool, PoolAddress, PoolInfo};

fn address(n: u64) -> Address {
    Address { hi: 0, mid: 0, lo: n }
}

fn token(n: u64) -> TokenAddress {
    TokenAddress(address(n), Blockchain::Ethereum)
}

fn pair(id: u64, t0: u64, t1: u64) -> Pool {
    Pool {
        address: PoolAddress(address(1000 + id), Blockchain::Ethereum),
        info: PoolInfo { token0: token(t0), token1: token(t1) },
    }
}

fn sorted_tokens(graph: &DexGraph) -> Vec<TokenId> {
    let mut tokens = graph.tokens();
    tokens.sort();
    tokens
}

fn evm(ns: &[u64]) -> Vec<TokenId> {
    let mut tokens: Vec<TokenId> = ns.iter().map(|n| TokenId::Evm(token(*n))).collect();
    tokens.sort();
    tokens
}

#[test]
fn graph_holds_the_tokens_of_its_pools() {
    let graph = DexGraph::new().with_adjacent_tokens(&[pair(1, 1, 2), pair(2, 2, 3)]);
    assert_eq!(graph.tokens_count(), 3);
    assert_eq!(sorted_tokens(&graph), evm(&[1, 2, 3]));
}

#[test]
fn empty_graph_has_no_tokens() {
    let graph = DexGraph::new();
    assert_eq!(graph.tokens_count(), 0);
    assert!(graph.tokens().is_empty());
    assert!(graph.components().is_empty());
    assert_eq!(graph.pruned().tokens_count(), 0);
}

#[test]
fn triangle_of_pools_is_kept_whole() {
    let graph = DexGraph::new()
        .with_adjacent_tokens(&[pair(1, 1, 2), pair(2, 2, 3), pair(3, 3, 1)])
        .pruned();
    assert_eq!(sorted_tokens(&graph), evm(&[1, 2, 3]));
}

#[test]
fn dead_end_token_is_pruned() {
    let graph = DexGraph::new()
        .with_adjacent_tokens(&[pair(1, 1, 2), pair(2, 2, 3), pair(3, 3, 1), pair(4, 1, 4)])
        .pruned();
    assert_eq!(sorted_tokens(&graph), evm(&[1, 2, 3]));
}

#[test]
fn chain_of_single_pools_is_pruned_away() {
    let graph = DexGraph::new().with_adjacent_tokens(&[pair(1, 1, 2), pair(2, 2, 3)]).pruned();
    assert_eq!(graph.tokens_count(), 0);
}

#[test]
fn two_pools_between_two_tokens_are_kept() {
    let graph = DexGraph::new().with_adjacent_tokens(&[pair(1, 1, 2), pair(2, 2, 1)]).pruned();
    assert_eq!(sorted_tokens(&graph), evm(&[1, 2]));
}

#[test]
fn same_pool_listed_twice_is_one_connection() {
    let graph = DexGraph::new().with_adjacent_tokens(&[pair(1, 1, 2), pair(1, 1, 2)]).pruned();
    assert_eq!(graph.tokens_count(), 0);
}

#[test]
fn pruning_does_not_depend_on_the_order_of_pools() {
    let pools = vec![pair(1, 1, 2), pair(2, 2, 3), pair(3, 3, 1), pair(4, 1, 4), pair(5, 4, 5)];
    let mut reversed = pools.clone();
    reversed.reverse();
    let a = DexGraph::new().with_adjacent_tokens(&pools).pruned();
    let b = DexGraph::new().with_adjacent_tokens(&reversed).pruned();
    assert_eq!(sorted_tokens(&a), sorted_tokens(&b));
    assert_eq!(sorted_tokens(&a), evm(&[1, 2, 3]));
}

#[test]
fn pruning_twice_changes_nothing() {
    let pools = vec![pair(1, 1, 2), pair(2, 2, 3), pair(3, 3, 1), pair(4, 1, 4)];
    let once = DexGraph::new().with_adjacent_tokens(&pools).pruned();
    let once_tokens = sorted_tokens(&once);
    let twice = once.pruned();
    assert_eq!(sorted_tokens(&twice), once_tokens);
}

fn bridge(pool: u64, from: u64, to: u64) -> Bridge {
    Bridge::Evm(
        BridgeSource {
            address: address(2000 + pool),
            local_token_address: address(from),
            local_blockchain: Blockchain::Ethereum,
        },
        TokenId::Evm(token(to)),
    )
}

#[test]
fn one_way_bridge_leaves_a_source_and_a_sink() {
    let graph = DexGraph::new().with_adjacent_tokens(&[bridge(1, 1, 2)]);
    assert_eq!(graph.tokens_count(), 2);
    assert_eq!(graph.pruned().tokens_count(), 0);
}

#[test]
fn bridges_both_ways_form_a_cycle() {
    let graph = DexGraph::new().with_adjacent_tokens(&[bridge(1, 1, 2), bridge(2, 2, 1)]).pruned();
    assert_eq!(sorted_tokens(&graph), evm(&[1, 2]));
}

#[test]
fn components_split_unconnected_groups() {
    let graph = DexGraph::new()
        .with_adjacent_tokens(&[pair(1, 1, 2), pair(2, 2, 3), pair(3, 3, 1), pair(4, 4, 5)]);
    let mut components: Vec<Vec<TokenId>> = graph
        .components()
        .into_iter()
        .map(|mut c| {
            c.sort();
            c
        })
        .collect();
    components.sort();
    let mut expected = vec![evm(&[1, 2, 3]), evm(&[4, 5])];
    expected.sort();
    assert_eq!(components, expected);
}

#[test]
fn components_of_a_one_way_bridge_come_target_first() {
    let graph = DexGraph::new().with_adjacent_tokens(&[bridge(1, 1, 2)]);
    let components = graph.components();
    assert_eq!(components, vec![evm(&[2]), evm(&[1])]);
}

#[test]
fn model_bridges_lists_each_pair_once() {
    let pairs = into_model_bridges(&[bridge(1, 1, 2), bridge(2, 1, 2), bridge(3, 2, 1)]);
    assert_eq!(pairs.len(), 2);
    assert!(pairs.contains(&(TokenId::Evm(token(1)), TokenId::Evm(token(2)))));
    assert!(pairs.contains(&(TokenId::Evm(token(2)), TokenId::Evm(token(1)))));
}

fn info_of(pools: &[Pool]) -> evm::dex_info::DexInfo {
    let mut dex_info = evm::dex_info::DexInfo::new();
    for pool in pools {
        dex_info.uniswap_v2_pools.insert(pool.address, pool.info);
        for t in [pool.info.token0, pool.info.token1] {
            dex_info.tokens.insert(t, evm::primitives::TokenInfo { address: t, decimals: 18 });
        }
    }
    dex_info
}

#[test]
fn graph_answers_token_and_connection_queries() {
    let pools = [pair(1, 1, 2), pair(2, 2, 3)];
    let graph = DexGraph::new().with_adjacent_tokens(&pools);
    let id = evm::hub_pools::TokensConnectionType::Swap(evm::hub_pools::PoolId::Evm(
        evm::pool_id::PoolId::UniswapV2(pools[0].address),
    ));
    assert!(graph.contains_token(TokenId::Evm(token(3))));
    assert!(!graph.contains_token(TokenId::Evm(token(4))));
    assert!(graph.contains_connection(TokenId::Evm(token(1)), TokenId::Evm(token(2)), id));
    assert!(graph.contains_connection(TokenId::Evm(token(2)), TokenId::Evm(token(1)), id));
    assert!(!graph.contains_connection(TokenId::Evm(token(2)), TokenId::Evm(token(3)), id));
}

#[test]
fn pruning_drops_the_pools_and_tokens_of_dead_ends() {
    let pools = [pair(1, 1, 2), pair(2, 2, 3), pair(3, 3, 1), pair(4, 1, 4)];
    let dex_info = info_of(&pools);
    let graph = DexGraph::new().with_adjacent_tokens(&pools).pruned();
    let kept = dex_info.restricted_to_graph(&graph);
    assert_eq!(kept.tokens.len(), 3);
    assert!(kept.tokens.get(&token(4)).is_none());
    assert!(kept.tokens.get(&token(1)).is_some());
    assert_eq!(kept.uniswap_v2_pools.len(), 3);
    assert!(kept.uniswap_v2_pools.get(&pools[3].address).is_none());
    let ids = kept.pool_ids();
    assert_eq!(
        ids,
        pools[..3]
            .iter()
            .map(|p| evm::pool_id::PoolId::UniswapV2(p.address))
            .collect::<Vec<_>>()
    );
    assert_eq!(dex_info.pool_ids().len(), 4);
}

#[test]
fn adding_pools_in_two_batches_is_adding_them_at_once() {
    let pools = [pair(1, 1, 2), pair(2, 2, 3), pair(3, 3, 1), pair(4, 1, 4)];
    let at_once = DexGraph::new().with_adjacent_tokens(&pools);
    let in_two = DexGraph::new().with_adjacent_tokens(&pools[..2]).with_adjacent_tokens(&pools[2..]);
    let reversed = DexGraph::new().with_adjacent_tokens(&pools[2..]).with_adjacent_tokens(&pools[..2]);
    assert_eq!(sorted_tokens(&at_once), sorted_tokens(&in_two));
    assert_eq!(sorted_tokens(&at_once), sorted_tokens(&reversed));
    for p in &pools {
        let id = evm::hub_pools::TokensConnectionType::Swap(evm::hub_pools::PoolId::Evm(
            evm::pool_id::PoolId::UniswapV2(p.address),
        ));
        let (t0, t1) = (TokenId::Evm(p.info.token0), TokenId::Evm(p.info.token1));
        assert!(in_two.contains_connection(t0, t1, id));
        assert!(reversed.contains_connection(t1, t0, id));
    }
}
