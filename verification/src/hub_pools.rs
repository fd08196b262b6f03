//! The connections between tokens that the hub collects: pools to swap in
//! and bridges between blockchains.
use crate::abi::{address_word, lemma_address_word_value};
use crate::blockchain::chain_selector;
use crate::blockchain::{lemma_chain_selector_injective, spec_chain_selector, Blockchain};
use crate::chainlink::{self, spec_selector_blockchain, BridgeSource, BridgeTarget, BridgeTargetError};
use crate::graph::{
    has_connection, lemma_with_adjacencies, with_adjacencies, Adjacency, AdjacentTokens,
    TokenAdjacency,
};
use crate::hub_tokens::TokenId;
use crate::primitives::{Address, TokenAddress, B256};
use crate::{pancakeswap_v3, pool_id, uniswap_v2, uniswap_v3, uniswap_v4};
use vstd::prelude::*;

verus! {

/// A pool of any supported blockchain.
#[derive(Debug, Clone, Copy, PartialEq, Eq, Structural, Hash, PartialOrd, Ord)]
pub enum PoolId {
    Evm(pool_id::PoolId),
    Solana(B256),
}

/// What connects two tokens: a pool to swap in, or a bridge's token pool.
#[derive(Debug, Clone, Copy, PartialEq, Eq, Structural, Hash, PartialOrd, Ord)]
pub enum TokensConnectionType {
    Swap(PoolId),
    Bridge(chainlink::PoolAddress),
}

/// A bridge from a token of an EVM blockchain to a token of another
/// blockchain.
#[derive(Debug, Clone, Copy, PartialEq, Eq, Structural)]
pub enum Bridge {
    Evm(BridgeSource, TokenId),
}

/// The token a bridge delivers to: the address in the first word of the
/// remote token's bytes, on the blockchain of the target's chain selector.
pub fn decode_bridge_target(target: &BridgeTarget) -> (r: Result<TokenId, BridgeTargetError>)
    ensures
        spec_selector_blockchain(target.chain_selector) is None ==> r == Err::<
            TokenId,
            BridgeTargetError,
        >(BridgeTargetError::UnknownChainSelector(target.chain_selector)),
        spec_selector_blockchain(target.chain_selector) matches Some(b) ==> {
            &&& target.remote_token@.len() < 32 ==> r == Err::<TokenId, BridgeTargetError>(
                BridgeTargetError::InvalidTokenAddress,
            )
            &&& target.remote_token@.len() >= 32 ==> (r matches Ok(TokenId::Evm(t)) && t.1 == b
                && t.0.value() == crate::primitives::be_value(target.remote_token@, 12, 20))
        },
        forall|a: Address, b: Blockchain|
            #![trigger address_word(a), spec_chain_selector(b)]
            target.chain_selector == spec_chain_selector(b) && target.remote_token@ == address_word(a)
                ==> r == Ok::<TokenId, BridgeTargetError>(TokenId::Evm(TokenAddress(a, b))),
{
    let blockchain = if target.chain_selector == chain_selector(Blockchain::Ethereum) {
        Blockchain::Ethereum
    } else if target.chain_selector == chain_selector(Blockchain::BSC) {
        Blockchain::BSC
    } else if target.chain_selector == chain_selector(Blockchain::Arbitrum) {
        Blockchain::Arbitrum
    } else {
        return Err(BridgeTargetError::UnknownChainSelector(target.chain_selector));
    };
    let r = match TokenAddress::decode_from_bytes(target.remote_token.as_slice(), blockchain) {
        Some(t) => Ok(TokenId::Evm(t)),
        None => Err(BridgeTargetError::InvalidTokenAddress),
    };
    proof {
        assert forall|a: Address, b: Blockchain|
            #![trigger address_word(a), spec_chain_selector(b)]
            target.chain_selector == spec_chain_selector(b) && target.remote_token@ == address_word(a)
                implies r == Ok::<TokenId, BridgeTargetError>(TokenId::Evm(TokenAddress(a, b))) by {
            lemma_chain_selector_injective(b, blockchain);
            lemma_address_word_value(a);
            if let Ok(TokenId::Evm(t)) = r {
                Address::lemma_value_determines_address(t.0, a);
            }
        }
    }
    r
}

impl Bridge {
    /// The hub's bridge for a bridge read from a token pool: its source and
    /// the token its target delivers to.
    pub fn try_from_chainlink(value: &chainlink::Bridge) -> (r: Result<Bridge, BridgeTargetError>)
        ensures
            spec_selector_blockchain(value.target.chain_selector) is None ==> r == Err::<
                Bridge,
                BridgeTargetError,
            >(BridgeTargetError::UnknownChainSelector(value.target.chain_selector)),
            spec_selector_blockchain(value.target.chain_selector) matches Some(b) ==> {
                &&& value.target.remote_token@.len() < 32 ==> r == Err::<Bridge, BridgeTargetError>(
                    BridgeTargetError::InvalidTokenAddress,
                )
                &&& value.target.remote_token@.len() >= 32 ==> (r matches Ok(
                    Bridge::Evm(source, TokenId::Evm(t)),
                ) && source == value.source && t.1 == b && t.0.value()
                    == crate::primitives::be_value(value.target.remote_token@, 12, 20))
            },
            forall|a: Address, b: Blockchain|
                #![trigger address_word(a), spec_chain_selector(b)]
                value.target.chain_selector == spec_chain_selector(b) && value.target.remote_token@
                    == address_word(a) ==> r == Ok::<Bridge, BridgeTargetError>(
                    Bridge::Evm(value.source, TokenId::Evm(TokenAddress(a, b))),
                ),
    {
        match decode_bridge_target(&value.target) {
            Ok(target) => Ok(Bridge::Evm(value.source, target)),
            Err(e) => Err(e),
        }
    }
}

impl TokenAdjacency for uniswap_v2::Pool {
    open spec fn adjacency_spec(&self) -> AdjacentTokens {
        AdjacentTokens::Undirected(TokenId::Evm(self.info.token0), TokenId::Evm(self.info.token1))
    }

    open spec fn id_spec(&self) -> TokensConnectionType {
        TokensConnectionType::Swap(PoolId::Evm(pool_id::PoolId::UniswapV2(self.address)))
    }

    fn adjacent_tokens(&self) -> (r: AdjacentTokens) {
        AdjacentTokens::Undirected(TokenId::Evm(self.info.token0), TokenId::Evm(self.info.token1))
    }

    fn id(&self) -> (r: TokensConnectionType) {
        TokensConnectionType::Swap(PoolId::Evm(pool_id::PoolId::UniswapV2(self.address)))
    }
}

impl TokenAdjacency for uniswap_v3::Pool {
    open spec fn adjacency_spec(&self) -> AdjacentTokens {
        AdjacentTokens::Undirected(TokenId::Evm(self.info.token0), TokenId::Evm(self.info.token1))
    }

    open spec fn id_spec(&self) -> TokensConnectionType {
        TokensConnectionType::Swap(PoolId::Evm(pool_id::PoolId::UniswapV3(self.address)))
    }

    fn adjacent_tokens(&self) -> (r: AdjacentTokens) {
        AdjacentTokens::Undirected(TokenId::Evm(self.info.token0), TokenId::Evm(self.info.token1))
    }

    fn id(&self) -> (r: TokensConnectionType) {
        TokensConnectionType::Swap(PoolId::Evm(pool_id::PoolId::UniswapV3(self.address)))
    }
}

impl TokenAdjacency for uniswap_v4::Pool {
    open spec fn adjacency_spec(&self) -> AdjacentTokens {
        AdjacentTokens::Undirected(TokenId::Evm(self.info.token0), TokenId::Evm(self.info.token1))
    }

    open spec fn id_spec(&self) -> TokensConnectionType {
        TokensConnectionType::Swap(PoolId::Evm(pool_id::PoolId::UniswapV4(self.id)))
    }

    fn adjacent_tokens(&self) -> (r: AdjacentTokens) {
        AdjacentTokens::Undirected(TokenId::Evm(self.info.token0), TokenId::Evm(self.info.token1))
    }

    fn id(&self) -> (r: TokensConnectionType) {
        TokensConnectionType::Swap(PoolId::Evm(pool_id::PoolId::UniswapV4(self.id)))
    }
}

impl TokenAdjacency for pancakeswap_v3::Pool {
    open spec fn adjacency_spec(&self) -> AdjacentTokens {
        AdjacentTokens::Undirected(
            TokenId::Evm(self.token0.address),
            TokenId::Evm(self.token1.address),
        )
    }

    open spec fn id_spec(&self) -> TokensConnectionType {
        TokensConnectionType::Swap(PoolId::Evm(pool_id::PoolId::PancakeSwap(self.address)))
    }

    fn adjacent_tokens(&self) -> (r: AdjacentTokens) {
        AdjacentTokens::Undirected(
            TokenId::Evm(self.token0.address),
            TokenId::Evm(self.token1.address),
        )
    }

    fn id(&self) -> (r: TokensConnectionType) {
        TokensConnectionType::Swap(PoolId::Evm(pool_id::PoolId::PancakeSwap(self.address)))
    }
}

impl TokenAdjacency for Bridge {
    open spec fn adjacency_spec(&self) -> AdjacentTokens {
        match self {
            Bridge::Evm(source, target) => AdjacentTokens::Directed(
                TokenId::Evm(TokenAddress(source.local_token_address, source.local_blockchain)),
                *target,
            ),
        }
    }

    open spec fn id_spec(&self) -> TokensConnectionType {
        match self {
            Bridge::Evm(source, _) => TokensConnectionType::Bridge(
                chainlink::PoolAddress(source.address, source.local_blockchain),
            ),
        }
    }

    fn adjacent_tokens(&self) -> (r: AdjacentTokens) {
        match self {
            Bridge::Evm(source, target) => AdjacentTokens::Directed(
                TokenId::Evm(source.local_token()),
                *target,
            ),
        }
    }

    fn id(&self) -> (r: TokensConnectionType) {
        match self {
            Bridge::Evm(source, _) => TokensConnectionType::Bridge(source.bridge_address()),
        }
    }
}

/// Uniswap V2 pairs connect their two tokens both ways: once added to a graph,
/// each pool's connection leads from its token 0 to its token 1 and back.
pub proof fn lemma_uniswap_v2_pools_both_ways(adj: Adjacency, pools: Seq<uniswap_v2::Pool>)
    ensures
        forall|i: int|
            0 <= i < pools.len() ==> {
                let p = #[trigger] pools[i];
                let id = TokensConnectionType::Swap(PoolId::Evm(pool_id::PoolId::UniswapV2(p.address)));
                let g = with_adjacencies(adj, pools);
                &&& has_connection(g, TokenId::Evm(p.info.token0), TokenId::Evm(p.info.token1), id)
                &&& has_connection(g, TokenId::Evm(p.info.token1), TokenId::Evm(p.info.token0), id)
            },
{
    lemma_with_adjacencies(adj, pools);
    assert forall|i: int| 0 <= i < pools.len() implies {
        let p = #[trigger] pools[i];
        let id = TokensConnectionType::Swap(PoolId::Evm(pool_id::PoolId::UniswapV2(p.address)));
        let g = with_adjacencies(adj, pools);
        &&& has_connection(g, TokenId::Evm(p.info.token0), TokenId::Evm(p.info.token1), id)
        &&& has_connection(g, TokenId::Evm(p.info.token1), TokenId::Evm(p.info.token0), id)
    } by {
        assert(crate::graph::holds_adjacency(
            with_adjacencies(adj, pools),
            pools[i].adjacency_spec(),
            pools[i].id_spec(),
        ));
    }
}

/// Uniswap V3 pools connect their two tokens both ways: once added to a graph,
/// each pool's connection leads from its token 0 to its token 1 and back.
pub proof fn lemma_uniswap_v3_pools_both_ways(adj: Adjacency, pools: Seq<uniswap_v3::Pool>)
    ensures
        forall|i: int|
            0 <= i < pools.len() ==> {
                let p = #[trigger] pools[i];
                let id = TokensConnectionType::Swap(PoolId::Evm(pool_id::PoolId::UniswapV3(p.address)));
                let g = with_adjacencies(adj, pools);
                &&& has_connection(g, TokenId::Evm(p.info.token0), TokenId::Evm(p.info.token1), id)
                &&& has_connection(g, TokenId::Evm(p.info.token1), TokenId::Evm(p.info.token0), id)
            },
{
    lemma_with_adjacencies(adj, pools);
    assert forall|i: int| 0 <= i < pools.len() implies {
        let p = #[trigger] pools[i];
        let id = TokensConnectionType::Swap(PoolId::Evm(pool_id::PoolId::UniswapV3(p.address)));
        let g = with_adjacencies(adj, pools);
        &&& has_connection(g, TokenId::Evm(p.info.token0), TokenId::Evm(p.info.token1), id)
        &&& has_connection(g, TokenId::Evm(p.info.token1), TokenId::Evm(p.info.token0), id)
    } by {
        assert(crate::graph::holds_adjacency(
            with_adjacencies(adj, pools),
            pools[i].adjacency_spec(),
            pools[i].id_spec(),
        ));
    }
}

/// Uniswap V4 pools connect their two tokens both ways: once added to a graph,
/// each pool's connection leads from its token 0 to its token 1 and back.
pub proof fn lemma_uniswap_v4_pools_both_ways(adj: Adjacency, pools: Seq<uniswap_v4::Pool>)
    ensures
        forall|i: int|
            0 <= i < pools.len() ==> {
                let p = #[trigger] pools[i];
                let id = TokensConnectionType::Swap(PoolId::Evm(pool_id::PoolId::UniswapV4(p.id)));
                let g = with_adjacencies(adj, pools);
                &&& has_connection(g, TokenId::Evm(p.info.token0), TokenId::Evm(p.info.token1), id)
                &&& has_connection(g, TokenId::Evm(p.info.token1), TokenId::Evm(p.info.token0), id)
            },
{
    lemma_with_adjacencies(adj, pools);
    assert forall|i: int| 0 <= i < pools.len() implies {
        let p = #[trigger] pools[i];
        let id = TokensConnectionType::Swap(PoolId::Evm(pool_id::PoolId::UniswapV4(p.id)));
        let g = with_adjacencies(adj, pools);
        &&& has_connection(g, TokenId::Evm(p.info.token0), TokenId::Evm(p.info.token1), id)
        &&& has_connection(g, TokenId::Evm(p.info.token1), TokenId::Evm(p.info.token0), id)
    } by {
        assert(crate::graph::holds_adjacency(
            with_adjacencies(adj, pools),
            pools[i].adjacency_spec(),
            pools[i].id_spec(),
        ));
    }
}

/// PancakeSwap V3 pools connect their two tokens both ways: once added to a graph,
/// each pool's connection leads from its token 0 to its token 1 and back.
pub proof fn lemma_pancakeswap_v3_pools_both_ways(adj: Adjacency, pools: Seq<pancakeswap_v3::Pool>)
    ensures
        forall|i: int|
            0 <= i < pools.len() ==> {
                let p = #[trigger] pools[i];
                let id = TokensConnectionType::Swap(PoolId::Evm(pool_id::PoolId::PancakeSwap(p.address)));
                let g = with_adjacencies(adj, pools);
                &&& has_connection(g, TokenId::Evm(p.token0.address), TokenId::Evm(p.token1.address), id)
                &&& has_connection(g, TokenId::Evm(p.token1.address), TokenId::Evm(p.token0.address), id)
            },
{
    lemma_with_adjacencies(adj, pools);
    assert forall|i: int| 0 <= i < pools.len() implies {
        let p = #[trigger] pools[i];
        let id = TokensConnectionType::Swap(PoolId::Evm(pool_id::PoolId::PancakeSwap(p.address)));
        let g = with_adjacencies(adj, pools);
        &&& has_connection(g, TokenId::Evm(p.token0.address), TokenId::Evm(p.token1.address), id)
        &&& has_connection(g, TokenId::Evm(p.token1.address), TokenId::Evm(p.token0.address), id)
    } by {
        assert(crate::graph::holds_adjacency(
            with_adjacencies(adj, pools),
            pools[i].adjacency_spec(),
            pools[i].id_spec(),
        ));
    }
}

/// A bridge connects its source's token to its target one way: once added
/// to a graph, its connection leads from the token it takes to the token it
/// delivers.
pub proof fn lemma_bridges_one_way(adj: Adjacency, bridges: Seq<Bridge>)
    ensures
        forall|i: int|
            0 <= i < bridges.len() ==> match #[trigger] bridges[i] {
                Bridge::Evm(source, target) => has_connection(
                    with_adjacencies(adj, bridges),
                    TokenId::Evm(TokenAddress(source.local_token_address, source.local_blockchain)),
                    target,
                    TokensConnectionType::Bridge(
                        chainlink::PoolAddress(source.address, source.local_blockchain),
                    ),
                ),
            },
{
    lemma_with_adjacencies(adj, bridges);
    assert forall|i: int| 0 <= i < bridges.len() implies match #[trigger] bridges[i] {
        Bridge::Evm(source, target) => has_connection(
            with_adjacencies(adj, bridges),
            TokenId::Evm(TokenAddress(source.local_token_address, source.local_blockchain)),
            target,
            TokensConnectionType::Bridge(
                chainlink::PoolAddress(source.address, source.local_blockchain),
            ),
        ),
    } by {
        assert(crate::graph::holds_adjacency(
            with_adjacencies(adj, bridges),
            bridges[i].adjacency_spec(),
            bridges[i].id_spec(),
        ));
    }
}

/// The token pair a bridge connects: its source's token and its target.
pub open spec fn bridge_pair(b: Bridge) -> (TokenId, TokenId) {
    match b {
        Bridge::Evm(source, target) => (
            TokenId::Evm(TokenAddress(source.local_token_address, source.local_blockchain)),
            target,
        ),
    }
}

/// The distinct token pairs the bridges connect.
pub fn into_model_bridges(bridges: &[Bridge]) -> (r: Vec<(TokenId, TokenId)>)
    ensures
        r@.no_duplicates(),
        forall|p: (TokenId, TokenId)|
            r@.contains(p) <==> exists|i: int| 0 <= i < bridges@.len() && bridge_pair(#[trigger] bridges@[i]) == p,
{
    let mut pairs: Vec<(TokenId, TokenId)> = Vec::new();
    let mut i: usize = 0;
    while i < bridges.len()
        invariant
            i <= bridges@.len(),
            pairs@.no_duplicates(),
            forall|p: (TokenId, TokenId)|
                pairs@.contains(p) <==> exists|j: int| 0 <= j < i && bridge_pair(#[trigger] bridges@[j]) == p,
        decreases bridges@.len() - i,
    {
        let pair = match bridges[i] {
            Bridge::Evm(source, target) => (TokenId::Evm(source.local_token()), target),
        };
        let mut k: usize = 0;
        let mut found = false;
        while k < pairs.len()
            invariant
                k <= pairs@.len(),
                found <==> exists|m: int| 0 <= m < k && pairs@[m] == pair,
            decreases pairs@.len() - k,
        {
            if pairs[k].0 == pair.0 && pairs[k].1 == pair.1 {
                found = true;
            }
            k = k + 1;
        }
        let ghost before = pairs@;
        if !found {
            pairs.push(pair);
            proof {
                assert forall|x: int, y: int| 0 <= x < y < pairs@.len() implies pairs@[x] != pairs@[y] by {
                    if y == before.len() {
                        assert(before[x] == pairs@[x]);
                    }
                }
            }
        }
        proof {
            assert(bridge_pair(bridges@[i as int]) == pair);
            assert forall|p: (TokenId, TokenId)|
                pairs@.contains(p) <==> exists|j: int| 0 <= j < i + 1 && bridge_pair(#[trigger] bridges@[j]) == p by {
                if pairs@.contains(p) && p != pair {
                    let m = choose|m: int| 0 <= m < pairs@.len() && pairs@[m] == p;
                    assert(before.contains(p));
                }
                if exists|j: int| 0 <= j < i + 1 && bridge_pair(#[trigger] bridges@[j]) == p {
                    let j = choose|j: int| 0 <= j < i + 1 && bridge_pair(#[trigger] bridges@[j]) == p;
                    if j < i {
                        assert(before.contains(p));
                        let m = choose|m: int| 0 <= m < before.len() && before[m] == p;
                        assert(pairs@[m] == p);
                    } else if found {
                        let m = choose|m: int| 0 <= m < pairs@.len() && pairs@[m] == pair;
                    } else {
                        assert(pairs@[pairs@.len() - 1] == pair);
                    }
                }
            }
        }
        i = i + 1;
    }
    pairs
}

} // verus!
