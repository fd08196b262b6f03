//! The tokens and pools that stay once the token graph is pruned: a token
//! stays while the graph still has it, a pool while the graph still carries
//! its connection from its first token to its second.
use crate::dex_info::{spec_pool_tokens, DexInfo};
use crate::graph::{has_connection, Adjacency, DexGraph};
use crate::hub_pools::{PoolId as HubPoolId, TokensConnectionType};
use crate::hub_tokens::TokenId;
use crate::keyed_list::{KeyedList, LookupKey};
use crate::pool_id::PoolId;
use crate::primitives::{TokenAddress, TokenInfo};
use crate::{pancakeswap_v3, uniswap_v2, uniswap_v3, uniswap_v4};
use vstd::prelude::*;

verus! {

/// The key of a pool in one protocol's map, which names the pool.
pub trait PoolKey: LookupKey {
    spec fn pool_id_spec(&self) -> PoolId;

    fn pool_id(&self) -> (r: PoolId)
        ensures
            r == self.pool_id_spec(),
    ;
}

/// A pool's description, which names its two tokens.
pub trait PoolTokens: Copy {
    spec fn tokens_spec(&self) -> (TokenAddress, TokenAddress);

    fn tokens(&self) -> (r: (TokenAddress, TokenAddress))
        ensures
            r == self.tokens_spec(),
    ;
}

impl PoolKey for uniswap_v2::PoolAddress {
    open spec fn pool_id_spec(&self) -> PoolId {
        PoolId::UniswapV2(*self)
    }

    fn pool_id(&self) -> (r: PoolId) {
        PoolId::UniswapV2(*self)
    }
}

impl PoolKey for uniswap_v3::PoolAddress {
    open spec fn pool_id_spec(&self) -> PoolId {
        PoolId::UniswapV3(*self)
    }

    fn pool_id(&self) -> (r: PoolId) {
        PoolId::UniswapV3(*self)
    }
}

impl PoolKey for uniswap_v4::PoolId {
    open spec fn pool_id_spec(&self) -> PoolId {
        PoolId::UniswapV4(*self)
    }

    fn pool_id(&self) -> (r: PoolId) {
        PoolId::UniswapV4(*self)
    }
}

impl PoolKey for pancakeswap_v3::PoolAddress {
    open spec fn pool_id_spec(&self) -> PoolId {
        PoolId::PancakeSwap(*self)
    }

    fn pool_id(&self) -> (r: PoolId) {
        PoolId::PancakeSwap(*self)
    }
}

impl PoolTokens for uniswap_v2::PoolInfo {
    open spec fn tokens_spec(&self) -> (TokenAddress, TokenAddress) {
        (self.token0, self.token1)
    }

    fn tokens(&self) -> (r: (TokenAddress, TokenAddress)) {
        (self.token0, self.token1)
    }
}

impl PoolTokens for uniswap_v3::PoolInfo {
    open spec fn tokens_spec(&self) -> (TokenAddress, TokenAddress) {
        (self.token0, self.token1)
    }

    fn tokens(&self) -> (r: (TokenAddress, TokenAddress)) {
        (self.token0, self.token1)
    }
}

impl PoolTokens for uniswap_v4::PoolInfo {
    open spec fn tokens_spec(&self) -> (TokenAddress, TokenAddress) {
        (self.token0, self.token1)
    }

    fn tokens(&self) -> (r: (TokenAddress, TokenAddress)) {
        (self.token0, self.token1)
    }
}

impl PoolTokens for pancakeswap_v3::PoolInfo {
    open spec fn tokens_spec(&self) -> (TokenAddress, TokenAddress) {
        (self.token0, self.token1)
    }

    fn tokens(&self) -> (r: (TokenAddress, TokenAddress)) {
        (self.token0, self.token1)
    }
}

/// The connection a pool puts between its tokens in the graph.
pub open spec fn pool_connection(id: PoolId) -> TokensConnectionType {
    TokensConnectionType::Swap(HubPoolId::Evm(id))
}

/// Whether the graph carries the pool's connection from its first token to
/// its second.
pub open spec fn pool_in_graph(g: Adjacency, id: PoolId, tokens: (TokenAddress, TokenAddress)) -> bool {
    has_connection(g, TokenId::Evm(tokens.0), TokenId::Evm(tokens.1), pool_connection(id))
}

/// The pools of a map that the graph still carries.
pub open spec fn pools_in_graph<K: PoolKey, V: PoolTokens>(g: Adjacency, pools: Map<K, V>) -> Map<
    K,
    V,
> {
    Map::new(
        |k: K| pools.contains_key(k) && pool_in_graph(g, k.pool_id_spec(), pools[k].tokens_spec()),
        |k: K| pools[k],
    )
}

/// The tokens of a map that the graph still has.
pub open spec fn tokens_in_graph(g: Adjacency, tokens: Map<TokenAddress, TokenInfo>) -> Map<
    TokenAddress,
    TokenInfo,
> {
    Map::new(
        |a: TokenAddress| tokens.contains_key(a) && g.dom().contains(TokenId::Evm(a)),
        |a: TokenAddress| tokens[a],
    )
}

/// An element of two joined sequences is an element of one of them.
proof fn lemma_concat_contains<T>(a: Seq<T>, b: Seq<T>, x: T)
    ensures
        (a + b).contains(x) <==> a.contains(x) || b.contains(x),
{
    if (a + b).contains(x) {
        let i = choose|i: int| 0 <= i < (a + b).len() && (a + b)[i] == x;
        if i >= a.len() {
            assert(b[i - a.len()] == x);
        }
    }
    if a.contains(x) {
        let i = choose|i: int| 0 <= i < a.len() && a[i] == x;
        assert((a + b)[i] == x);
    }
    if b.contains(x) {
        let i = choose|i: int| 0 <= i < b.len() && b[i] == x;
        assert((a + b)[a.len() + i] == x);
    }
}

/// The pools of `pools` whose connection the graph still carries.
fn keep_pools_in_graph<K: PoolKey, V: PoolTokens>(graph: &DexGraph, pools: &KeyedList<K, V>) -> (r:
    KeyedList<K, V>)
    requires
        pools.wf(),
    ensures
        r.wf(),
        r@ == pools_in_graph(graph@, pools@),
{
    proof {
        pools.lemma_entries_are_map();
    }
    let mut kept: KeyedList<K, V> = KeyedList::new();
    let mut i: usize = 0;
    while i < pools.len()
        invariant
            pools.wf(),
            kept.wf(),
            i <= pools.entries().len(),
            forall|k: K|
                #[trigger] kept@.contains_key(k) ==> pools@.contains_key(k) && pool_in_graph(
                    graph@,
                    k.pool_id_spec(),
                    pools@[k].tokens_spec(),
                ) && kept@[k] == pools@[k],
            forall|j: int|
                0 <= j < i && pool_in_graph(
                    graph@,
                    (#[trigger] pools.entries()[j]).0.pool_id_spec(),
                    pools@[pools.entries()[j].0].tokens_spec(),
                ) ==> kept@.contains_key(pools.entries()[j].0),
        decreases pools.entries().len() - i,
    {
        let (key, info) = pools.entry(i);
        let tokens = info.tokens();
        let id = key.pool_id();
        if graph.contains_connection(
            TokenId::Evm(tokens.0),
            TokenId::Evm(tokens.1),
            TokensConnectionType::Swap(HubPoolId::Evm(id)),
        ) {
            kept.insert(key, info);
        }
        i = i + 1;
    }
    proof {
        assert forall|k: K|
            pools@.contains_key(k) && pool_in_graph(
                graph@,
                k.pool_id_spec(),
                pools@[k].tokens_spec(),
            ) implies #[trigger] kept@.contains_key(k) by {
            let j = choose|j: int| 0 <= j < pools.entries().len() && pools.entries()[j].0 == k;
            assert(pools.entries()[j].0 == k);
        }
        assert(kept@ =~= pools_in_graph(graph@, pools@));
    }
    kept
}

/// The tokens of `tokens` that the graph still has.
fn keep_tokens_in_graph(graph: &DexGraph, tokens: &KeyedList<TokenAddress, TokenInfo>) -> (r:
    KeyedList<TokenAddress, TokenInfo>)
    requires
        tokens.wf(),
    ensures
        r.wf(),
        r@ == tokens_in_graph(graph@, tokens@),
{
    proof {
        tokens.lemma_entries_are_map();
    }
    let mut kept: KeyedList<TokenAddress, TokenInfo> = KeyedList::new();
    let mut i: usize = 0;
    while i < tokens.len()
        invariant
            tokens.wf(),
            kept.wf(),
            i <= tokens.entries().len(),
            forall|a: TokenAddress|
                #[trigger] kept@.contains_key(a) ==> tokens@.contains_key(a) && graph@.dom().contains(
                    TokenId::Evm(a),
                ) && kept@[a] == tokens@[a],
            forall|j: int|
                0 <= j < i && graph@.dom().contains(
                    TokenId::Evm((#[trigger] tokens.entries()[j]).0),
                ) ==> kept@.contains_key(tokens.entries()[j].0),
        decreases tokens.entries().len() - i,
    {
        let (address, info) = tokens.entry(i);
        if graph.contains_token(TokenId::Evm(address)) {
            kept.insert(address, info);
        }
        i = i + 1;
    }
    proof {
        assert forall|a: TokenAddress|
            tokens@.contains_key(a) && graph@.dom().contains(
                TokenId::Evm(a),
            ) implies #[trigger] kept@.contains_key(a) by {
            let j = choose|j: int| 0 <= j < tokens.entries().len() && tokens.entries()[j].0 == a;
            assert(tokens.entries()[j].0 == a);
        }
        assert(kept@ =~= tokens_in_graph(graph@, tokens@));
    }
    kept
}

/// The pools named by a map's entries, in their order.
pub open spec fn entry_pool_ids<K: PoolKey, V>(entries: Seq<(K, V)>) -> Seq<PoolId> {
    entries.map_values(|e: (K, V)| e.0.pool_id_spec())
}

/// Every known pool, protocol after protocol, each in the order of its
/// map's entries.
pub open spec fn spec_pool_ids(dex: DexInfo) -> Seq<PoolId> {
    entry_pool_ids(dex.uniswap_v2_pools.entries()) + entry_pool_ids(dex.uniswap_v3_pools.entries())
        + entry_pool_ids(dex.uniswap_v4_pools.entries()) + entry_pool_ids(
        dex.pancakeswap_pools.entries(),
    )
}

/// Appends the pools named by a map's entries.
fn push_pool_ids<K: PoolKey, V: Copy>(pools: &KeyedList<K, V>, ids: &mut Vec<PoolId>)
    requires
        pools.wf(),
    ensures
        final(ids)@ == old(ids)@ + entry_pool_ids(pools.entries()),
{
    let ghost start = ids@;
    let mut i: usize = 0;
    while i < pools.len()
        invariant
            pools.wf(),
            i <= pools.entries().len(),
            ids@ == start + entry_pool_ids(pools.entries()).take(i as int),
        decreases pools.entries().len() - i,
    {
        let (key, _) = pools.entry(i);
        ids.push(key.pool_id());
        proof {
            assert(entry_pool_ids(pools.entries()).take(i + 1) =~= entry_pool_ids(
                pools.entries(),
            ).take(i as int).push(key.pool_id_spec()));
        }
        i = i + 1;
    }
    proof {
        assert(entry_pool_ids(pools.entries()).take(i as int) =~= entry_pool_ids(pools.entries()));
    }
}

/// The pools a map's entries name are exactly the pools of its keys.
proof fn lemma_entry_pool_ids<K: PoolKey, V: Copy>(pools: KeyedList<K, V>, id: PoolId)
    requires
        pools.wf(),
    ensures
        entry_pool_ids(pools.entries()).contains(id) <==> exists|k: K|
            #[trigger] pools@.contains_key(k) && k.pool_id_spec() == id,
{
    pools.lemma_entries_are_map();
    let ids = entry_pool_ids(pools.entries());
    if ids.contains(id) {
        let x = choose|x: int| 0 <= x < ids.len() && ids[x] == id;
        assert(pools@.contains_key(pools.entries()[x].0));
    }
    if exists|k: K| #[trigger] pools@.contains_key(k) && k.pool_id_spec() == id {
        let k = choose|k: K| #[trigger] pools@.contains_key(k) && k.pool_id_spec() == id;
        let j = choose|j: int| 0 <= j < pools.entries().len() && pools.entries()[j].0 == k;
        assert(ids[j] == id);
    }
}

impl DexInfo {
    /// Every known pool, protocol after protocol (Uniswap V2, V3, V4, then
    /// PancakeSwap), each protocol's in the order its map keeps them: the
    /// pools whose reserves are to be followed.
    pub fn pool_ids(&self) -> (r: Vec<PoolId>)
        requires
            self.wf(),
        ensures
            r@ == spec_pool_ids(*self),
            forall|id: PoolId| r@.contains(id) <==> spec_pool_tokens(*self, id) is Some,
    {
        let mut ids: Vec<PoolId> = Vec::new();
        push_pool_ids(&self.uniswap_v2_pools, &mut ids);
        push_pool_ids(&self.uniswap_v3_pools, &mut ids);
        push_pool_ids(&self.uniswap_v4_pools, &mut ids);
        push_pool_ids(&self.pancakeswap_pools, &mut ids);
        proof {
            assert(ids@ =~= spec_pool_ids(*self));
            let a = entry_pool_ids(self.uniswap_v2_pools.entries());
            let b = entry_pool_ids(self.uniswap_v3_pools.entries());
            let c = entry_pool_ids(self.uniswap_v4_pools.entries());
            let d = entry_pool_ids(self.pancakeswap_pools.entries());
            assert forall|id: PoolId| ids@.contains(id) <==> spec_pool_tokens(*self, id) is Some by {
                lemma_concat_contains(a, b, id);
                lemma_concat_contains(a + b, c, id);
                lemma_concat_contains(a + b + c, d, id);
                lemma_entry_pool_ids(self.uniswap_v2_pools, id);
                lemma_entry_pool_ids(self.uniswap_v3_pools, id);
                lemma_entry_pool_ids(self.uniswap_v4_pools, id);
                lemma_entry_pool_ids(self.pancakeswap_pools, id);
                match id {
                    PoolId::UniswapV2(p) => {
                        assert(self.uniswap_v2_pools@.contains_key(p) ==> p.pool_id_spec() == id);
                    },
                    PoolId::UniswapV3(p) => {
                        assert(self.uniswap_v3_pools@.contains_key(p) ==> p.pool_id_spec() == id);
                    },
                    PoolId::UniswapV4(p) => {
                        assert(self.uniswap_v4_pools@.contains_key(p) ==> p.pool_id_spec() == id);
                    },
                    PoolId::PancakeSwap(p) => {
                        assert(self.pancakeswap_pools@.contains_key(p) ==> p.pool_id_spec() == id);
                    },
                }
            }
        }
        ids
    }

    /// What is known of the tokens and pools that the graph still has: the
    /// tokens it still has, and the pools whose connection from their first
    /// token to their second it still carries, with what was known of each.
    pub fn restricted_to_graph(&self, graph: &DexGraph) -> (r: DexInfo)
        requires
            self.wf(),
        ensures
            r.wf(),
            r.tokens@ == tokens_in_graph(graph@, self.tokens@),
            r.uniswap_v2_pools@ == pools_in_graph(graph@, self.uniswap_v2_pools@),
            r.uniswap_v3_pools@ == pools_in_graph(graph@, self.uniswap_v3_pools@),
            r.uniswap_v4_pools@ == pools_in_graph(graph@, self.uniswap_v4_pools@),
            r.pancakeswap_pools@ == pools_in_graph(graph@, self.pancakeswap_pools@),
    {
        DexInfo {
            tokens: keep_tokens_in_graph(graph, &self.tokens),
            uniswap_v2_pools: keep_pools_in_graph(graph, &self.uniswap_v2_pools),
            uniswap_v3_pools: keep_pools_in_graph(graph, &self.uniswap_v3_pools),
            uniswap_v4_pools: keep_pools_in_graph(graph, &self.uniswap_v4_pools),
            pancakeswap_pools: keep_pools_in_graph(graph, &self.pancakeswap_pools),
        }
    }
}

} // verus!
