//! What the library makes of a subgraph's pages of pools: the tokens they
//! list, each kept with the decimals of its first listing, and the paging.
use crate::keyed_list::KeyedList;
use crate::primitives::{Address, TokenAddress, TokenInfo};
use crate::blockchain::Blockchain;
use vstd::prelude::*;

verus! {

/// A token as a subgraph lists it.
#[derive(Debug, Clone, Copy, PartialEq, Eq, Structural)]
pub struct TokenData {
    pub address: Address,
    pub decimals: u32,
}

/// The token map with `t` added, unless it already holds `t`.
pub open spec fn with_token_once(
    m: Map<TokenAddress, TokenInfo>,
    t: TokenAddress,
    decimals: u32,
) -> Map<TokenAddress, TokenInfo> {
    if m.contains_key(t) {
        m
    } else {
        m.insert(t, TokenInfo { address: t, decimals })
    }
}

/// The token map with the tokens of each listed pool added in turn, the
/// first token of a pool before its second, each kept as first listed.
pub open spec fn with_pool_tokens(
    m: Map<TokenAddress, TokenInfo>,
    pairs: Seq<(TokenData, TokenData)>,
    blockchain: Blockchain,
) -> Map<TokenAddress, TokenInfo>
    decreases pairs.len(),
{
    if pairs.len() == 0 {
        m
    } else {
        let before = with_pool_tokens(m, pairs.drop_last(), blockchain);
        let (t0, t1) = pairs.last();
        with_token_once(
            with_token_once(before, TokenAddress(t0.address, blockchain), t0.decimals),
            TokenAddress(t1.address, blockchain),
            t1.decimals,
        )
    }
}

/// Adds a token to the map unless the map already holds it.
pub fn add_token_once(tokens: &mut KeyedList<TokenAddress, TokenInfo>, t: TokenAddress, decimals: u32)
    requires
        old(tokens).wf(),
    ensures
        final(tokens).wf(),
        final(tokens)@ == with_token_once(old(tokens)@, t, decimals),
{
    match tokens.get(&t) {
        Some(_) => {},
        None => {
            tokens.insert(t, TokenInfo { address: t, decimals });
        },
    }
}

/// Adds the two tokens of a listed pool, first the first.
pub fn add_pool_tokens(
    tokens: &mut KeyedList<TokenAddress, TokenInfo>,
    token0: TokenData,
    token1: TokenData,
    blockchain: Blockchain,
)
    requires
        old(tokens).wf(),
    ensures
        final(tokens).wf(),
        final(tokens)@ == with_token_once(
            with_token_once(old(tokens)@, TokenAddress(token0.address, blockchain), token0.decimals),
            TokenAddress(token1.address, blockchain),
            token1.decimals,
        ),
{
    add_token_once(tokens, TokenAddress(token0.address, blockchain), token0.decimals);
    add_token_once(tokens, TokenAddress(token1.address, blockchain), token1.decimals);
}

/// Where the next page of a subgraph query starts: after the items just
/// loaded, or nowhere when the page was empty and the listing is over.
pub fn next_page_skip(skip: u32, items_loaded: usize) -> (r: Option<u32>)
    requires
        skip + items_loaded <= u32::MAX,
    ensures
        items_loaded == 0 ==> r is None,
        items_loaded > 0 ==> r == Some((skip + items_loaded) as u32),
{
    if items_loaded == 0 {
        None
    } else {
        Some(skip + items_loaded as u32)
    }
}

/// Listing pools never changes a token the map already holds, and the map
/// ends up holding exactly its former tokens and those of the listed pools.
pub proof fn lemma_with_pool_tokens(
    m: Map<TokenAddress, TokenInfo>,
    pairs: Seq<(TokenData, TokenData)>,
    blockchain: Blockchain,
)
    ensures
        forall|t: TokenAddress|
            #[trigger] m.contains_key(t) ==> with_pool_tokens(m, pairs, blockchain).contains_key(t)
                && with_pool_tokens(m, pairs, blockchain)[t] == m[t],
        forall|t: TokenAddress|
            #[trigger] with_pool_tokens(m, pairs, blockchain).contains_key(t) <==> (m.contains_key(t)
                || exists|i: int|
                0 <= i < pairs.len() && (TokenAddress((#[trigger] pairs[i]).0.address, blockchain) == t
                    || TokenAddress(pairs[i].1.address, blockchain) == t)),
    decreases pairs.len(),
{
    if pairs.len() > 0 {
        let prev = pairs.drop_last();
        lemma_with_pool_tokens(m, prev, blockchain);
        let r = with_pool_tokens(m, pairs, blockchain);
        let before = with_pool_tokens(m, prev, blockchain);
        let last_index = pairs.len() - 1;
        let (t0, t1) = pairs[last_index];
        let a0 = TokenAddress(t0.address, blockchain);
        let a1 = TokenAddress(t1.address, blockchain);
        assert(pairs.last() == pairs[last_index]);
        assert(r == with_token_once(with_token_once(before, a0, t0.decimals), a1, t1.decimals));
        assert forall|t: TokenAddress| #[trigger] r.contains_key(t) <==> (before.contains_key(t) || t == a0
            || t == a1) by {}
        assert forall|t: TokenAddress| #[trigger] r.contains_key(t) <==> (m.contains_key(t) || exists|i: int|
            0 <= i < pairs.len() && (TokenAddress((#[trigger] pairs[i]).0.address, blockchain) == t
                || TokenAddress(pairs[i].1.address, blockchain) == t)) by {
            if before.contains_key(t) && !m.contains_key(t) {
                let i = choose|i: int|
                    0 <= i < prev.len() && (TokenAddress((#[trigger] prev[i]).0.address, blockchain) == t
                        || TokenAddress(prev[i].1.address, blockchain) == t);
                assert(pairs[i] == prev[i]);
            }
            if exists|i: int|
                0 <= i < pairs.len() && (TokenAddress((#[trigger] pairs[i]).0.address, blockchain) == t
                    || TokenAddress(pairs[i].1.address, blockchain) == t) {
                let i = choose|i: int|
                    0 <= i < pairs.len() && (TokenAddress((#[trigger] pairs[i]).0.address, blockchain) == t
                        || TokenAddress(pairs[i].1.address, blockchain) == t);
                if i < last_index {
                    assert(prev[i] == pairs[i]);
                    assert(before.contains_key(t));
                }
            }
        }
    }
}

} // verus!
