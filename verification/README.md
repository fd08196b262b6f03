# evm

A verified library for following decentralised exchanges across EVM
blockchains (Ethereum, BSC, Arbitrum): Uniswap V2/V3/V4 and PancakeSwap V3
pools, Chainlink token bridges, and the token graph that joins them.

- `src/` is the library, written in Verus and verified: tick math and
  Q64.96 fixed-point conversions, pool reserves and swap limits, ABI call
  data and return-data decoding, Multicall3 batches, the routing of pool
  events to reserve calls, subgraph pool listings, bridge discovery, and the
  token graph with its pruning (`graph.rs`), whose result is proved to be the
  largest subgraph with nothing left to prune, and the tokens and pools
  that remain once it is pruned (`pruned_pools.rs`).
- Arithmetic on 256-bit integers and decimals goes through `alloy` (ruint)
  and `rust_decimal`, Keccak hashing and the dynamic ABI coding of
  Multicall3 through `alloy`, JSON numbers through `serde_json`, and the
  graph store and its strongly connected components through `petgraph`;
  each such call sits behind a small trusted function whose contract says
  what the library relies on.
- `tests/` exercises the library on concrete values, several of them
  against `alloy`'s own ABI encoder.
- `app/` is the program around it: HTTP JSON-RPC and subgraph queries, the
  polling loop that follows new blocks, and the conversion of reserves to
  floating point.
