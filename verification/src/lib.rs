//! Verified core of a multi-chain DEX state tracker: blockchain identities,
//! Uniswap tick math, pool reserve computations, call-data bookkeeping,
//! token bridges and the pruned graph of tokens that trades can run through.

pub mod blockchain;
pub mod uint;
pub mod tick_math;
pub mod pool_state;
pub mod decimal;
pub mod fixed_point;
pub mod primitives;
pub mod uniswap_v3;
pub mod pancakeswap_v3;
pub mod uniswap_v2;
pub mod uniswap_v4;
pub mod pool_id;
pub mod keyed_list;
pub mod abi;
pub mod reserves;
pub mod dex_info;
pub mod pool_reserves_calls;
pub mod event;
pub mod protocol_addresses;
pub mod state_manager;
pub mod chainlink;
pub mod json_values;
pub mod hub_tokens;
pub mod hub_pools;
pub mod graph;
pub mod pruned_pools;
pub mod subgraph;
pub mod router;
pub mod multicall;
