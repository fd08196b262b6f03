//! Tokens of every blockchain the hub connects.
use crate::primitives::{TokenAddress, B256};
use vstd::prelude::*;

verus! {

/// The Solana cluster of a Solana token.
#[derive(Debug, Clone, Copy, PartialEq, Eq, Structural, Hash, PartialOrd, Ord)]
pub enum SolanaBlockchain {
    Solana,
}

/// A token of any supported blockchain: an EVM token, or a Solana mint.
#[derive(Debug, Clone, Copy, PartialEq, Eq, Structural, Hash, PartialOrd, Ord)]
pub enum TokenId {
    Evm(TokenAddress),
    Solana(SolanaBlockchain, B256),
}

} // verus!
