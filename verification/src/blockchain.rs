use std::cmp::Ordering;
use std::marker::PhantomData;
use vstd::prelude::*;
use vstd::std_specs::cmp::{PartialEqSpec, PartialOrdSpec};

verus! {

/// The EVM blockchains the library knows about.
#[derive(Debug, Clone, Copy, PartialEq, Eq, Structural, PartialOrd, Ord, Hash)]
pub enum Blockchain {
    Ethereum,
    BSC,
    Arbitrum,
}

/// All known blockchains, in declaration order.
pub const ALL_BLOCKCHAINS: [Blockchain; 3] = [Blockchain::Ethereum, Blockchain::BSC, Blockchain::Arbitrum];

/// The lower-case network name of a blockchain.
pub open spec fn spec_blockchain_name(b: Blockchain) -> Seq<char> {
    match b {
        Blockchain::Ethereum => "ethereum"@,
        Blockchain::BSC => "bsc"@,
        Blockchain::Arbitrum => "arbitrum"@,
    }
}

/// Raised by `Blockchain::same_as` when the two blockchains differ.
#[derive(Debug, Clone, Copy, PartialEq, Eq, Structural)]
pub struct BlockchainMismatch {
    pub expected: Blockchain,
    pub found: Blockchain,
}

impl Blockchain {
    pub fn name(&self) -> (r: &'static str)
        ensures
            r@ == spec_blockchain_name(*self),
    {
        match self {
            Blockchain::Ethereum => "ethereum",
            Blockchain::BSC => "bsc",
            Blockchain::Arbitrum => "arbitrum",
        }
    }

    pub fn same_as(self, other: Blockchain) -> (r: Result<Blockchain, BlockchainMismatch>)
        ensures
            self == other ==> r == Ok::<Blockchain, BlockchainMismatch>(self),
            self != other ==> r == Err::<Blockchain, BlockchainMismatch>(
                BlockchainMismatch { expected: self, found: other },
            ),
    {
        if self == other {
            Ok(self)
        } else {
            Err(BlockchainMismatch { expected: self, found: other })
        }
    }
}

/// A network marker type that is bound to one blockchain.
pub trait BlockchainNetwork {
    spec fn spec_blockchain() -> Blockchain;

    fn blockchain() -> (b: Blockchain)
        ensures
            b == Self::spec_blockchain(),
    ;
}

/// Marker for a generic EVM network, parameterised by the chain marker.
#[derive(Debug, PartialEq, Eq, PartialOrd, Ord, Hash)]
pub struct EVMNetwork<T> {
    _phantom: PhantomData<T>,
}

impl<T> Clone for EVMNetwork<T> {
    fn clone(&self) -> (r: Self)
        ensures
            r == *self,
    {
        *self
    }
}

impl<T> Copy for EVMNetwork<T> {

}

#[derive(Debug, Clone, Copy, PartialEq, Eq, PartialOrd, Ord, Hash)]
pub struct EthereumNetwork;

#[derive(Debug, Clone, Copy, PartialEq, Eq, PartialOrd, Ord, Hash)]
pub struct BSCNetwork;

#[derive(Debug, Clone, Copy, PartialEq, Eq, PartialOrd, Ord, Hash)]
pub struct ArbitrumNetwork;

pub type Ethereum = EVMNetwork<EthereumNetwork>;

pub type BSC = EVMNetwork<BSCNetwork>;

pub type Arbitrum = EVMNetwork<ArbitrumNetwork>;

impl BlockchainNetwork for EVMNetwork<EthereumNetwork> {
    open spec fn spec_blockchain() -> Blockchain {
        Blockchain::Ethereum
    }

    fn blockchain() -> (b: Blockchain) {
        Blockchain::Ethereum
    }
}

impl BlockchainNetwork for EVMNetwork<BSCNetwork> {
    open spec fn spec_blockchain() -> Blockchain {
        Blockchain::BSC
    }

    fn blockchain() -> (b: Blockchain) {
        Blockchain::BSC
    }
}

impl BlockchainNetwork for EVMNetwork<ArbitrumNetwork> {
    open spec fn spec_blockchain() -> Blockchain {
        Blockchain::Arbitrum
    }

    fn blockchain() -> (b: Blockchain) {
        Blockchain::Arbitrum
    }
}

/// A block number tagged with the network it belongs to. Block numbers of
/// one network compare as their numbers do.
#[derive(Debug, Eq, Ord, Hash)]
pub struct BlockNumber<B> {
    number: u64,
    _phantom: PhantomData<B>,
}

/// How two numbers compare.
pub open spec fn number_order(a: u64, b: u64) -> Ordering {
    if a < b {
        Ordering::Less
    } else if a == b {
        Ordering::Equal
    } else {
        Ordering::Greater
    }
}

impl<B> PartialEq for BlockNumber<B> {
    fn eq(&self, other: &Self) -> (r: bool) {
        self.number == other.number
    }
}

impl<B> vstd::std_specs::cmp::PartialEqSpecImpl for BlockNumber<B> {
    open spec fn obeys_eq_spec() -> bool {
        true
    }

    open spec fn eq_spec(&self, other: &Self) -> bool {
        self.spec_value() == other.spec_value()
    }
}

impl<B> PartialOrd for BlockNumber<B> {
    fn partial_cmp(&self, other: &Self) -> (r: Option<Ordering>) {
        if self.number < other.number {
            Some(Ordering::Less)
        } else if self.number == other.number {
            Some(Ordering::Equal)
        } else {
            Some(Ordering::Greater)
        }
    }
}

impl<B> vstd::std_specs::cmp::PartialOrdSpecImpl for BlockNumber<B> {
    open spec fn obeys_partial_cmp_spec() -> bool {
        true
    }

    open spec fn partial_cmp_spec(&self, other: &Self) -> Option<Ordering> {
        Some(number_order(self.spec_value(), other.spec_value()))
    }
}

impl<B> Clone for BlockNumber<B> {
    fn clone(&self) -> (r: Self)
        ensures
            r == *self,
    {
        *self
    }
}

impl<B> Copy for BlockNumber<B> {

}

impl<B> BlockNumber<B> {
    pub closed spec fn spec_value(&self) -> u64 {
        self.number
    }

    /// Block numbers are equal exactly when their numbers are, and are
    /// ordered as their numbers are.
    pub proof fn lemma_order_follows_value(x: Self, y: Self)
        ensures
            x.eq_spec(&y) <==> x.spec_value() == y.spec_value(),
            x.partial_cmp_spec(&y) == Some(number_order(x.spec_value(), y.spec_value())),
    {
    }
}

impl<B: BlockchainNetwork> BlockNumber<B> {
    pub fn new(number: u64) -> (r: Self)
        ensures
            r.spec_value() == number,
    {
        BlockNumber { number, _phantom: PhantomData }
    }

    pub fn value(&self) -> (r: u64)
        ensures
            r == self.spec_value(),
    {
        self.number
    }

    /// The later of two block numbers.
    pub fn pick_latest(a: Self, b: Self) -> (r: Self)
        ensures
            r.spec_value() == if a.spec_value() >= b.spec_value() { a.spec_value() } else { b.spec_value() },
    {
        if a.number >= b.number { a } else { b }
    }
}

pub const ETHEREUM_CHAIN_SELECTOR: u64 = 5009297550715157269;

pub const BSC_CHAIN_SELECTOR: u64 = 11344663589394136015;

pub const ARBITRUM_CHAIN_SELECTOR: u64 = 4949039107694359620;

/// The Chainlink CCIP chain selector of a blockchain.
pub open spec fn spec_chain_selector(blockchain: Blockchain) -> u64 {
    match blockchain {
        Blockchain::Ethereum => ETHEREUM_CHAIN_SELECTOR,
        Blockchain::BSC => BSC_CHAIN_SELECTOR,
        Blockchain::Arbitrum => ARBITRUM_CHAIN_SELECTOR,
    }
}

pub fn chain_selector(blockchain: Blockchain) -> (r: u64)
    ensures
        r == spec_chain_selector(blockchain),
{
    match blockchain {
        Blockchain::Ethereum => ETHEREUM_CHAIN_SELECTOR,
        Blockchain::BSC => BSC_CHAIN_SELECTOR,
        Blockchain::Arbitrum => ARBITRUM_CHAIN_SELECTOR,
    }
}

/// Distinct blockchains have distinct chain selectors, so a selector
/// identifies its blockchain.
pub proof fn lemma_chain_selector_injective(a: Blockchain, b: Blockchain)
    ensures
        spec_chain_selector(a) == spec_chain_selector(b) <==> a == b,
{
}

} // verus!
