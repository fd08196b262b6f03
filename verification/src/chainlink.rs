//! Chainlink CCIP token bridges: the calls that list the bridged tokens of a
//! blockchain, their token pools and their remote tokens, and the assembly
//! of bridges from the answers.
use crate::abi::{
    address_word, decode_address_array, decode_bytes, push_address_word, push_u64_word, selector,
    spec_address_array, spec_bytes_return, spec_selector, u64_word,
};
use crate::blockchain::{spec_chain_selector, chain_selector, Blockchain, BlockchainNetwork};
use crate::primitives::{Address, TokenAddress};
use crate::reserves::Call;
use std::marker::PhantomData;
use vstd::prelude::*;
use vstd::string::StringSliceAdditionalSpecFns;

verus! {

/// A Chainlink token pool on a blockchain.
#[derive(Debug, Clone, Copy, PartialEq, Eq, Structural, Hash, PartialOrd, Ord)]
pub struct PoolAddress(pub Address, pub Blockchain);

/// The TokenAdminRegistry contract of a blockchain.
pub open spec fn spec_token_admin_registry_address(blockchain: Blockchain) -> Address {
    match blockchain {
        Blockchain::Ethereum => Address { hi: 0xb22764f9, mid: 0x8dD05c789929716D, lo: 0x677382Df22C05Cb6 },
        Blockchain::BSC => Address { hi: 0x736Fd866, mid: 0x0c443547a85e4Eaf, lo: 0x70A49C1b7Bb008fc },
        Blockchain::Arbitrum => Address { hi: 0x39AE1032, mid: 0xcF4B334a1Ed41cdD, lo: 0x0833bdD7c7E7751E },
    }
}

/// The TokenAdminRegistry contract, which lists the bridged tokens and
/// their pools, on a blockchain.
pub fn token_admin_registry_address(blockchain: Blockchain) -> (r: Address)
    ensures
        r == spec_token_admin_registry_address(blockchain),
{
    match blockchain {
        Blockchain::Ethereum => Address { hi: 0xb22764f9, mid: 0x8dD05c789929716D, lo: 0x677382Df22C05Cb6 },
        Blockchain::BSC => Address { hi: 0x736Fd866, mid: 0x0c443547a85e4Eaf, lo: 0x70A49C1b7Bb008fc },
        Blockchain::Arbitrum => Address { hi: 0x39AE1032, mid: 0xcF4B334a1Ed41cdD, lo: 0x0833bdD7c7E7751E },
    }
}

/// Why the answer of a call could not be decoded.
#[derive(Debug, Clone, Copy, PartialEq, Eq, Structural)]
pub enum ChainlinkDecodeError {
    /// The answer is not a well-formed ABI value of the expected type.
    InvalidReturnData,
}

/// One page of the bridged tokens of blockchain `B`.
pub struct GetConfiguredTokensCallData<B: BlockchainNetwork> {
    pub start_index: u64,
    pub max_count: u64,
    pub blockchain_marker: PhantomData<B>,
}

impl<B: BlockchainNetwork> GetConfiguredTokensCallData<B> {
    /// The page of at most `max_count` tokens starting at `start_index`.
    pub fn new(start_index: u64, max_count: u64) -> (r: Self)
        ensures
            r.start_index == start_index,
            r.max_count == max_count,
    {
        Self { start_index, max_count, blockchain_marker: PhantomData }
    }

    /// The page after this one.
    pub fn next(&self) -> (r: Self)
        requires
            self.start_index + self.max_count <= u64::MAX,
        ensures
            r.start_index == self.start_index + self.max_count,
            r.max_count == self.max_count,
    {
        Self::new(self.start_index + self.max_count, self.max_count)
    }

    /// The largest number of tokens of the page.
    pub fn max_count(&self) -> (r: u64)
        ensures
            r == self.max_count,
    {
        self.max_count
    }

    /// The contract that answers the call.
    pub fn contract_address(&self) -> (r: Address)
        ensures
            r == spec_token_admin_registry_address(B::spec_blockchain()),
    {
        token_admin_registry_address(B::blockchain())
    }

    /// `getAllConfiguredTokens(startIndex, maxCount)`.
    pub fn into_call_data(&self) -> (r: Vec<u8>)
        ensures
            r@ == spec_selector("getAllConfiguredTokens(uint64,uint64)".spec_bytes()) + u64_word(
                self.start_index,
            ) + u64_word(self.max_count),
    {
        let mut data = selector("getAllConfiguredTokens(uint64,uint64)");
        push_u64_word(&mut data, self.start_index);
        push_u64_word(&mut data, self.max_count);
        data
    }

    /// The tokens of the page, on blockchain `B`.
    pub fn decode_call_output(&self, data: &[u8]) -> (r: Result<
        Vec<TokenAddress>,
        ChainlinkDecodeError,
    >)
        ensures
            spec_address_array(data@) is None ==> r == Err::<Vec<TokenAddress>, ChainlinkDecodeError>(
                ChainlinkDecodeError::InvalidReturnData,
            ),
            spec_address_array(data@) matches Some(vals) ==> (r matches Ok(tokens)
                && tokens@.len() == vals.len() && forall|k: int|
                0 <= k < vals.len() ==> #[trigger] tokens@[k].0.value() == vals[k]
                    && tokens@[k].1 == B::spec_blockchain()),
    {
        let addresses = match decode_address_array(data) {
            Some(a) => a,
            None => {
                return Err(ChainlinkDecodeError::InvalidReturnData);
            },
        };
        let blockchain = B::blockchain();
        let mut tokens: Vec<TokenAddress> = Vec::new();
        let mut k: usize = 0;
        while k < addresses.len()
            invariant
                k <= addresses@.len(),
                blockchain == B::spec_blockchain(),
                tokens@.len() == k,
                forall|j: int|
                    0 <= j < k ==> #[trigger] tokens@[j] == TokenAddress(addresses@[j], blockchain),
            decreases addresses@.len() - k,
        {
            tokens.push(TokenAddress(addresses[k], blockchain));
            k = k + 1;
        }
        Ok(tokens)
    }
}

/// Why the pools of some tokens cannot be asked for.
#[derive(Debug, Clone, Copy, PartialEq, Eq, Structural)]
pub enum GetPoolsError {
    /// A token does not live on the blockchain of the call.
    InvalidTokenBlockchain(Blockchain),
}

/// The token pools of tokens of blockchain `B`.
pub struct GetPoolsCallData<'a, B: BlockchainNetwork> {
    pub token_addresses: &'a [TokenAddress],
    pub blockchain_marker: PhantomData<B>,
}

/// The call data words of a list of addresses.
pub open spec fn address_words(addresses: Seq<TokenAddress>) -> Seq<u8>
    decreases addresses.len(),
{
    if addresses.len() == 0 {
        Seq::empty()
    } else {
        address_words(addresses.drop_last()) + address_word(addresses.last().0)
    }
}

impl<'a, B: BlockchainNetwork> GetPoolsCallData<'a, B> {
    /// The call for `token_addresses`, all of which must live on `B`.
    pub fn create(token_addresses: &'a [TokenAddress]) -> (r: Result<Self, GetPoolsError>)
        ensures
            r is Ok <==> forall|k: int|
                0 <= k < token_addresses@.len() ==> #[trigger] token_addresses@[k].1
                    == B::spec_blockchain(),
            r matches Ok(c) ==> c.token_addresses@ == token_addresses@,
            r matches Err(GetPoolsError::InvalidTokenBlockchain(b)) ==> exists|k: int|
                0 <= k < token_addresses@.len() && #[trigger] token_addresses@[k].1 == b && b
                    != B::spec_blockchain(),
    {
        let blockchain = B::blockchain();
        let mut k: usize = 0;
        while k < token_addresses.len()
            invariant
                k <= token_addresses@.len(),
                blockchain == B::spec_blockchain(),
                forall|j: int| 0 <= j < k ==> #[trigger] token_addresses@[j].1 == blockchain,
            decreases token_addresses@.len() - k,
        {
            let TokenAddress(_, token_blockchain) = token_addresses[k];
            if token_blockchain != blockchain {
                return Err(GetPoolsError::InvalidTokenBlockchain(token_blockchain));
            }
            k = k + 1;
        }
        Ok(Self { token_addresses, blockchain_marker: PhantomData })
    }

    /// The contract that answers the call.
    pub fn contract_address(&self) -> (r: Address)
        ensures
            r == spec_token_admin_registry_address(B::spec_blockchain()),
    {
        token_admin_registry_address(B::blockchain())
    }

    /// `getPools(tokens)`: the selector, the offset of the array, its
    /// length and one word per token address.
    pub fn into_call_data(&self) -> (r: Vec<u8>)
        requires
            self.token_addresses@.len() <= u64::MAX,
        ensures
            r@ == spec_selector("getPools(address[])".spec_bytes()) + u64_word(32) + u64_word(
                self.token_addresses@.len() as u64,
            ) + address_words(self.token_addresses@),
    {
        let mut data = selector("getPools(address[])");
        push_u64_word(&mut data, 32);
        push_u64_word(&mut data, self.token_addresses.len() as u64);
        let ghost head = data@;
        let mut k: usize = 0;
        while k < self.token_addresses.len()
            invariant
                k <= self.token_addresses@.len(),
                data@ == head + address_words(self.token_addresses@.subrange(0, k as int)),
            decreases self.token_addresses@.len() - k,
        {
            proof {
                let s = self.token_addresses@.subrange(0, k + 1);
                assert(s.drop_last() =~= self.token_addresses@.subrange(0, k as int));
            }
            let TokenAddress(address, _) = self.token_addresses[k];
            push_address_word(&mut data, address);
            k = k + 1;
            proof {
                assert(data@ =~= head + address_words(self.token_addresses@.subrange(0, k as int)));
            }
        }
        proof {
            assert(self.token_addresses@.subrange(0, self.token_addresses@.len() as int)
                =~= self.token_addresses@);
        }
        data
    }

    /// The pool of each token, `None` where the registry answers the zero
    /// address (a token without a pool).
    pub fn decode_call_output(&self, data: &[u8]) -> (r: Result<
        Vec<Option<PoolAddress>>,
        ChainlinkDecodeError,
    >)
        ensures
            spec_address_array(data@) is None ==> r == Err::<
                Vec<Option<PoolAddress>>,
                ChainlinkDecodeError,
            >(ChainlinkDecodeError::InvalidReturnData),
            spec_address_array(data@) matches Some(vals) ==> (r matches Ok(pools) && pools@.len()
                == vals.len() && forall|k: int|
                0 <= k < vals.len() ==> (#[trigger] pools@[k] matches Some(p) ==> p.0.value()
                    == vals[k] && vals[k] != 0 && p.1 == B::spec_blockchain()) && (pools@[k] is None
                    ==> vals[k] == 0)),
    {
        let addresses = match decode_address_array(data) {
            Some(a) => a,
            None => {
                return Err(ChainlinkDecodeError::InvalidReturnData);
            },
        };
        let blockchain = B::blockchain();
        let mut pools: Vec<Option<PoolAddress>> = Vec::new();
        let mut k: usize = 0;
        while k < addresses.len()
            invariant
                k <= addresses@.len(),
                blockchain == B::spec_blockchain(),
                pools@.len() == k,
                forall|j: int|
                    0 <= j < k ==> (#[trigger] pools@[j] matches Some(p) ==> p == PoolAddress(
                        addresses@[j],
                        blockchain,
                    ) && addresses@[j].value() != 0) && (pools@[j] is None
                        ==> addresses@[j].value() == 0),
            decreases addresses@.len() - k,
        {
            let a = addresses[k];
            if a.hi == 0 && a.mid == 0 && a.lo == 0 {
                pools.push(None);
            } else {
                pools.push(Some(PoolAddress(a, blockchain)));
            }
            k = k + 1;
        }
        Ok(pools)
    }
}

/// Why the remote token of a pool could not be decoded.
#[derive(Debug, Clone, Copy, PartialEq, Eq, Structural)]
pub struct RemoteTokensDataDecodeError {
    pub pool_address: PoolAddress,
    pub remote_chain_selector: u64,
    pub kind: RemoteTokenErrorKind,
}

/// What went wrong with the answer of `getRemoteToken`.
#[derive(Debug, Clone, Copy, PartialEq, Eq, Structural)]
pub enum RemoteTokenErrorKind {
    MissingData,
    InvalidResponseSize,
    DecodeFailed,
}

/// The remote token of a token pool for one remote blockchain.
pub struct RemoteTokensMulticallData<B: BlockchainNetwork> {
    pub pool_address: PoolAddress,
    pub remote_chain_selector: u64,
    pub blockchain_marker: PhantomData<B>,
}

impl<B: BlockchainNetwork> RemoteTokensMulticallData<B> {
    /// The call for the pool's token on the blockchain of
    /// `remote_chain_selector`.
    pub fn new(pool_address: PoolAddress, remote_chain_selector: u64) -> (r: Self)
        ensures
            r.pool_address == pool_address,
            r.remote_chain_selector == remote_chain_selector,
    {
        Self { pool_address, remote_chain_selector, blockchain_marker: PhantomData }
    }

    /// The error of this call with the given kind.
    pub fn decode_error(&self, kind: RemoteTokenErrorKind) -> (r: RemoteTokensDataDecodeError)
        ensures
            r == (RemoteTokensDataDecodeError {
                pool_address: self.pool_address,
                remote_chain_selector: self.remote_chain_selector,
                kind,
            }),
    {
        RemoteTokensDataDecodeError {
            pool_address: self.pool_address,
            remote_chain_selector: self.remote_chain_selector,
            kind,
        }
    }

    /// The number of calls.
    pub fn size(&self) -> (r: usize)
        ensures
            r == 1,
    {
        1
    }

    /// `getRemoteToken(remoteChainSelector)` on the pool.
    pub fn to_calls(&self) -> (r: Vec<Call>)
        ensures
            r@.len() == 1,
            r@[0].target == self.pool_address.0,
            r@[0].call_data@ == spec_selector("getRemoteToken(uint64)".spec_bytes()) + u64_word(
                self.remote_chain_selector,
            ),
    {
        let mut data = selector("getRemoteToken(uint64)");
        push_u64_word(&mut data, self.remote_chain_selector);
        let mut calls = Vec::new();
        calls.push(Call { target: self.pool_address.0, call_data: data });
        calls
    }

    /// The remote token's bytes and its chain selector; `None` when the pool
    /// has no token on that blockchain (an empty answer).
    pub fn decode_output(&self, response: &[Vec<u8>]) -> (r: Result<
        Option<(u64, Vec<u8>)>,
        RemoteTokensDataDecodeError,
    >)
        ensures
            response@.len() == 0 ==> r == Err::<Option<(u64, Vec<u8>)>, RemoteTokensDataDecodeError>(
                self.decode_error_spec(RemoteTokenErrorKind::MissingData),
            ),
            response@.len() > 1 ==> r == Err::<Option<(u64, Vec<u8>)>, RemoteTokensDataDecodeError>(
                self.decode_error_spec(RemoteTokenErrorKind::InvalidResponseSize),
            ),
            response@.len() == 1 && spec_bytes_return(response@[0]@) is None ==> r == Err::<
                Option<(u64, Vec<u8>)>,
                RemoteTokensDataDecodeError,
            >(self.decode_error_spec(RemoteTokenErrorKind::DecodeFailed)),
            response@.len() == 1 && spec_bytes_return(response@[0]@) is Some ==> {
                let b = spec_bytes_return(response@[0]@)->0;
                &&& (b.len() == 0 ==> r matches Ok(None))
                &&& (b.len() > 0 ==> (r matches Ok(Some((cs, t))) && cs == self.remote_chain_selector
                    && t@ == b))
            },
    {
        if response.len() == 0 {
            return Err(self.decode_error(RemoteTokenErrorKind::MissingData));
        }
        if response.len() > 1 {
            return Err(self.decode_error(RemoteTokenErrorKind::InvalidResponseSize));
        }
        match decode_bytes(response[0].as_slice()) {
            None => Err(self.decode_error(RemoteTokenErrorKind::DecodeFailed)),
            Some(token) => {
                if token.len() == 0 {
                    Ok(None)
                } else {
                    Ok(Some((self.remote_chain_selector, token)))
                }
            },
        }
    }

    /// The error of this call with the given kind.
    pub open spec fn decode_error_spec(&self, kind: RemoteTokenErrorKind) -> RemoteTokensDataDecodeError {
        RemoteTokensDataDecodeError {
            pool_address: self.pool_address,
            remote_chain_selector: self.remote_chain_selector,
            kind,
        }
    }
}

/// The sending side of a bridge: a token pool and the token it locks or
/// burns, on the pool's blockchain.
#[derive(Debug, Clone, Copy, PartialEq, Eq, Structural)]
pub struct BridgeSource {
    pub address: Address,
    pub local_token_address: Address,
    pub local_blockchain: Blockchain,
}

impl BridgeSource {
    /// The bridged token.
    pub fn local_token(&self) -> (r: TokenAddress)
        ensures
            r == TokenAddress(self.local_token_address, self.local_blockchain),
    {
        TokenAddress(self.local_token_address, self.local_blockchain)
    }

    /// The token pool.
    pub fn bridge_address(&self) -> (r: PoolAddress)
        ensures
            r == PoolAddress(self.address, self.local_blockchain),
    {
        PoolAddress(self.address, self.local_blockchain)
    }
}

/// The receiving side of a bridge: a blockchain, by its chain selector, and
/// the ABI-encoded address of the token there.
#[derive(Debug, Clone, PartialEq, Eq)]
pub struct BridgeTarget {
    pub chain_selector: u64,
    pub remote_token: Vec<u8>,
}

/// A token bridge from one blockchain to another.
#[derive(Debug, Clone, PartialEq, Eq)]
pub struct Bridge {
    pub source: BridgeSource,
    pub target: BridgeTarget,
}

impl Bridge {
    /// The token pool of the sending side.
    pub fn pool_address(&self) -> (r: PoolAddress)
        ensures
            r == PoolAddress(self.source.address, self.source.local_blockchain),
    {
        PoolAddress(self.source.address, self.source.local_blockchain)
    }

    /// The bridged token of the sending side.
    pub fn local_token(&self) -> (r: TokenAddress)
        ensures
            r == TokenAddress(self.source.local_token_address, self.source.local_blockchain),
    {
        TokenAddress(self.source.local_token_address, self.source.local_blockchain)
    }
}

/// The chain selectors other than that of `blockchain`, in their order.
pub open spec fn spec_remote_selectors(selectors: Seq<u64>, blockchain: Blockchain) -> Seq<u64> {
    selectors.filter(|cs: u64| cs != spec_chain_selector(blockchain))
}

/// The chain selectors other than that of the local blockchain.
pub fn remote_chain_selectors(chain_selectors: &[u64], blockchain: Blockchain) -> (r: Vec<u64>)
    ensures
        r@ == spec_remote_selectors(chain_selectors@, blockchain),
{
    let local = chain_selector(blockchain);
    let mut out: Vec<u64> = Vec::new();
    let mut k: usize = 0;
    while k < chain_selectors.len()
        invariant
            k <= chain_selectors@.len(),
            local == spec_chain_selector(blockchain),
            out@ == spec_remote_selectors(chain_selectors@.subrange(0, k as int), blockchain),
        decreases chain_selectors@.len() - k,
    {
        proof {
            let s = chain_selectors@.subrange(0, k + 1);
            assert(s.drop_last() =~= chain_selectors@.subrange(0, k as int));
            reveal(Seq::filter);
        }
        if chain_selectors[k] != local {
            out.push(chain_selectors[k]);
        }
        k = k + 1;
    }
    proof {
        assert(chain_selectors@.subrange(0, chain_selectors@.len() as int) =~= chain_selectors@);
    }
    out
}

/// The pools among the answers of `getPools` (the tokens without a pool
/// left out).
pub open spec fn spec_some_pools(pools: Seq<Option<PoolAddress>>) -> Seq<PoolAddress> {
    pools.filter(|p: Option<PoolAddress>| p is Some).map_values(|p: Option<PoolAddress>| p->0)
}

/// The remote-token call of each pool for each remote chain selector: pool
/// by pool, and for a pool selector by selector.
pub fn remote_token_requests<B: BlockchainNetwork>(
    pools: &[Option<PoolAddress>],
    remote_selectors: &[u64],
) -> (r: Vec<RemoteTokensMulticallData<B>>)
    requires
        spec_some_pools(pools@).len() * remote_selectors@.len() <= usize::MAX,
    ensures
        r@.len() == spec_some_pools(pools@).len() * remote_selectors@.len(),
        forall|k: int|
            0 <= k < r@.len() ==> #[trigger] r@[k].pool_address == spec_some_pools(pools@)[k
                / remote_selectors@.len() as int] && r@[k].remote_chain_selector
                == remote_selectors@[k % remote_selectors@.len() as int],
{
    let ghost some = spec_some_pools(pools@);
    let mut some_pools: Vec<PoolAddress> = Vec::new();
    let mut i: usize = 0;
    while i < pools.len()
        invariant
            i <= pools@.len(),
            some_pools@ == spec_some_pools(pools@.subrange(0, i as int)),
        decreases pools@.len() - i,
    {
        proof {
            let s = pools@.subrange(0, i + 1);
            assert(s.drop_last() =~= pools@.subrange(0, i as int));
            reveal(Seq::filter);
        }
        match pools[i] {
            Some(p) => {
                some_pools.push(p);
            },
            None => {},
        }
        proof {
            let s = pools@.subrange(0, i + 1);
            assert(some_pools@ =~= spec_some_pools(s));
        }
        i = i + 1;
    }
    proof {
        assert(pools@.subrange(0, pools@.len() as int) =~= pools@);
    }
    let m = remote_selectors.len();
    let mut out: Vec<RemoteTokensMulticallData<B>> = Vec::new();
    let mut p: usize = 0;
    while p < some_pools.len()
        invariant
            p <= some_pools@.len(),
            some_pools@ == some,
            m == remote_selectors@.len(),
            some.len() * m <= usize::MAX,
            out@.len() == p * m,
            forall|k: int|
                0 <= k < out@.len() ==> #[trigger] out@[k].pool_address == some[k / m as int]
                    && out@[k].remote_chain_selector == remote_selectors@[k % m as int],
        decreases some_pools@.len() - p,
    {
        let mut c: usize = 0;
        while c < m
            invariant
                c <= m,
                p < some_pools@.len(),
                some_pools@ == some,
                m == remote_selectors@.len(),
                some.len() * m <= usize::MAX,
                out@.len() == p * m + c,
                forall|k: int|
                    0 <= k < out@.len() ==> #[trigger] out@[k].pool_address == some[k / m as int]
                        && out@[k].remote_chain_selector == remote_selectors@[k % m as int],
            decreases m - c,
        {
            proof {
                assert((p * m + c) / m as int == p && (p * m + c) % m as int == c) by {
                    vstd::arithmetic::div_mod::lemma_fundamental_div_mod_converse(
                        (p * m + c) as int,
                        m as int,
                        p as int,
                        c as int,
                    );
                }
                assert(p * m + c < some.len() * m) by (nonlinear_arith)
                    requires
                        p < some.len(),
                        c < m,
                ;
            }
            out.push(RemoteTokensMulticallData::new(some_pools[p], remote_selectors[c]));
            c = c + 1;
        }
        proof {
            assert((p + 1) * m == p * m + m) by (nonlinear_arith);
        }
        p = p + 1;
    }
    out
}

/// The (token, pool) pairs of the first `i` positions of the token list and
/// the answer of `getPools`, tokens without a pool left out.
pub open spec fn pool_pairs_upto(
    tokens: Seq<TokenAddress>,
    pools: Seq<Option<PoolAddress>>,
    i: nat,
) -> Seq<(TokenAddress, PoolAddress)>
    decreases i,
{
    if i == 0 {
        Seq::empty()
    } else {
        let prev = pool_pairs_upto(tokens, pools, (i - 1) as nat);
        match pools[i - 1] {
            Some(p) => prev.push((tokens[i - 1], p)),
            None => prev,
        }
    }
}

/// The (token, pool) pairs of the token list and the answer of `getPools`.
pub open spec fn pool_pairs(tokens: Seq<TokenAddress>, pools: Seq<Option<PoolAddress>>) -> Seq<
    (TokenAddress, PoolAddress),
> {
    pool_pairs_upto(
        tokens,
        pools,
        if tokens.len() <= pools.len() {
            tokens.len()
        } else {
            pools.len()
        },
    )
}

/// The bridges of the answers at positions before `i`: the answer at
/// position `k` belongs to pair `k / m` and remote selector `k % m`, and an
/// empty answer gives no bridge.
pub open spec fn spec_bridges_upto(
    remote: Seq<Option<(u64, Vec<u8>)>>,
    pairs: Seq<(TokenAddress, PoolAddress)>,
    m: nat,
    i: nat,
) -> Seq<(BridgeSource, u64, Seq<u8>)>
    decreases i,
{
    if i == 0 {
        Seq::empty()
    } else {
        let prev = spec_bridges_upto(remote, pairs, m, (i - 1) as nat);
        let k = i - 1;
        match remote[k] {
            Some((cs, bytes)) => {
                let (t, p) = pairs[k / m as int];
                prev.push(
                    (
                        BridgeSource {
                            address: p.0,
                            local_token_address: t.0,
                            local_blockchain: t.1,
                        },
                        cs,
                        bytes@,
                    ),
                )
            },
            None => prev,
        }
    }
}

/// The answers agree with the requests they answer: each non-empty answer
/// names the selector it was asked for, and each token lives on the
/// blockchain of its pool.
pub open spec fn answers_agree(
    remote: Seq<Option<(u64, Vec<u8>)>>,
    pairs: Seq<(TokenAddress, PoolAddress)>,
    selectors: Seq<u64>,
) -> bool {
    forall|k: int|
        0 <= k < remote.len() && k < pairs.len() * selectors.len() && #[trigger] remote[k] is Some
            ==> (remote[k]->0).0 == selectors[k % selectors.len() as int]
            && (pairs[k / selectors.len() as int].0).1 == (pairs[k / selectors.len() as int].1).1
}

/// The bridges found by one page: the answers of the remote-token calls
/// paired, in order, with the (token, pool, remote selector) triples they
/// answer; an empty answer gives no bridge. `None` where an answer names
/// another selector than it was asked for, or a token and its pool live on
/// different blockchains.
pub fn assemble_bridges(
    remote: &[Option<(u64, Vec<u8>)>],
    tokens: &[TokenAddress],
    pools: &[Option<PoolAddress>],
    remote_selectors: &[u64],
) -> (r: Option<Vec<Bridge>>)
    requires
        pool_pairs(tokens@, pools@).len() * remote_selectors@.len() <= usize::MAX,
    ensures
        r is Some <==> answers_agree(remote@, pool_pairs(tokens@, pools@), remote_selectors@),
        r matches Some(r) ==> ({
            let pairs = pool_pairs(tokens@, pools@);
            let n = pairs.len() * remote_selectors@.len();
            let expected = spec_bridges_upto(
                remote@,
                pairs,
                remote_selectors@.len(),
                if remote@.len() <= n {
                    remote@.len()
                } else {
                    n
                },
            );
            &&& r@.len() == expected.len()
            &&& forall|k: int|
                0 <= k < r@.len() ==> #[trigger] r@[k].source == expected[k].0
                    && r@[k].target.chain_selector == expected[k].1 && r@[k].target.remote_token@
                    == expected[k].2
        }),
{
    let ghost all_pairs = pool_pairs(tokens@, pools@);
    let count = if tokens.len() <= pools.len() {
        tokens.len()
    } else {
        pools.len()
    };
    let mut pairs: Vec<(TokenAddress, PoolAddress)> = Vec::new();
    let mut i: usize = 0;
    while i < count
        invariant
            i <= count,
            count <= tokens@.len(),
            count <= pools@.len(),
            pairs@ == pool_pairs_upto(tokens@, pools@, i as nat),
        decreases count - i,
    {
        match pools[i] {
            Some(p) => {
                pairs.push((tokens[i], p));
            },
            None => {},
        }
        i = i + 1;
    }
    let m = remote_selectors.len();
    let n = pairs.len() * m;
    let limit = if remote.len() <= n {
        remote.len()
    } else {
        n
    };
    let mut out: Vec<Bridge> = Vec::new();
    let ghost mut expected: Seq<(BridgeSource, u64, Seq<u8>)> = Seq::empty();
    let mut k: usize = 0;
    while k < limit
        invariant
            k <= limit,
            limit <= remote@.len(),
            limit <= n,
            n == pairs@.len() * m,
            m == remote_selectors@.len(),
            pairs@ == all_pairs,
            all_pairs == pool_pairs(tokens@, pools@),
            forall|j: int|
                0 <= j < k && #[trigger] remote@[j] is Some ==> (remote@[j]->0).0
                    == remote_selectors@[j % m as int] && (all_pairs[j / m as int].0).1 == (
                all_pairs[j / m as int].1).1,
            expected == spec_bridges_upto(remote@, all_pairs, m as nat, k as nat),
            out@.len() == expected.len(),
            forall|j: int|
                0 <= j < out@.len() ==> #[trigger] out@[j].source == expected[j].0
                    && out@[j].target.chain_selector == expected[j].1
                    && out@[j].target.remote_token@ == expected[j].2,
        decreases limit - k,
    {
        proof {
            assert(m > 0) by (nonlinear_arith)
                requires
                    k < n,
                    n == pairs@.len() * m,
            ;
            vstd::arithmetic::div_mod::lemma_fundamental_div_mod(k as int, m as int);
            vstd::arithmetic::div_mod::lemma_mod_bound(k as int, m as int);
            assert((k / m) < pairs@.len()) by (nonlinear_arith)
                requires
                    k < pairs@.len() * m,
                    k == m * (k / m) + k % m,
                    0 <= k % m,
                    m > 0,
            ;
        }
        match &remote[k] {
            Some((cs, bytes)) => {
                let (t, p) = pairs[k / m];
                let TokenAddress(local_token_address, local_blockchain) = t;
                let PoolAddress(pool_address, pool_blockchain) = p;
                if *cs != remote_selectors[k % m] || local_blockchain != pool_blockchain {
                    proof {
                        assert(remote@[k as int] is Some);
                    }
                    return None;
                }
                let remote_token = bytes.clone();
                proof {
                    assert(remote_token@ =~= bytes@);
                }
                out.push(
                    Bridge {
                        source: BridgeSource {
                            address: pool_address,
                            local_token_address,
                            local_blockchain,
                        },
                        target: BridgeTarget { chain_selector: *cs, remote_token },
                    },
                );
                proof {
                    expected = spec_bridges_upto(remote@, all_pairs, m as nat, (k + 1) as nat);
                }
            },
            None => {
                proof {
                    expected = spec_bridges_upto(remote@, all_pairs, m as nat, (k + 1) as nat);
                }
            },
        }
        k = k + 1;
    }
    Some(out)
}

/// Why the target of a bridge could not be read.
#[derive(Debug, Clone, Copy, PartialEq, Eq, Structural)]
pub enum BridgeTargetError {
    /// The chain selector is not that of a known EVM blockchain.
    UnknownChainSelector(u64),
    /// The remote token is not an ABI-encoded address.
    InvalidTokenAddress,
}

/// The blockchain of an EVM chain selector.
pub open spec fn spec_selector_blockchain(cs: u64) -> Option<Blockchain> {
    if cs == spec_chain_selector(Blockchain::Ethereum) {
        Some(Blockchain::Ethereum)
    } else if cs == spec_chain_selector(Blockchain::BSC) {
        Some(Blockchain::BSC)
    } else if cs == spec_chain_selector(Blockchain::Arbitrum) {
        Some(Blockchain::Arbitrum)
    } else {
        None
    }
}

/// Whether another page of tokens remains to be read: a page as long as
/// its maximum may have a successor.
pub fn has_next_page<B: BlockchainNetwork>(
    loaded_items_count: usize,
    call_data: &GetConfiguredTokensCallData<B>,
) -> (r: bool)
    ensures
        r == (loaded_items_count >= call_data.max_count),
{
    !((loaded_items_count as u64) < call_data.max_count())
}

} // verus!
