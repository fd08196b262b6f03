//! Batches of contract calls through the Multicall3 contract: the address
//! of the contract, the calls of a batch, the call data of `aggregate` and
//! the results that belong to each member of the batch.
use crate::abi::{address_path_bytes, push_address_bytes, selector, spec_selector};
use crate::blockchain::{Blockchain, BlockchainNetwork};
use crate::pool_reserves_calls::ReservesCallData;
use crate::primitives::Address;
use crate::reserves::{call_entries, Call};
use vstd::prelude::*;
use vstd::string::StringSliceAdditionalSpecFns;

verus! {

/// The Multicall3 contract: the same address on every supported blockchain.
pub open spec fn spec_multicall3_address(blockchain: Blockchain) -> Address {
    Address { hi: 0xca11bde0, mid: 0x5977b36311670288, lo: 0x62be2a173976ca11 }
}

/// The Multicall3 contract of a blockchain.
pub fn multicall3_address(blockchain: Blockchain) -> (r: Address)
    ensures
        r == spec_multicall3_address(blockchain),
{
    match blockchain {
        Blockchain::Ethereum => Address { hi: 0xca11bde0, mid: 0x5977b36311670288, lo: 0x62be2a173976ca11 },
        Blockchain::BSC => Address { hi: 0xca11bde0, mid: 0x5977b36311670288, lo: 0x62be2a173976ca11 },
        Blockchain::Arbitrum => Address { hi: 0xca11bde0, mid: 0x5977b36311670288, lo: 0x62be2a173976ca11 },
    }
}

/// The ABI encoding of the argument of `aggregate((address,bytes)[])` for
/// calls given as 20 address bytes and call data, as `alloy` encodes it.
pub uninterp spec fn aggregate_arguments(calls: Seq<(Seq<u8>, Seq<u8>)>) -> Seq<u8>;

/// What `alloy` decodes from the answer of `aggregate`: the results of the
/// calls, where the answer is a well-formed `(uint256, bytes[])`.
pub uninterp spec fn aggregate_results(response: Seq<u8>) -> Option<Seq<Seq<u8>>>;

/// `SolValue::abi_encode_params` on a one-tuple of `(Address, Bytes)` calls:
/// the encoded argument of `aggregate`. The encoding is named, not
/// written out.
#[verifier::external_body]
fn encode_aggregate_arguments(calls: Vec<(Vec<u8>, Vec<u8>)>) -> (r: Vec<u8>)
    requires
        forall|i: int| 0 <= i < calls@.len() ==> (#[trigger] calls@[i]).0@.len() == 20,
    ensures
        r@ == aggregate_arguments(calls@.map_values(|c: (Vec<u8>, Vec<u8>)| (c.0@, c.1@))),
{
    let calls: Vec<(alloy::primitives::Address, alloy::primitives::Bytes)> = calls
        .into_iter()
        .map(|(a, d)| (alloy::primitives::Address::from_slice(&a), alloy::primitives::Bytes::from(d)))
        .collect();
    alloy::sol_types::SolValue::abi_encode_params(&(calls,))
}

/// `SolValue::abi_decode_params` on `(U256, Vec<Bytes>)`: the results of
/// the calls in the answer of `aggregate`, the block number dropped.
#[verifier::external_body]
fn decode_aggregate_results(response: &[u8]) -> (r: Option<Vec<Vec<u8>>>)
    ensures
        match r {
            Some(v) => aggregate_results(response@) == Some(v@.map_values(|b: Vec<u8>| b@)),
            None => aggregate_results(response@) is None,
        },
{
    match <(alloy::primitives::U256, Vec<alloy::primitives::Bytes>) as alloy::sol_types::SolValue>::abi_decode_params(response) {
        Ok((_, results)) => Some(results.into_iter().map(|b| b.to_vec()).collect()),
        Err(_) => None,
    }
}

/// The calls of the members of a batch, one member after the other.
pub open spec fn flat_calls<B: BlockchainNetwork>(calls_data: Seq<ReservesCallData<B>>) -> Seq<
    (Address, Seq<u8>),
>
    decreases calls_data.len(),
{
    if calls_data.len() == 0 {
        Seq::empty()
    } else {
        flat_calls(calls_data.drop_last()) + calls_data.last().calls_spec()
    }
}

/// The calls of a batch: those of each member in turn.
pub fn multicall_calls<B: BlockchainNetwork>(calls_data: &[ReservesCallData<B>]) -> (r: Vec<Call>)
    ensures
        call_entries(r@) == flat_calls(calls_data@),
{
    let mut calls: Vec<Call> = Vec::new();
    let mut i: usize = 0;
    while i < calls_data.len()
        invariant
            i <= calls_data@.len(),
            call_entries(calls@) == flat_calls(calls_data@.subrange(0, i as int)),
        decreases calls_data@.len() - i,
    {
        let mut member = calls_data[i].to_calls();
        let ghost before = calls@;
        let ghost m = member@;
        calls.append(&mut member);
        proof {
            assert(calls_data@.subrange(0, i + 1).drop_last() =~= calls_data@.subrange(0, i as int));
            assert(calls_data@.subrange(0, i + 1).last() == calls_data@[i as int]);
            assert(calls@ =~= before + m);
            assert(call_entries(before + m) =~= call_entries(before) + call_entries(m));
        }
        i = i + 1;
    }
    proof {
        assert(calls_data@.subrange(0, i as int) =~= calls_data@);
    }
    calls
}

/// The calls as `aggregate` takes them: each target's 20 address bytes and
/// its call data.
pub open spec fn aggregate_entries(calls: Seq<Call>) -> Seq<(Seq<u8>, Seq<u8>)> {
    calls.map_values(|c: Call| (address_path_bytes(c.target), c.call_data@))
}

/// The call data of `aggregate((address,bytes)[])` on the calls.
pub fn aggregate_call_data(calls: &[Call]) -> (r: Vec<u8>)
    ensures
        r@ == spec_selector("aggregate((address,bytes)[])".spec_bytes()) + aggregate_arguments(
            aggregate_entries(calls@),
        ),
{
    let mut entries: Vec<(Vec<u8>, Vec<u8>)> = Vec::new();
    let mut i: usize = 0;
    while i < calls.len()
        invariant
            i <= calls@.len(),
            entries@.len() == i,
            forall|j: int| 0 <= j < i ==> (#[trigger] entries@[j]).0@ == address_path_bytes(calls@[j].target)
                && entries@[j].1@ == calls@[j].call_data@,
        decreases calls@.len() - i,
    {
        let mut address: Vec<u8> = Vec::new();
        push_address_bytes(&mut address, calls[i].target);
        let data = calls[i].call_data.clone();
        entries.push((address, data));
        i = i + 1;
    }
    proof {
        assert forall|j: int| 0 <= j < entries@.len() implies (#[trigger] entries@[j]).0@.len() == 20 by {
            assert(crate::abi::address_word(calls@[j].target).len() == 32);
        }
        assert(entries@.map_values(|c: (Vec<u8>, Vec<u8>)| (c.0@, c.1@)) =~= aggregate_entries(calls@));
    }
    let arguments = encode_aggregate_arguments(entries);
    let mut data = selector("aggregate((address,bytes)[])");
    let ghost head = data@;
    let mut k: usize = 0;
    while k < arguments.len()
        invariant
            k <= arguments@.len(),
            data@ == head + arguments@.subrange(0, k as int),
        decreases arguments@.len() - k,
    {
        data.push(arguments[k]);
        k = k + 1;
        assert(data@ =~= head + arguments@.subrange(0, k as int));
    }
    proof {
        assert(arguments@.subrange(0, k as int) =~= arguments@);
    }
    data
}

/// The results of the calls in the answer of `aggregate`, where the answer
/// can be decoded.
pub fn decode_multicall_results(response: &[u8]) -> (r: Option<Vec<Vec<u8>>>)
    ensures
        match r {
            Some(v) => aggregate_results(response@) == Some(v@.map_values(|b: Vec<u8>| b@)),
            None => aggregate_results(response@) is None,
        },
{
    decode_aggregate_results(response)
}

/// Where the results of member `i` of a batch start: after the calls of
/// the members before it.
pub open spec fn member_start<B: BlockchainNetwork>(calls_data: Seq<ReservesCallData<B>>, i: int) -> int {
    flat_calls(calls_data.subrange(0, i)).len() as int
}

/// The results of each member of a batch: as many as it made calls, in
/// order; `None` where the results are fewer than the calls.
pub fn split_results<B: BlockchainNetwork>(
    calls_data: &[ReservesCallData<B>],
    results: &[Vec<u8>],
) -> (r: Option<Vec<Vec<Vec<u8>>>>)
    ensures
        results@.len() < flat_calls(calls_data@).len() ==> r is None,
        results@.len() >= flat_calls(calls_data@).len() ==> (r matches Some(parts) && parts@.len()
            == calls_data@.len() && forall|i: int|
            0 <= i < calls_data@.len() ==> {
                &&& (#[trigger] parts@[i])@.len() == calls_data@[i].calls_spec().len()
                &&& forall|k: int|
                    0 <= k < parts@[i]@.len() ==> (#[trigger] parts@[i]@[k])@ == results@[member_start(
                        calls_data@,
                        i,
                    ) + k]@
            }),
{
    let mut parts: Vec<Vec<Vec<u8>>> = Vec::new();
    let mut pos: usize = 0;
    let mut i: usize = 0;
    while i < calls_data.len()
        invariant
            i <= calls_data@.len(),
            pos == flat_calls(calls_data@.subrange(0, i as int)).len(),
            pos <= results@.len(),
            parts@.len() == i,
            forall|j: int|
                0 <= j < i ==> {
                    &&& (#[trigger] parts@[j])@.len() == calls_data@[j].calls_spec().len()
                    &&& forall|k: int|
                        0 <= k < parts@[j]@.len() ==> (#[trigger] parts@[j]@[k])@ == results@[member_start(
                            calls_data@,
                            j,
                        ) + k]@
                },
        decreases calls_data@.len() - i,
    {
        proof {
            assert(calls_data@.subrange(0, i + 1).drop_last() =~= calls_data@.subrange(0, i as int));
            assert(calls_data@.subrange(0, i + 1).last() == calls_data@[i as int]);
        }
        let size = calls_data[i].size();
        proof {
            assert(calls_data@[i as int].calls_spec().len() == size);
        }
        if results.len() - pos < size {
            proof {
                lemma_flat_calls_prefix(calls_data@, i as int + 1);
            }
            return None;
        }
        let mut part: Vec<Vec<u8>> = Vec::new();
        let mut k: usize = 0;
        let len = results.len();
        while k < size
            invariant
                k <= size,
                len == results@.len(),
                pos + size <= results@.len(),
                pos == member_start(calls_data@, i as int),
                part@.len() == k,
                forall|m: int| 0 <= m < k ==> (#[trigger] part@[m])@ == results@[pos + m]@,
            decreases size - k,
        {
            part.push(results[pos + k].clone());
            k = k + 1;
        }
        parts.push(part);
        pos = pos + size;
        i = i + 1;
    }
    proof {
        assert(calls_data@.subrange(0, i as int) =~= calls_data@);
    }
    Some(parts)
}

/// The calls of a batch are at least those of any of its first members.
proof fn lemma_flat_calls_prefix<B: BlockchainNetwork>(calls_data: Seq<ReservesCallData<B>>, n: int)
    requires
        0 <= n <= calls_data.len(),
    ensures
        flat_calls(calls_data.subrange(0, n)).len() <= flat_calls(calls_data).len(),
    decreases calls_data.len() - n,
{
    if n < calls_data.len() {
        lemma_flat_calls_prefix(calls_data, n + 1);
        assert(calls_data.subrange(0, n + 1).drop_last() =~= calls_data.subrange(0, n));
    } else {
        assert(calls_data.subrange(0, n) =~= calls_data);
    }
}

} // verus!
