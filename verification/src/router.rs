//! Swaps through Uniswap V3 pools by the SwapRouter02 contract: the encoded
//! path of a swap and the call data of `exactInput`.
use crate::abi::{
    lemma_address_word_value, lemma_be_value_same_bytes, lemma_be_value_split, lemma_u64_bytes_value,
    address_path_bytes, push_address_bytes, address_word, push_address_word, push_u64_be, push_u64_word, push_zeros, spec_selector,
    u64_bytes, u64_word, selector, read_word_u256,
};
use crate::primitives::{be_value, Address, TokenAddress};
use crate::uint::U256;
use crate::uniswap_v3::{spec_fee_value, Fee};
use vstd::prelude::*;
use vstd::string::StringSliceAdditionalSpecFns;

verus! {

/// The tokens a swap passes through, each with the fee tier of the pool
/// that leads to the next, and the token it ends in.
pub struct SwapPath {
    pub path: Vec<(TokenAddress, Fee)>,
    pub output: TokenAddress,
}

/// A swap of `amount` of the first token of the path, the output sent to
/// `recipient`.
pub struct Swap {
    pub path: SwapPath,
    pub amount: u128,
    pub recipient: Address,
}

/// Why the answer of `exactInput` could not be read.
#[derive(Debug, Clone, Copy, PartialEq, Eq, Structural)]
pub enum SwapDecodeError {
    /// The answer holds less than one word.
    ResponseTooShort(usize),
}

/// The SwapRouter02 contract.
pub open spec fn spec_swap_router2_address() -> Address {
    Address { hi: 0x68b34658, mid: 0x33fb72a70ecdf485, lo: 0xe0e4c7bd8665fc45 }
}

/// The 3 big-endian bytes of a fee tier.
pub open spec fn fee_path_bytes(fee: Fee) -> Seq<u8> {
    u64_bytes(spec_fee_value(fee) as u64).subrange(5, 8)
}

/// The bytes of the hops of a path: each token's address followed by the
/// fee tier of the pool it is swapped in.
pub open spec fn hops_bytes(path: Seq<(TokenAddress, Fee)>) -> Seq<u8>
    decreases path.len(),
{
    if path.len() == 0 {
        Seq::empty()
    } else {
        hops_bytes(path.drop_last()) + address_path_bytes(path.last().0.0) + fee_path_bytes(
            path.last().1,
        )
    }
}

/// The encoded path of a swap: its hops, then the output token's address.
pub open spec fn spec_path_bytes(path: Seq<(TokenAddress, Fee)>, output: TokenAddress) -> Seq<u8> {
    hops_bytes(path) + address_path_bytes(output.0)
}

/// The word of a u128 argument.
pub open spec fn u128_word(x: u128) -> Seq<u8> {
    Seq::new(16, |i: int| 0u8) + u64_bytes((x / 0x1_0000_0000_0000_0000) as u64) + u64_bytes(
        (x % 0x1_0000_0000_0000_0000) as u64,
    )
}

/// The zero bytes that pad `n` bytes to a whole number of words.
pub open spec fn padding(n: nat) -> Seq<u8> {
    Seq::new(((32 - n % 32) % 32) as nat, |i: int| 0u8)
}

/// The call data of `exactInput((bytes,address,uint256,uint256))` with the
/// path, the recipient, the amount in and no minimum amount out: the
/// offset of the tuple, the offset of the path within it, the recipient,
/// the amount, a zero word, then the path's length and its bytes padded to
/// a word.
pub open spec fn exact_input_call_data(path: Seq<u8>, recipient: Address, amount: u128) -> Seq<u8> {
    spec_selector("exactInput((bytes,address,uint256,uint256))".spec_bytes()) + u64_word(0x20)
        + u64_word(0x80) + address_word(recipient) + u128_word(amount) + u64_word(0) + u64_word(
        path.len() as u64,
    ) + path + padding(path.len())
}

/// The three big-endian bytes of a fee tier.
fn fee_as_path_bytes(fee: Fee) -> (r: Vec<u8>)
    ensures
        r@ == fee_path_bytes(fee),
{
    let mut word: Vec<u8> = Vec::new();
    push_u64_be(&mut word, fee.value() as u64);
    let mut r: Vec<u8> = Vec::new();
    let mut k: usize = 5;
    while k < 8
        invariant
            5 <= k <= 8,
            word@ == u64_bytes(spec_fee_value(fee) as u64),
            r@ == word@.subrange(5, k as int),
        decreases 8 - k,
    {
        r.push(word[k]);
        k = k + 1;
        assert(r@ =~= word@.subrange(5, k as int));
    }
    r
}

impl Swap {
    /// The SwapRouter02 contract, which executes the swap.
    pub fn contract_address(&self) -> (r: Address)
        ensures
            r == spec_swap_router2_address(),
    {
        Address { hi: 0x68b34658, mid: 0x33fb72a70ecdf485, lo: 0xe0e4c7bd8665fc45 }
    }

    /// The value sent with the swap: none.
    pub fn value(&self) -> (r: Option<U256>)
        ensures
            r is None,
    {
        None
    }

    /// The encoded path: each hop's token address and fee tier, then the
    /// output token's address.
    pub fn path_bytes(&self) -> (r: Vec<u8>)
        ensures
            r@ == spec_path_bytes(self.path.path@, self.path.output),
            r@.len() == 23 * self.path.path@.len() + 20,
            forall|k: int|
                0 <= k < self.path.path@.len() ==> be_value(r@, 23 * k, 20) == (
                #[trigger] self.path.path@[k]).0.0.value() && be_value(r@, 23 * k + 20, 3)
                    == spec_fee_value(self.path.path@[k].1),
            be_value(r@, 23 * self.path.path@.len() as int, 20) == self.path.output.0.value(),
    {
        proof {
            lemma_path_bytes_layout(self.path.path@, self.path.output);
        }
        let path = &self.path.path;
        let mut out: Vec<u8> = Vec::new();
        let mut i: usize = 0;
        while i < path.len()
            invariant
                i <= path@.len(),
                out@ == hops_bytes(path@.subrange(0, i as int)),
            decreases path@.len() - i,
        {
            let (token, fee) = path[i];
            push_address_bytes(&mut out, token.0);
            let fee_bytes = fee_as_path_bytes(fee);
            let ghost before = out@;
            let mut k: usize = 0;
            while k < fee_bytes.len()
                invariant
                    k <= fee_bytes@.len(),
                    out@ == before + fee_bytes@.subrange(0, k as int),
                decreases fee_bytes@.len() - k,
            {
                out.push(fee_bytes[k]);
                k = k + 1;
                assert(out@ =~= before + fee_bytes@.subrange(0, k as int));
            }
            proof {
                assert(fee_bytes@.subrange(0, k as int) =~= fee_bytes@);
                assert(path@.subrange(0, i + 1).drop_last() =~= path@.subrange(0, i as int));
                assert(path@.subrange(0, i + 1).last() == path@[i as int]);
            }
            i = i + 1;
        }
        proof {
            assert(path@.subrange(0, i as int) =~= path@);
        }
        push_address_bytes(&mut out, self.path.output.0);
        out
    }

    /// The call data of `exactInput` for the swap, with no minimum amount
    /// out.
    pub fn into_transaction_data(&self) -> (r: Vec<u8>)
        ensures
            r@ == exact_input_call_data(
                spec_path_bytes(self.path.path@, self.path.output),
                self.recipient,
                self.amount,
            ),
    {
        let path = self.path_bytes();
        let mut data = selector("exactInput((bytes,address,uint256,uint256))");
        push_u64_word(&mut data, 0x20);
        push_u64_word(&mut data, 0x80);
        push_address_word(&mut data, self.recipient);
        push_zeros(&mut data, 16);
        push_u64_be(&mut data, (self.amount / 0x1_0000_0000_0000_0000) as u64);
        push_u64_be(&mut data, (self.amount % 0x1_0000_0000_0000_0000) as u64);
        push_u64_word(&mut data, 0);
        let len = path.len();
        push_u64_word(&mut data, len as u64);
        let ghost before = data@;
        let mut k: usize = 0;
        while k < len
            invariant
                k <= len,
                len == path@.len(),
                data@ == before + path@.subrange(0, k as int),
            decreases len - k,
        {
            data.push(path[k]);
            k = k + 1;
            assert(data@ =~= before + path@.subrange(0, k as int));
        }
        proof {
            assert(path@.subrange(0, k as int) =~= path@);
        }
        push_zeros(&mut data, (32 - len % 32) % 32);
        proof {
            assert(u128_word(self.amount) =~= Seq::new(16, |i: int| 0u8) + u64_bytes(
                (self.amount / 0x1_0000_0000_0000_0000) as u64,
            ) + u64_bytes((self.amount % 0x1_0000_0000_0000_0000) as u64));
            assert(data@ =~= exact_input_call_data(
                spec_path_bytes(self.path.path@, self.path.output),
                self.recipient,
                self.amount,
            ));
        }
        data
    }
    /// The amount out that `exactInput` answers: its first word.
    pub fn decode_call_output(&self, response: &[u8]) -> (r: Result<U256, SwapDecodeError>)
        ensures
            response@.len() < 32 ==> r == Err::<U256, SwapDecodeError>(
                SwapDecodeError::ResponseTooShort(response@.len() as usize),
            ),
            response@.len() >= 32 ==> (r matches Ok(v) && v@ == be_value(response@, 0, 32)),
    {
        if response.len() < 32 {
            return Err(SwapDecodeError::ResponseTooShort(response.len()));
        }
        Ok(read_word_u256(response, 0))
    }
}

/// A fee tier's three path bytes hold its fee.
proof fn lemma_fee_path_bytes_value(fee: Fee)
    ensures
        fee_path_bytes(fee).len() == 3,
        be_value(fee_path_bytes(fee), 0, 3) == spec_fee_value(fee),
{
    let x = spec_fee_value(fee) as u64;
    lemma_u64_bytes_value(x, 5, 3);
    lemma_be_value_same_bytes(fee_path_bytes(fee), 0, u64_bytes(x), 5, 3);
    assert(crate::primitives::byte_pow(0) == 1);
    assert(crate::primitives::byte_pow(3) == 0x100_0000) by {
        reveal_with_fuel(crate::primitives::byte_pow, 4);
    }
    assert(x <= 10000);
    assert((x as int) / 1 == x);
    assert((x as int) % 0x100_0000 == x);
}

/// An address's twenty path bytes hold the address.
proof fn lemma_address_path_bytes_value(a: Address)
    ensures
        address_path_bytes(a).len() == 20,
        be_value(address_path_bytes(a), 0, 20) == a.value(),
{
    lemma_address_word_value(a);
    lemma_be_value_same_bytes(address_path_bytes(a), 0, address_word(a), 12, 20);
}

/// Each hop of a path takes 23 bytes: the 20 bytes of its token's address,
/// then the 3 bytes of the fee of that same hop.
pub proof fn lemma_hops_bytes(path: Seq<(TokenAddress, Fee)>)
    ensures
        hops_bytes(path).len() == 23 * path.len(),
        forall|k: int|
            0 <= k < path.len() ==> be_value(hops_bytes(path), 23 * k, 20) == (
            #[trigger] path[k]).0.0.value() && be_value(hops_bytes(path), 23 * k + 20, 3)
                == spec_fee_value(path[k].1),
    decreases path.len(),
{
    if path.len() > 0 {
        let prev = path.drop_last();
        let last = path.last();
        let n = prev.len();
        lemma_hops_bytes(prev);
        lemma_address_path_bytes_value(last.0.0);
        lemma_fee_path_bytes_value(last.1);
        let h = hops_bytes(path);
        let hp = hops_bytes(prev);
        assert(h == hp + address_path_bytes(last.0.0) + fee_path_bytes(last.1));
        assert forall|k: int| 0 <= k < path.len() implies be_value(h, 23 * k, 20) == (
        #[trigger] path[k]).0.0.value() && be_value(h, 23 * k + 20, 3) == spec_fee_value(
            path[k].1,
        ) by {
            if k < n {
                assert(path[k] == prev[k]);
                lemma_be_value_same_bytes(h, 23 * k, hp, 23 * k, 20);
                lemma_be_value_same_bytes(h, 23 * k + 20, hp, 23 * k + 20, 3);
            } else {
                lemma_be_value_same_bytes(h, 23 * k, address_path_bytes(last.0.0), 0, 20);
                lemma_be_value_same_bytes(h, 23 * k + 20, fee_path_bytes(last.1), 0, 3);
            }
        }
    }
}

/// The encoded path of a swap: for each hop, its token's address and then
/// the fee of that hop's pool, 23 bytes a hop, and last the output token's
/// address.
pub proof fn lemma_path_bytes_layout(path: Seq<(TokenAddress, Fee)>, output: TokenAddress)
    ensures
        spec_path_bytes(path, output).len() == 23 * path.len() + 20,
        forall|k: int|
            0 <= k < path.len() ==> be_value(spec_path_bytes(path, output), 23 * k, 20) == (
            #[trigger] path[k]).0.0.value() && be_value(
                spec_path_bytes(path, output),
                23 * k + 20,
                3,
            ) == spec_fee_value(path[k].1),
        be_value(spec_path_bytes(path, output), 23 * path.len() as int, 20) == output.0.value(),
{
    lemma_hops_bytes(path);
    lemma_address_path_bytes_value(output.0);
    let b = spec_path_bytes(path, output);
    let h = hops_bytes(path);
    assert forall|k: int| 0 <= k < path.len() implies be_value(b, 23 * k, 20) == (
    #[trigger] path[k]).0.0.value() && be_value(b, 23 * k + 20, 3) == spec_fee_value(path[k].1) by {
        lemma_be_value_same_bytes(b, 23 * k, h, 23 * k, 20);
        lemma_be_value_same_bytes(b, 23 * k + 20, h, 23 * k + 20, 3);
    }
    lemma_be_value_same_bytes(b, 23 * path.len() as int, address_path_bytes(output.0), 0, 20);
}

/// The value of the 32-byte word of a u64 argument.
proof fn lemma_u64_word_value(x: u64)
    ensures
        u64_word(x).len() == 32,
        be_value(u64_word(x), 0, 32) == x,
{
    let w = u64_word(x);
    crate::primitives::lemma_byte_pow_positive(8);
    lemma_be_value_split(w, 0, 24, 8);
    crate::abi::lemma_be_value_zero(w, 0, 24);
    lemma_be_value_same_bytes(w, 24, u64_bytes(x), 0, 8);
    lemma_u64_bytes_value(x, 0, 8);
    assert(crate::primitives::byte_pow(0) == 1);
    assert(crate::primitives::byte_pow(8) == 0x1_0000_0000_0000_0000) by {
        reveal_with_fuel(crate::primitives::byte_pow, 9);
    }
    assert((x as int) / 1 == x);
    assert((x as int) % 0x1_0000_0000_0000_0000 == x);
}

/// The value of the 32-byte word of a u128 argument.
proof fn lemma_u128_word_value(x: u128)
    ensures
        u128_word(x).len() == 32,
        be_value(u128_word(x), 0, 32) == x,
{
    let w = u128_word(x);
    let hi = (x / 0x1_0000_0000_0000_0000) as u64;
    let lo = (x % 0x1_0000_0000_0000_0000) as u64;
    lemma_be_value_split(w, 0, 24, 8);
    lemma_be_value_split(w, 0, 16, 8);
    crate::abi::lemma_be_value_zero(w, 0, 16);
    lemma_be_value_same_bytes(w, 16, u64_bytes(hi), 0, 8);
    lemma_be_value_same_bytes(w, 24, u64_bytes(lo), 0, 8);
    lemma_u64_bytes_value(hi, 0, 8);
    lemma_u64_bytes_value(lo, 0, 8);
    assert(crate::primitives::byte_pow(0) == 1);
    assert(crate::primitives::byte_pow(8) == 0x1_0000_0000_0000_0000) by {
        reveal_with_fuel(crate::primitives::byte_pow, 9);
    }
    assert((hi as int) / 1 == hi);
    assert((lo as int) / 1 == lo);
    assert((hi as int) % 0x1_0000_0000_0000_0000 == hi);
    assert((lo as int) % 0x1_0000_0000_0000_0000 == lo);
    assert(x == hi * 0x1_0000_0000_0000_0000 + lo);
}

/// The value of the 32-byte word of an address argument.
proof fn lemma_address_full_word_value(a: Address)
    ensures
        be_value(address_word(a), 0, 32) == a.value(),
{
    let w = address_word(a);
    lemma_address_word_value(a);
    lemma_be_value_split(w, 0, 12, 20);
    lemma_be_value_split(w, 0, 8, 4);
    crate::abi::lemma_be_value_zero(w, 0, 8);
    lemma_be_value_same_bytes(w, 8, u64_bytes(a.hi as u64), 0, 4);
    lemma_u64_bytes_value(a.hi as u64, 0, 4);
    assert(crate::primitives::byte_pow(4) == 0x1_0000_0000) by {
        reveal_with_fuel(crate::primitives::byte_pow, 5);
    }
    assert((a.hi as int) / 0x1_0000_0000 == 0);
    assert(forall|k: int| 0 <= k < 8 ==> w[k] == 0);
    assert(be_value(w, 0, 8) == 0);
    assert(be_value(w, 8, 4) == 0);
    assert(be_value(w, 0, 12) == 0);
    let z = be_value(w, 0, 12);
    let b = crate::primitives::byte_pow(20);
    assert(z * b == 0) by (nonlinear_arith)
        requires
            z == 0,
    ;
}

/// The call data of `exactInput`: after the selector, the tuple's offset
/// (32), the path's offset within it (128), the recipient, the amount in, a
/// zero minimum amount out, the path's length and its bytes, padded with
/// zeros to a whole word.
pub proof fn lemma_exact_input_call_data_layout(path: Seq<u8>, recipient: Address, amount: u128)
    requires
        path.len() <= u64::MAX,
    ensures
        ({
            let d = exact_input_call_data(path, recipient, amount);
            let sel = spec_selector("exactInput((bytes,address,uint256,uint256))".spec_bytes());
            let s = sel.len() as int;
            &&& d.subrange(0, s) == sel
            &&& be_value(d, s, 32) == 32
            &&& be_value(d, s + 32, 32) == 128
            &&& be_value(d, s + 64, 32) == recipient.value()
            &&& be_value(d, s + 96, 32) == amount
            &&& be_value(d, s + 128, 32) == 0
            &&& be_value(d, s + 160, 32) == path.len()
            &&& d.subrange(s + 192, s + 192 + path.len()) == path
            &&& d.len() == s + 192 + path.len() + (32 - path.len() % 32) % 32
            &&& forall|k: int| s + 192 + path.len() <= k < d.len() ==> d[k] == 0
        }),
{
    let d = exact_input_call_data(path, recipient, amount);
    let sel = spec_selector("exactInput((bytes,address,uint256,uint256))".spec_bytes());
    let s = sel.len() as int;
    let w0 = u64_word(0x20);
    let w1 = u64_word(0x80);
    let w2 = address_word(recipient);
    let w3 = u128_word(amount);
    let w4 = u64_word(0);
    let w5 = u64_word(path.len() as u64);
    lemma_u64_word_value(0x20);
    lemma_u64_word_value(0x80);
    lemma_u64_word_value(0);
    lemma_u64_word_value(path.len() as u64);
    lemma_u128_word_value(amount);
    lemma_address_full_word_value(recipient);
    lemma_address_word_value(recipient);
    assert(d == sel + w0 + w1 + w2 + w3 + w4 + w5 + path + padding(path.len()));
    lemma_be_value_same_bytes(d, s, w0, 0, 32);
    lemma_be_value_same_bytes(d, s + 32, w1, 0, 32);
    lemma_be_value_same_bytes(d, s + 64, w2, 0, 32);
    lemma_be_value_same_bytes(d, s + 96, w3, 0, 32);
    lemma_be_value_same_bytes(d, s + 128, w4, 0, 32);
    lemma_be_value_same_bytes(d, s + 160, w5, 0, 32);
    assert(d.subrange(0, s) =~= sel);
    assert(d.subrange(s + 192, s + 192 + path.len()) =~= path);
}

/// The encoded path is 23 bytes per hop (an address and a fee tier) and
/// the output token's 20.
pub proof fn lemma_path_bytes_len(path: Seq<(TokenAddress, Fee)>, output: TokenAddress)
    ensures
        spec_path_bytes(path, output).len() == 23 * path.len() + 20,
    decreases path.len(),
{
    if path.len() > 0 {
        lemma_path_bytes_len(path.drop_last(), output);
    }
}

/// The call data of `exactInput` is its selector followed by whole words:
/// six of arguments and the padded path.
pub proof fn lemma_exact_input_call_data_words(path: Seq<u8>, recipient: Address, amount: u128)
    ensures
        ({
            let rest = exact_input_call_data(path, recipient, amount).len() - spec_selector(
                "exactInput((bytes,address,uint256,uint256))".spec_bytes(),
            ).len();
            rest >= 32 * 6 && rest % 32 == 0
        }),
{
    let n = path.len();
    assert(u64_word(0x20).len() == 32);
    assert(address_word(recipient).len() == 32);
    assert(u128_word(amount).len() == 32);
    assert(padding(n).len() == (32 - n % 32) % 32);
    assert((n + (32 - n % 32) % 32) % 32 == 0) by (nonlinear_arith);
}

} // verus!
