//! The pieces of the Solidity ABI the library speaks: function selectors,
//! 32-byte argument words and the static words of a call's return data.
use crate::primitives::{be_value, byte_pow, lemma_byte_pow_positive, Address, B256};
use crate::uint::{p128, p64, U160, U256};
use vstd::prelude::*;
use vstd::string::StringSliceAdditionalSpecFns;

verus! {

/// The Keccak-256 digest of a byte string, as `alloy` computes it.
pub uninterp spec fn keccak_digest(data: Seq<u8>) -> Seq<u8>;

/// `alloy::primitives::keccak256`: the 32-byte Keccak-256 digest of the
/// input. Nothing beyond its length is stated of the digest itself.
#[verifier::external_body]
fn keccak256(data: &[u8]) -> (r: [u8; 32])
    ensures
        r@ == keccak_digest(data@),
        r@.len() == 32,
{
    alloy::primitives::keccak256(data).0
}

/// The digest of a function or event signature: for an event, its topic.
pub fn signature_hash(signature: &str) -> (r: [u8; 32])
    ensures
        r@ == keccak_digest(signature.spec_bytes()),
{
    keccak256(signature.as_bytes())
}

/// The topic of an event with the given signature.
pub fn event_topic(signature: &str) -> (r: B256)
    ensures
        r.w0 == be_value(keccak_digest(signature.spec_bytes()), 0, 8),
        r.w1 == be_value(keccak_digest(signature.spec_bytes()), 8, 8),
        r.w2 == be_value(keccak_digest(signature.spec_bytes()), 16, 8),
        r.w3 == be_value(keccak_digest(signature.spec_bytes()), 24, 8),
{
    let digest = signature_hash(signature);
    B256::from_bytes(&digest)
}

/// The four-byte selector of a function signature: the first four bytes of
/// its digest.
pub open spec fn spec_selector(signature: Seq<u8>) -> Seq<u8> {
    keccak_digest(signature).subrange(0, 4)
}

/// The call data of a function that takes no arguments: its selector.
pub fn encode_call(signature: &str) -> (r: Vec<u8>)
    ensures
        r@ == spec_selector(signature.spec_bytes()),
{
    let digest = signature_hash(signature);
    let mut out: Vec<u8> = Vec::new();
    let mut i: usize = 0;
    while i < 4
        invariant
            i <= 4,
            digest@.len() == 32,
            out@ == digest@.subrange(0, i as int),
        decreases 4 - i,
    {
        out.push(digest[i]);
        i = i + 1;
        assert(out@ =~= digest@.subrange(0, i as int));
    }
    out
}

/// The 32 big-endian bytes of a word.
pub open spec fn b256_bytes(w: B256) -> Seq<u8> {
    u64_bytes(w.w0) + u64_bytes(w.w1) + u64_bytes(w.w2) + u64_bytes(w.w3)
}

/// The 8 big-endian bytes of a u64.
pub open spec fn u64_bytes(x: u64) -> Seq<u8> {
    Seq::new(8, |i: int| ((x as int / byte_pow((7 - i) as nat)) % 256) as u8)
}

pub fn push_u64_be(out: &mut Vec<u8>, x: u64)
    ensures
        final(out)@ == old(out)@ + u64_bytes(x),
{
    let ghost start = out@;
    let mut i: usize = 0;
    while i < 8
        invariant
            i <= 8,
            out@ == start + u64_bytes(x).subrange(0, i as int),
        decreases 8 - i,
    {
        let shift: u64 = 8 * (7 - i as u64);
        let b = ((x >> shift) % 256) as u8;
        proof {
            vstd::bits::lemma_u64_shr_is_div(x, shift);
            lemma_byte_pow_is_pow2((7 - i) as nat);
        }
        out.push(b);
        i = i + 1;
        assert(out@ =~= start + u64_bytes(x).subrange(0, i as int));
    }
    assert(u64_bytes(x).subrange(0, 8) =~= u64_bytes(x));
}

proof fn lemma_byte_pow_is_pow2(n: nat)
    ensures
        byte_pow(n) == vstd::arithmetic::power2::pow2(8 * n),
    decreases n,
{
    if n > 0 {
        lemma_byte_pow_is_pow2((n - 1) as nat);
        vstd::arithmetic::power2::lemma_pow2_adds(8, 8 * (n - 1) as nat);
        vstd::arithmetic::power2::lemma2_to64();
        assert(8 * n == 8 + 8 * (n - 1));
    } else {
        vstd::arithmetic::power2::lemma2_to64();
    }
}

/// The call data of a function that takes one 32-byte argument.
pub fn encode_call_with_word(signature: &str, arg: B256) -> (r: Vec<u8>)
    ensures
        r@ == spec_selector(signature.spec_bytes()) + b256_bytes(arg),
{
    let mut out = encode_call(signature);
    push_u64_be(&mut out, arg.w0);
    push_u64_be(&mut out, arg.w1);
    push_u64_be(&mut out, arg.w2);
    push_u64_be(&mut out, arg.w3);
    assert(out@ =~= spec_selector(signature.spec_bytes()) + b256_bytes(arg));
    out
}

/// The big-endian value of the last `n` bytes of word `index`.
pub open spec fn word_tail(data: Seq<u8>, index: int, n: nat) -> int {
    be_value(data, 32 * index + 32 - n, n)
}

/// The value of `n` big-endian bytes is the value of their first `a` bytes
/// shifted past the other `n - a`.
pub proof fn lemma_be_value_split(bytes: Seq<u8>, start: int, a: nat, b: nat)
    ensures
        be_value(bytes, start, a + b) == be_value(bytes, start, a) * byte_pow(b) + be_value(
            bytes,
            start + a,
            b,
        ),
    decreases b,
{
    if b > 0 {
        lemma_be_value_split(bytes, start, a, (b - 1) as nat);
        let x = be_value(bytes, start, a);
        let y = be_value(bytes, start + a, (b - 1) as nat);
        assert((x * byte_pow((b - 1) as nat) + y) * 256 == x * (256 * byte_pow((b - 1) as nat))
            + y * 256) by (nonlinear_arith);
        assert(be_value(bytes, start, a + b) == be_value(bytes, start, (a + b - 1) as nat) * 256
            + bytes[start + a + b - 1]);
    }
}

/// Reads `n <= 8` big-endian bytes.
fn read_be(bytes: &[u8], start: usize, n: usize) -> (r: u64)
    requires
        n <= 8,
        start + n <= bytes@.len(),
    ensures
        r == be_value(bytes@, start as int, n as nat),
        r < byte_pow(n as nat),
{
    let mut acc: u64 = 0;
    let mut i: usize = 0;
    let len = bytes.len();
    while i < n
        invariant
            i <= n <= 8,
            start + n <= bytes@.len(),
            len == bytes@.len(),
            acc == be_value(bytes@, start as int, i as nat),
            acc < byte_pow(i as nat),
        decreases n - i,
    {
        proof {
            lemma_byte_pow_le(i as nat, 7);
            assert(byte_pow(7) == 0x100_0000_0000_0000) by {
                reveal_with_fuel(byte_pow, 8);
            }
            assert(acc * 256 + bytes@[start + i as int] < 256 * byte_pow(i as nat))
                by (nonlinear_arith)
                requires
                    acc < byte_pow(i as nat),
                    bytes@[start + i as int] < 256,
            ;
        }
        acc = acc * 256 + bytes[start + i] as u64;
        i = i + 1;
    }
    acc
}

proof fn lemma_byte_pow_le(a: nat, b: nat)
    requires
        a <= b,
    ensures
        1 <= byte_pow(a) <= byte_pow(b),
    decreases b,
{
    lemma_byte_pow_positive(a);
    if a < b {
        lemma_byte_pow_le(a, (b - 1) as nat);
    }
}

/// The last `n <= 16` bytes of word `index` as an unsigned integer.
pub fn read_word_u128(data: &[u8], index: usize, n: usize) -> (r: u128)
    requires
        8 < n <= 16,
        32 * index + 32 <= data@.len(),
    ensures
        r == word_tail(data@, index as int, n as nat),
{
    let len = data.len();
    let start = 32 * index + 32 - n;
    let hi = read_be(data, start, n - 8);
    let lo = read_be(data, start + n - 8, 8);
    proof {
        lemma_be_value_split(data@, start as int, (n - 8) as nat, 8);
        lemma_byte_pow_le((n - 8) as nat, 8);
        assert(byte_pow(8) == 0x1_0000_0000_0000_0000) by {
            reveal_with_fuel(byte_pow, 9);
        }
        assert(hi * 0x1_0000_0000_0000_0000 + lo <= u128::MAX) by (nonlinear_arith)
            requires
                hi < 0x1_0000_0000_0000_0000,
                lo < 0x1_0000_0000_0000_0000,
        ;
    }
    (hi as u128) * 0x1_0000_0000_0000_0000u128 + lo as u128
}

/// The last `n <= 8` bytes of word `index` as an unsigned integer.
pub fn read_word_u64(data: &[u8], index: usize, n: usize) -> (r: u64)
    requires
        n <= 8,
        32 * index + 32 <= data@.len(),
    ensures
        r == word_tail(data@, index as int, n as nat),
        r < byte_pow(n as nat),
{
    let len = data.len();
    read_be(data, 32 * index + 32 - n, n)
}

/// Word `index` as an unsigned 256-bit integer.
pub fn read_word_u256(data: &[u8], index: usize) -> (r: U256)
    requires
        32 * index + 32 <= data@.len(),
    ensures
        r@ == be_value(data@, 32 * index, 32),
{
    let len = data.len();
    let start = 32 * index;
    let w0 = read_be(data, start, 8);
    let w1 = read_be(data, start + 8, 8);
    let w2 = read_be(data, start + 16, 8);
    let w3 = read_be(data, start + 24, 8);
    proof {
        lemma_be_value_split(data@, start as int, 8, 8);
        lemma_be_value_split(data@, start as int, 16, 8);
        lemma_be_value_split(data@, start as int, 24, 8);
        assert(byte_pow(8) == 0x1_0000_0000_0000_0000) by {
            reveal_with_fuel(byte_pow, 9);
        }
        assert(((w0 * 0x1_0000_0000_0000_0000int + w1) * 0x1_0000_0000_0000_0000int + w2)
            * 0x1_0000_0000_0000_0000int + w3 == w3 + p64() * w2 + p128() * w1 + crate::uint::p192()
            * w0) by (nonlinear_arith);
    }
    U256::from_limbs([w3, w2, w1, w0])
}

/// The last 20 bytes of word `index` as an unsigned 160-bit integer.
pub fn read_word_u160(data: &[u8], index: usize) -> (r: U160)
    requires
        32 * index + 32 <= data@.len(),
    ensures
        r.wf(),
        r@ == word_tail(data@, index as int, 20),
{
    let len = data.len();
    let start = 32 * index + 12;
    let l2 = read_be(data, start, 4);
    let l1 = read_be(data, start + 4, 8);
    let l0 = read_be(data, start + 12, 8);
    proof {
        lemma_be_value_split(data@, start as int, 4, 8);
        lemma_be_value_split(data@, start as int, 12, 8);
        assert(byte_pow(8) == 0x1_0000_0000_0000_0000) by {
            reveal_with_fuel(byte_pow, 9);
        }
        assert(byte_pow(4) == 0x1_0000_0000) by {
            reveal_with_fuel(byte_pow, 5);
        }
        assert(word_tail(data@, index as int, 20) == (l2 * 0x1_0000_0000_0000_0000 + l1)
            * 0x1_0000_0000_0000_0000 + l0);
        assert((l2 * 0x1_0000_0000_0000_0000 + l1) * 0x1_0000_0000_0000_0000int + l0 == l0 + p64()
            * l1 + p128() * l2) by (nonlinear_arith);
    }
    U160::from_limbs([l0, l1, l2])
}

/// The last 20 bytes of word `index` as an address.
pub fn read_word_address(data: &[u8], index: usize) -> (r: Address)
    requires
        32 * index + 32 <= data@.len(),
    ensures
        r.value() == word_tail(data@, index as int, 20),
{
    let len = data.len();
    let start = 32 * index + 12;
    let hi = read_be(data, start, 4);
    let mid = read_be(data, start + 4, 8);
    let lo = read_be(data, start + 12, 8);
    proof {
        lemma_be_value_split(data@, start as int, 4, 8);
        lemma_be_value_split(data@, start as int, 12, 8);
        assert(byte_pow(8) == 0x1_0000_0000_0000_0000) by {
            reveal_with_fuel(byte_pow, 9);
        }
        assert(byte_pow(4) == 0x1_0000_0000) by {
            reveal_with_fuel(byte_pow, 5);
        }
        assert(word_tail(data@, index as int, 20) == (hi * 0x1_0000_0000_0000_0000 + mid)
            * 0x1_0000_0000_0000_0000 + lo);
    }
    let r = Address { hi: hi as u32, mid, lo };
    assert(r.hi == hi);
    assert((hi * 0x1_0000_0000_0000_0000 + mid) * 0x1_0000_0000_0000_0000int + lo == hi
        * 0x1_0000_0000_0000_0000_0000_0000_0000_0000int + mid * 0x1_0000_0000_0000_0000int + lo)
        by (nonlinear_arith);
    r
}

/// A 24-bit two's complement value read as a signed integer.
pub open spec fn sign_extend_24(v: int) -> int {
    if v >= 0x80_0000 {
        v - 0x100_0000
    } else {
        v
    }
}

/// The last 3 bytes of word `index` as a signed 24-bit integer.
pub fn read_word_i24(data: &[u8], index: usize) -> (r: i32)
    requires
        32 * index + 32 <= data@.len(),
    ensures
        r == sign_extend_24(word_tail(data@, index as int, 3)),
        -0x80_0000 <= r < 0x80_0000,
{
    let v = read_word_u64(data, index, 3);
    proof {
        assert(byte_pow(3) == 0x100_0000) by {
            reveal_with_fuel(byte_pow, 4);
        }
    }
    if v >= 0x80_0000 {
        (v as i32) - 0x100_0000
    } else {
        v as i32
    }
}

/// The 32-byte word of a u64 argument.
pub open spec fn u64_word(x: u64) -> Seq<u8> {
    Seq::new(24, |i: int| 0u8) + u64_bytes(x)
}

/// The 32-byte word of an address argument.
pub open spec fn address_word(a: Address) -> Seq<u8> {
    Seq::new(8, |i: int| 0u8) + u64_bytes(a.hi as u64) + u64_bytes(a.mid) + u64_bytes(a.lo)
}

pub fn push_zeros(out: &mut Vec<u8>, n: usize)
    ensures
        final(out)@ == old(out)@ + Seq::new(n as nat, |i: int| 0u8),
{
    let ghost start = out@;
    let mut i: usize = 0;
    while i < n
        invariant
            i <= n,
            out@ == start + Seq::new(i as nat, |j: int| 0u8),
        decreases n - i,
    {
        out.push(0);
        i = i + 1;
        assert(out@ =~= start + Seq::new(i as nat, |j: int| 0u8));
    }
}

/// Appends the word of a u64 argument.
pub fn push_u64_word(out: &mut Vec<u8>, x: u64)
    ensures
        final(out)@ == old(out)@ + u64_word(x),
{
    let ghost start = out@;
    push_zeros(out, 24);
    push_u64_be(out, x);
    assert(out@ =~= start + u64_word(x));
}

/// Appends the word of an address argument.
pub fn push_address_word(out: &mut Vec<u8>, a: Address)
    ensures
        final(out)@ == old(out)@ + address_word(a),
{
    let ghost start = out@;
    push_zeros(out, 8);
    push_u64_be(out, a.hi as u64);
    push_u64_be(out, a.mid);
    push_u64_be(out, a.lo);
    assert(out@ =~= start + address_word(a));
}

/// Equal bytes have equal values.
pub(crate) proof fn lemma_be_value_same_bytes(a: Seq<u8>, sa: int, b: Seq<u8>, sb: int, n: nat)
    requires
        forall|k: int| sa <= k < sa + n ==> #[trigger] a[k] == b[k - sa + sb],
    ensures
        be_value(a, sa, n) == be_value(b, sb, n),
    decreases n,
{
    if n > 0 {
        lemma_be_value_same_bytes(a, sa, b, sb, (n - 1) as nat);
        assert(a[sa + (n - 1)] == b[sb + (n - 1)]);
    }
}

/// Bytes `s .. s + n` of the big-endian bytes of `x` hold `x` without its
/// last `8 - s - n` bytes, and below `256^n`.
pub(crate) proof fn lemma_u64_bytes_value(x: u64, s: nat, n: nat)
    requires
        s + n <= 8,
    ensures
        be_value(u64_bytes(x), s as int, n) == (x as int / byte_pow((8 - s - n) as nat)) % byte_pow(n),
    decreases n,
{
    let p = byte_pow((8 - s - n) as nat);
    lemma_byte_pow_positive((8 - s - n) as nat);
    lemma_byte_pow_positive(n);
    if n == 0 {
        assert(byte_pow(0) == 1);
    } else {
        lemma_u64_bytes_value(x, s, (n - 1) as nat);
        let m = (n - 1) as nat;
        lemma_byte_pow_positive(m);
        let y = x as int / p;
        assert(byte_pow((8 - s - m) as nat) == 256 * p);
        assert(x as int / (p * 256) == y / 256) by {
            vstd::arithmetic::div_mod::lemma_div_denominator(x as int, p, 256);
        }
        assert(p * 256 == 256 * p) by (nonlinear_arith);
        assert(u64_bytes(x)[s + n - 1] == (y % 256) as u8);
        assert(byte_pow(n) == 256 * byte_pow(m));
        assert(y >= 0) by {
            vstd::arithmetic::div_mod::lemma_div_pos_is_pos(x as int, p);
        }
        vstd::arithmetic::div_mod::lemma_breakdown(y, 256, byte_pow(m));
        assert(((y / 256) % byte_pow(m)) * 256 == 256 * ((y / 256) % byte_pow(m))) by (nonlinear_arith);
    }
}

/// The 20 address bytes of an address's 32-byte word hold its value.
pub proof fn lemma_address_word_value(a: Address)
    ensures
        address_word(a).len() == 32,
        be_value(address_word(a), 12, 20) == a.value(),
{
    let w = address_word(a);
    assert(w.len() == 32);
    lemma_be_value_split(w, 12, 4, 16);
    lemma_be_value_split(w, 16, 8, 8);
    lemma_be_value_same_bytes(w, 12, u64_bytes(a.hi as u64), 4, 4);
    lemma_be_value_same_bytes(w, 16, u64_bytes(a.mid), 0, 8);
    lemma_be_value_same_bytes(w, 24, u64_bytes(a.lo), 0, 8);
    lemma_u64_bytes_value(a.hi as u64, 4, 4);
    lemma_u64_bytes_value(a.mid, 0, 8);
    lemma_u64_bytes_value(a.lo, 0, 8);
    assert(byte_pow(0) == 1);
    assert(byte_pow(4) == 0x1_0000_0000) by {
        reveal_with_fuel(byte_pow, 5);
    }
    assert(byte_pow(8) == 0x1_0000_0000_0000_0000) by {
        reveal_with_fuel(byte_pow, 9);
    }
    assert(byte_pow(16) == 0x1_0000_0000_0000_0000_0000_0000_0000_0000) by {
        lemma_byte_pow_is_pow2(16);
        vstd::arithmetic::power2::lemma2_to64();
        vstd::arithmetic::power2::lemma_pow2_adds(64, 64);
        lemma_byte_pow_is_pow2(8);
    }
    assert((a.hi as int) / 1 == a.hi);
    assert((a.mid as int) / 1 == a.mid);
    assert((a.lo as int) / 1 == a.lo);
    assert((a.hi as int) % 0x1_0000_0000 == a.hi);
    assert((a.mid as int) % 0x1_0000_0000_0000_0000 == a.mid);
    assert((a.lo as int) % 0x1_0000_0000_0000_0000 == a.lo);
    assert(be_value(w, 12, 4) == a.hi);
    assert(be_value(w, 16, 8) == a.mid);
    assert(be_value(w, 24, 8) == a.lo);
    assert(be_value(w, 16, 16) == a.mid * 0x1_0000_0000_0000_0000 + a.lo);
    assert(be_value(w, 12, 20) == a.hi * 0x1_0000_0000_0000_0000_0000_0000_0000_0000 + be_value(w, 16, 16));
}

/// The selector of a signature.
pub fn selector(signature: &str) -> (r: Vec<u8>)
    ensures
        r@ == spec_selector(signature.spec_bytes()),
{
    encode_call(signature)
}

/// A zero byte string has value zero; any other has a positive value.
pub proof fn lemma_be_value_zero(bytes: Seq<u8>, start: int, n: nat)
    ensures
        (forall|k: int| start <= k < start + n ==> bytes[k] == 0) ==> be_value(bytes, start, n)
            == 0,
        (exists|k: int| start <= k < start + n && bytes[k] != 0) ==> be_value(bytes, start, n)
            >= 1,
        be_value(bytes, start, n) >= 0,
    decreases n,
{
    if n > 0 {
        lemma_be_value_zero(bytes, start, (n - 1) as nat);
        if exists|k: int| start <= k < start + n && bytes[k] != 0 {
            let k = choose|k: int| start <= k < start + n && bytes[k] != 0;
            if k < start + n - 1 {
                assert(exists|k2: int| start <= k2 < start + (n - 1) && bytes[k2] != 0);
            }
        }
    }
}

/// The 32-byte word starting at byte `start` as a u64, when its value fits.
pub fn read_word_at_u64(data: &[u8], start: usize) -> (r: Option<u64>)
    requires
        start + 32 <= data@.len(),
    ensures
        be_value(data@, start as int, 32) < 0x1_0000_0000_0000_0000 ==> (r matches Some(v) && v
            == be_value(data@, start as int, 32)),
        be_value(data@, start as int, 32) >= 0x1_0000_0000_0000_0000 ==> r is None,
{
    let len = data.len();
    let mut k: usize = 0;
    while k < 24
        invariant
            k <= 24,
            start + 32 <= data@.len(),
            len == data@.len(),
            forall|j: int| start <= j < start + k ==> data@[j] == 0,
        decreases 24 - k,
    {
        if data[start + k] != 0 {
            proof {
                lemma_be_value_zero(data@, start as int, 24);
                assert(data@[start + k] != 0);
                lemma_be_value_split(data@, start as int, 24, 8);
                lemma_be_value_zero(data@, start + 24, 8);
                lemma_byte_pow_positive(8);
                assert(byte_pow(8) == 0x1_0000_0000_0000_0000) by {
                    reveal_with_fuel(byte_pow, 9);
                }
            }
            return None;
        }
        k = k + 1;
    }
    let v = read_be(data, start + 24, 8);
    proof {
        lemma_be_value_zero(data@, start as int, 24);
        lemma_be_value_split(data@, start as int, 24, 8);
    }
    Some(v)
}

/// The address held in the 32-byte word starting at byte `start`: its last
/// 20 bytes.
pub fn read_address_at(data: &[u8], start: usize) -> (r: Address)
    requires
        start + 32 <= data@.len(),
    ensures
        r.value() == be_value(data@, start + 12, 20),
{
    let len = data.len();
    let s = start + 12;
    let hi = read_be(data, s, 4);
    let mid = read_be(data, s + 4, 8);
    let lo = read_be(data, s + 12, 8);
    proof {
        lemma_be_value_split(data@, s as int, 4, 8);
        lemma_be_value_split(data@, s as int, 12, 8);
        assert(byte_pow(8) == 0x1_0000_0000_0000_0000) by {
            reveal_with_fuel(byte_pow, 9);
        }
        assert(byte_pow(4) == 0x1_0000_0000) by {
            reveal_with_fuel(byte_pow, 5);
        }
        assert(be_value(data@, s as int, 20) == (hi * 0x1_0000_0000_0000_0000 + mid)
            * 0x1_0000_0000_0000_0000 + lo);
    }
    let r = Address { hi: hi as u32, mid, lo };
    assert(r.hi == hi);
    assert((hi * 0x1_0000_0000_0000_0000 + mid) * 0x1_0000_0000_0000_0000int + lo == hi
        * 0x1_0000_0000_0000_0000_0000_0000_0000_0000int + mid * 0x1_0000_0000_0000_0000int + lo)
        by (nonlinear_arith);
    r
}

/// The return data of a function returning `address[]`: the offset of the
/// array, its length at that offset, then one word per element.
pub open spec fn spec_address_array(data: Seq<u8>) -> Option<Seq<int>> {
    if data.len() < 32 {
        None
    } else {
        let off = be_value(data, 0, 32);
        if off + 32 > data.len() {
            None
        } else {
            let n = be_value(data, off, 32);
            if off + 32 + 32 * n > data.len() {
                None
            } else {
                Some(Seq::new(n as nat, |k: int| be_value(data, off + 32 + 32 * k + 12, 20)))
            }
        }
    }
}

/// Decodes the return data of a function returning `address[]`.
pub fn decode_address_array(data: &[u8]) -> (r: Option<Vec<Address>>)
    ensures
        spec_address_array(data@) is None ==> r is None,
        spec_address_array(data@) matches Some(vals) ==> (r matches Some(addrs) && addrs@.len()
            == vals.len() && forall|k: int| 0 <= k < vals.len() ==> #[trigger] addrs@[k].value()
            == vals[k]),
{
    let len = data.len();
    if len < 32 {
        return None;
    }
    let off = match read_word_at_u64(data, 0) {
        Some(o) => o,
        None => {
            assert(len <= usize::MAX);
            return None;
        },
    };
    if off > len as u64 || len as u64 - off < 32 {
        return None;
    }
    let off = off as usize;
    let n = match read_word_at_u64(data, off) {
        Some(n) => n,
        None => {
            assert(len <= usize::MAX);
            return None;
        },
    };
    let room = ((len - off - 32) / 32) as u64;
    if n > room {
        return None;
    }
    let n = n as usize;
    let mut out: Vec<Address> = Vec::new();
    let mut k: usize = 0;
    while k < n
        invariant
            k <= n,
            len == data@.len(),
            off + 32 + 32 * n <= len,
            spec_address_array(data@) == Some(
                Seq::new(n as nat, |j: int| be_value(data@, off + 32 + 32 * j + 12, 20)),
            ),
            out@.len() == k,
            forall|j: int|
                0 <= j < k ==> #[trigger] out@[j].value() == be_value(data@, off + 32 + 32 * j + 12, 20),
        decreases n - k,
    {
        let a = read_address_at(data, off + 32 + 32 * k);
        out.push(a);
        k = k + 1;
    }
    Some(out)
}

/// The return data of a function returning `bytes`: the offset of the
/// byte string, its length at that offset, then its bytes.
pub open spec fn spec_bytes_return(data: Seq<u8>) -> Option<Seq<u8>> {
    if data.len() < 32 {
        None
    } else {
        let off = be_value(data, 0, 32);
        if off + 32 > data.len() {
            None
        } else {
            let n = be_value(data, off, 32);
            if off + 32 + n > data.len() {
                None
            } else {
                Some(data.subrange(off + 32, off + 32 + n))
            }
        }
    }
}

/// Decodes the return data of a function returning `bytes`.
pub fn decode_bytes(data: &[u8]) -> (r: Option<Vec<u8>>)
    ensures
        spec_bytes_return(data@) is None ==> r is None,
        spec_bytes_return(data@) matches Some(b) ==> (r matches Some(v) && v@ == b),
{
    let len = data.len();
    if len < 32 {
        return None;
    }
    let off = match read_word_at_u64(data, 0) {
        Some(o) => o,
        None => {
            assert(len <= usize::MAX);
            return None;
        },
    };
    if off > len as u64 || len as u64 - off < 32 {
        return None;
    }
    let off = off as usize;
    let n = match read_word_at_u64(data, off) {
        Some(n) => n,
        None => {
            assert(len <= usize::MAX);
            return None;
        },
    };
    if n > (len - off - 32) as u64 {
        return None;
    }
    let n = n as usize;
    let mut out: Vec<u8> = Vec::new();
    let mut k: usize = 0;
    while k < n
        invariant
            k <= n,
            len == data@.len(),
            off + 32 + n <= len,
            out@ == data@.subrange(off + 32, off + 32 + k),
        decreases n - k,
    {
        out.push(data[off + 32 + k]);
        k = k + 1;
        assert(out@ =~= data@.subrange(off + 32, off + 32 + k));
    }
    Some(out)
}

/// The 20 bytes of an address.
pub open spec fn address_path_bytes(a: Address) -> Seq<u8> {
    address_word(a).subrange(12, 32)
}

/// Appends the 20 bytes of an address.
pub fn push_address_bytes(out: &mut Vec<u8>, a: Address)
    ensures
        final(out)@ == old(out)@ + address_path_bytes(a),
{
    let mut word: Vec<u8> = Vec::new();
    push_address_word(&mut word, a);
    let ghost start = out@;
    let mut k: usize = 12;
    while k < 32
        invariant
            12 <= k <= 32,
            word@ == address_word(a),
            word@.len() == 32,
            out@ == start + word@.subrange(12, k as int),
        decreases 32 - k,
    {
        out.push(word[k]);
        k = k + 1;
        assert(out@ =~= start + word@.subrange(12, k as int));
    }
}

} // verus!
