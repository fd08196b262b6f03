//! On-chain identifiers: 20-byte addresses, 32-byte words and token
//! addresses tagged with their blockchain.
use crate::blockchain::Blockchain;
use vstd::prelude::*;

verus! {

/// A 20-byte account address, as three big-endian words: bytes 0..4 in
/// `hi`, bytes 4..12 in `mid`, bytes 12..20 in `lo`.
#[derive(Debug, Clone, Copy, PartialEq, Eq, Structural, PartialOrd, Ord, Hash)]
pub struct Address {
    pub hi: u32,
    pub mid: u64,
    pub lo: u64,
}

/// A 32-byte word, as four big-endian 64-bit words (`w0` first).
#[derive(Debug, Clone, Copy, PartialEq, Eq, Structural, PartialOrd, Ord, Hash)]
pub struct B256 {
    pub w0: u64,
    pub w1: u64,
    pub w2: u64,
    pub w3: u64,
}

/// The big-endian value of `n` bytes starting at `start`.
pub open spec fn be_value(bytes: Seq<u8>, start: int, n: nat) -> int
    decreases n,
{
    if n == 0 {
        0
    } else {
        be_value(bytes, start, (n - 1) as nat) * 256 + bytes[start + n - 1]
    }
}

/// 256^n.
pub open spec fn byte_pow(n: nat) -> int
    decreases n,
{
    if n == 0 {
        1
    } else {
        256 * byte_pow((n - 1) as nat)
    }
}

proof fn lemma_byte_pow_bound(n: nat)
    requires
        n <= 7,
    ensures
        1 <= byte_pow(n) <= 0x100_0000_0000_0000,
    decreases n,
{
    if n > 0 {
        lemma_byte_pow_bound((n - 1) as nat);
        if n == 7 {
            reveal_with_fuel(byte_pow, 8);
        } else {
            assert(byte_pow((n - 1) as nat) <= 0x1_0000_0000_0000) by {
                lemma_byte_pow_below((n - 1) as nat);
            }
        }
    }
}

proof fn lemma_byte_pow_below(n: nat)
    requires
        n <= 6,
    ensures
        byte_pow(n) <= 0x1_0000_0000_0000,
    decreases 6 - n,
{
    if n < 6 {
        lemma_byte_pow_below((n + 1) as nat);
        lemma_byte_pow_positive(n);
    } else {
        reveal_with_fuel(byte_pow, 7);
    }
}

pub proof fn lemma_byte_pow_positive(n: nat)
    ensures
        byte_pow(n) >= 1,
    decreases n,
{
    if n > 0 {
        lemma_byte_pow_positive((n - 1) as nat);
    }
}

/// Reads `n <= 8` big-endian bytes starting at `start` into a u64.
fn read_be_u64(bytes: &[u8], start: usize, n: usize) -> (r: u64)
    requires
        n <= 8,
        start + n <= bytes@.len(),
    ensures
        r == be_value(bytes@, start as int, n as nat),
        r < byte_pow(n as nat),
{
    let mut acc: u64 = 0;
    let mut i: usize = 0;
    let len = bytes.len();
    while i < n
        invariant
            i <= n <= 8,
            start + n <= bytes@.len(),
            len == bytes@.len(),
            acc == be_value(bytes@, start as int, i as nat),
            acc < byte_pow(i as nat),
        decreases n - i,
    {
        proof {
            lemma_byte_pow_bound(i as nat);
            assert(acc * 256 + bytes@[start + i as int] < 256 * byte_pow(i as nat))
                by (nonlinear_arith)
                requires
                    acc < byte_pow(i as nat),
                    bytes@[start + i as int] < 256,
            ;
        }
        acc = acc * 256 + bytes[start + i] as u64;
        i = i + 1;
    }
    acc
}

impl Address {
    /// The address as one big-endian number.
    pub open spec fn value(&self) -> int {
        self.hi * 0x1_0000_0000_0000_0000_0000_0000_0000_0000 + self.mid * 0x1_0000_0000_0000_0000 + self.lo
    }

    /// Two addresses are equal exactly when their values are.
    pub proof fn lemma_value_determines_address(a: Address, b: Address)
        ensures
            a.value() == b.value() <==> a == b,
    {
        if a.value() == b.value() {
            let p = 0x1_0000_0000_0000_0000int;
            assert(a.value() == (a.hi * p + a.mid) * p + a.lo);
            assert(b.value() == (b.hi * p + b.mid) * p + b.lo);
            vstd::arithmetic::div_mod::lemma_fundamental_div_mod_converse(
                a.value(),
                p,
                a.hi * p + a.mid,
                a.lo as int,
            );
            vstd::arithmetic::div_mod::lemma_fundamental_div_mod_converse(
                b.value(),
                p,
                b.hi * p + b.mid,
                b.lo as int,
            );
            vstd::arithmetic::div_mod::lemma_fundamental_div_mod_converse(
                a.hi * p + a.mid,
                p,
                a.hi as int,
                a.mid as int,
            );
            vstd::arithmetic::div_mod::lemma_fundamental_div_mod_converse(
                b.hi * p + b.mid,
                p,
                b.hi as int,
                b.mid as int,
            );
        }
    }

    /// The address made of 20 big-endian bytes.
    pub fn from_bytes(bytes: &[u8; 20]) -> (r: Address)
        ensures
            r.hi == be_value(bytes@, 0, 4),
            r.mid == be_value(bytes@, 4, 8),
            r.lo == be_value(bytes@, 12, 8),
    {
        let s = bytes.as_slice();
        let hi = read_be_u64(s, 0, 4);
        proof {
            reveal_with_fuel(byte_pow, 5);
        }
        Address { hi: hi as u32, mid: read_be_u64(s, 4, 8), lo: read_be_u64(s, 12, 8) }
    }
}

impl B256 {
    /// The word made of 32 big-endian bytes.
    pub fn from_bytes(bytes: &[u8; 32]) -> (r: B256)
        ensures
            r.w0 == be_value(bytes@, 0, 8),
            r.w1 == be_value(bytes@, 8, 8),
            r.w2 == be_value(bytes@, 16, 8),
            r.w3 == be_value(bytes@, 24, 8),
    {
        let s = bytes.as_slice();
        B256 {
            w0: read_be_u64(s, 0, 8),
            w1: read_be_u64(s, 8, 8),
            w2: read_be_u64(s, 16, 8),
            w3: read_be_u64(s, 24, 8),
        }
    }
}

/// A token's address on a given blockchain.
#[derive(Debug, Clone, Copy, PartialEq, Eq, Structural, PartialOrd, Ord, Hash)]
pub struct TokenAddress(pub Address, pub Blockchain);

impl TokenAddress {
    /// The token whose address is ABI-encoded in `bytes` (the last 20
    /// bytes of the first word), on `blockchain`; `None` when `bytes` is
    /// shorter than a word.
    pub fn decode_from_bytes(bytes: &[u8], blockchain: Blockchain) -> (r: Option<TokenAddress>)
        ensures
            bytes@.len() < 32 ==> r is None,
            bytes@.len() >= 32 ==> (r matches Some(t) && t.1 == blockchain && t.0.value()
                == be_value(bytes@, 12, 20)),
    {
        if bytes.len() < 32 {
            return None;
        }
        Some(TokenAddress(crate::abi::read_address_at(bytes, 0), blockchain))
    }

    /// The blockchain the token lives on.
    pub fn blockchain(&self) -> (r: Blockchain)
        ensures
            r == self.1,
    {
        self.1
    }
}

/// What the library needs to know of a token: its address and how many
/// decimals its amounts carry.
#[derive(Debug, Clone, Copy, PartialEq, Eq, Structural)]
pub struct TokenInfo {
    pub address: TokenAddress,
    pub decimals: u32,
}

} // verus!
