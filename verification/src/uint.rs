//! Fixed-width unsigned integers held as little-endian 64-bit limbs.
//!
//! The arithmetic itself is done by `alloy::primitives` (ruint); each such
//! operation is a small trusted wrapper whose contract states the result over
//! the mathematical value `@` of its operands.
use vstd::arithmetic::power2::{lemma2_to64, lemma_pow2_adds, pow2};
use vstd::prelude::*;

verus! {

/// 2^64.
pub open spec fn p64() -> int {
    0x1_0000_0000_0000_0000int
}

/// 2^96.
pub open spec fn p96() -> int {
    0x1_0000_0000_0000_0000_0000_0000int
}

/// 2^128.
pub open spec fn p128() -> int {
    0x1_0000_0000_0000_0000_0000_0000_0000_0000int
}

/// 2^160.
pub open spec fn p160() -> int {
    0x1_0000_0000_0000_0000_0000_0000_0000_0000_0000_0000int
}

/// 2^192.
pub open spec fn p192() -> int {
    0x1_0000_0000_0000_0000_0000_0000_0000_0000_0000_0000_0000_0000int
}

/// 2^256.
pub open spec fn p256() -> int {
    0x1_0000_0000_0000_0000_0000_0000_0000_0000_0000_0000_0000_0000_0000_0000_0000_0000int
}

/// 2^512.
pub open spec fn p512() -> int {
    p256() * p256()
}

/// The value of a little-endian sequence of 64-bit limbs.
pub open spec fn limbs_value(limbs: Seq<u64>) -> int
    decreases limbs.len(),
{
    if limbs.len() == 0 {
        0
    } else {
        limbs[0] + p64() * limbs_value(limbs.drop_first())
    }
}

/// An unsigned 160-bit integer (an Ethereum square-root price, for one).
#[derive(Debug, Clone, Copy, PartialEq, Eq)]
pub struct U160 {
    pub limbs: [u64; 3],
}

/// An unsigned 256-bit integer.
#[derive(Debug, Clone, Copy, PartialEq, Eq)]
pub struct U256 {
    pub limbs: [u64; 4],
}

/// An unsigned 512-bit integer, used for intermediate products.
#[derive(Debug, Clone, Copy, PartialEq, Eq)]
pub struct U512 {
    pub limbs: [u64; 8],
}

impl View for U160 {
    type V = int;

    open spec fn view(&self) -> int {
        self.limbs[0] + p64() * self.limbs[1] + p128() * self.limbs[2]
    }
}

impl View for U256 {
    type V = int;

    open spec fn view(&self) -> int {
        self.limbs[0] + p64() * self.limbs[1] + p128() * self.limbs[2] + p192() * self.limbs[3]
    }
}

impl View for U512 {
    type V = int;

    open spec fn view(&self) -> int {
        limbs_value(self.limbs@)
    }
}

/// The powers of two used by the fixed-width types.
pub proof fn lemma_pow2_values()
    ensures
        pow2(32) == 0x1_0000_0000,
        pow2(64) == p64(),
        pow2(96) == p96(),
        pow2(128) == p128(),
        pow2(160) == p160(),
        pow2(192) == p192(),
        pow2(256) == p256(),
        pow2(512) == p512(),
{
    lemma2_to64();
    lemma_pow2_adds(32, 32);
    lemma_pow2_adds(64, 32);
    lemma_pow2_adds(64, 64);
    lemma_pow2_adds(128, 32);
    lemma_pow2_adds(128, 64);
    lemma_pow2_adds(128, 128);
    lemma_pow2_adds(256, 256);
    assert(pow2(256) == pow2(128) * pow2(128));
    assert(p128() * p128() == p256()) by (nonlinear_arith);
    assert(pow2(512) == pow2(256) * pow2(256));
}

proof fn lemma_u64_split_u128(x: u128)
    ensures
        x == (x as u64) + p64() * ((x >> 64u128) as u64),
        (x >> 64u128) as u64 == x / (p64() as u128),
{
    assert(x == (x as u64) + 0x1_0000_0000_0000_0000u128 * ((x >> 64u128) as u64)) by (bit_vector);
    assert((x >> 64u128) as u64 == x / 0x1_0000_0000_0000_0000u128) by (bit_vector);
}

impl U160 {
    /// Well-formedness: the top limb holds only 32 bits.
    pub open spec fn wf(&self) -> bool {
        self.limbs[2] < 0x1_0000_0000
    }

    /// Builds a U160 from its little-endian limbs.
    pub fn from_limbs(limbs: [u64; 3]) -> (r: U160)
        requires
            limbs[2] < 0x1_0000_0000,
        ensures
            r.wf(),
            r.limbs == limbs,
            r@ == limbs[0] + p64() * limbs[1] + p128() * limbs[2],
    {
        U160 { limbs }
    }

    /// The limbs of the value.
    pub fn as_limbs(&self) -> (r: [u64; 3])
        ensures
            r == self.limbs,
    {
        self.limbs
    }

    /// Zero.
    pub fn zero() -> (r: U160)
        ensures
            r.wf(),
            r@ == 0,
    {
        U160 { limbs: [0, 0, 0] }
    }

    /// Builds a U160 from a value known to fit.
    pub fn from_u256(x: U256) -> (r: U160)
        requires
            x@ < p160(),
        ensures
            r.wf(),
            r@ == x@,
    {
        U160 { limbs: [x.limbs[0], x.limbs[1], x.limbs[2]] }
    }

    /// The value widened to 256 bits.
    pub fn to_u256(&self) -> (r: U256)
        ensures
            r@ == self@,
    {
        U256 { limbs: [self.limbs[0], self.limbs[1], self.limbs[2], 0] }
    }

    /// The value widened to 512 bits.
    pub fn to_u512(&self) -> (r: U512)
        ensures
            r@ == self@,
    {
        let r = U512 { limbs: [self.limbs[0], self.limbs[1], self.limbs[2], 0, 0, 0, 0, 0] };
        proof {
            reveal_with_fuel(limbs_value, 9);
        }
        r
    }

    /// Whether the value is zero.
    pub fn is_zero(&self) -> (r: bool)
        ensures
            r == (self@ == 0),
    {
        self.limbs[0] == 0 && self.limbs[1] == 0 && self.limbs[2] == 0
    }
}

impl U256 {
    /// Builds a U256 from its little-endian limbs.
    pub fn from_limbs(limbs: [u64; 4]) -> (r: U256)
        ensures
            r.limbs == limbs,
    {
        U256 { limbs }
    }

    /// The value of 32 big-endian bytes.
    pub fn from_be_bytes(bytes: [u8; 32]) -> (r: U256)
        ensures
            r@ == crate::primitives::be_value(bytes@, 0, 32),
    {
        let w = crate::primitives::B256::from_bytes(&bytes);
        proof {
            crate::abi::lemma_be_value_split(bytes@, 0, 8, 8);
            crate::abi::lemma_be_value_split(bytes@, 0, 16, 8);
            crate::abi::lemma_be_value_split(bytes@, 0, 24, 8);
            assert(crate::primitives::byte_pow(8) == 0x1_0000_0000_0000_0000) by {
                reveal_with_fuel(crate::primitives::byte_pow, 9);
            }
        }
        U256 { limbs: [w.w3, w.w2, w.w1, w.w0] }
    }

    /// The limbs of the value.
    pub fn as_limbs(&self) -> (r: [u64; 4])
        ensures
            r == self.limbs,
    {
        self.limbs
    }

    /// Zero.
    pub fn zero() -> (r: U256)
        ensures
            r@ == 0,
    {
        U256 { limbs: [0, 0, 0, 0] }
    }

    /// The largest U256, 2^256 - 1.
    pub fn max_value() -> (r: U256)
        ensures
            r@ == p256() - 1,
    {
        U256 { limbs: [u64::MAX, u64::MAX, u64::MAX, u64::MAX] }
    }

    /// The value of a u128.
    pub fn from_u128(x: u128) -> (r: U256)
        ensures
            r@ == x,
    {
        proof {
            lemma_u64_split_u128(x);
        }
        U256 { limbs: [x as u64, (x >> 64u128) as u64, 0, 0] }
    }

    /// The value of a u64.
    pub fn from_u64(x: u64) -> (r: U256)
        ensures
            r@ == x,
    {
        U256 { limbs: [x, 0, 0, 0] }
    }

    /// The value widened to 512 bits.
    pub fn to_u512(&self) -> (r: U512)
        ensures
            r@ == self@,
    {
        let r = U512 {
            limbs: [self.limbs[0], self.limbs[1], self.limbs[2], self.limbs[3], 0, 0, 0, 0],
        };
        proof {
            reveal_with_fuel(limbs_value, 9);
        }
        r
    }

    /// The value as a u128, when it fits.
    pub fn to_u128(&self) -> (r: Option<u128>)
        ensures
            self@ < p128() ==> r == Some(self@ as u128),
            self@ >= p128() ==> r is None,
    {
        if self.limbs[2] == 0 && self.limbs[3] == 0 {
            let lo = self.limbs[0] as u128;
            let hi = self.limbs[1] as u128;
            assert(hi * 0x1_0000_0000_0000_0000u128 + lo < p128()) by (nonlinear_arith)
                requires
                    hi < p64(),
                    lo < p64(),
            ;
            Some(hi * 0x1_0000_0000_0000_0000u128 + lo)
        } else {
            None
        }
    }

    /// Whether the value is zero.
    pub fn is_zero(&self) -> (r: bool)
        ensures
            r == (self@ == 0),
    {
        self.limbs[0] == 0 && self.limbs[1] == 0 && self.limbs[2] == 0 && self.limbs[3] == 0
    }

    /// `self < other` on the values.
    pub fn lt(&self, other: &U256) -> (r: bool)
        ensures
            r == (self@ < other@),
    {
        if self.limbs[3] != other.limbs[3] {
            self.limbs[3] < other.limbs[3]
        } else if self.limbs[2] != other.limbs[2] {
            self.limbs[2] < other.limbs[2]
        } else if self.limbs[1] != other.limbs[1] {
            self.limbs[1] < other.limbs[1]
        } else {
            self.limbs[0] < other.limbs[0]
        }
    }

    /// `self * rhs` modulo 2^256, computed by ruint's `Mul`.
    #[verifier::external_body]
    pub(crate) fn wrapping_mul(self, rhs: U256) -> (r: U256)
        ensures
            r@ == (self@ * rhs@) % p256(),
    {
        let a = alloy::primitives::U256::from_limbs(self.limbs);
        let b = alloy::primitives::U256::from_limbs(rhs.limbs);
        U256 { limbs: (a * b).into_limbs() }
    }

    /// `self + rhs` modulo 2^256, computed by ruint's `Add`.
    #[verifier::external_body]
    pub(crate) fn wrapping_add(self, rhs: U256) -> (r: U256)
        ensures
            r@ == (self@ + rhs@) % p256(),
    {
        let a = alloy::primitives::U256::from_limbs(self.limbs);
        let b = alloy::primitives::U256::from_limbs(rhs.limbs);
        U256 { limbs: (a + b).into_limbs() }
    }

    /// `self >> n`, computed by ruint's `Shr<usize>`: the value divided by
    /// 2^n, rounded down.
    #[verifier::external_body]
    pub(crate) fn shr(self, n: usize) -> (r: U256)
        ensures
            r@ == self@ / (pow2(n as nat) as int),
    {
        let a = alloy::primitives::U256::from_limbs(self.limbs);
        U256 { limbs: (a >> n).into_limbs() }
    }

    /// `self << n`, computed by ruint's `Shl<usize>`: the bits shifted past
    /// the top are dropped.
    #[verifier::external_body]
    pub(crate) fn shl(self, n: usize) -> (r: U256)
        ensures
            r@ == (self@ * (pow2(n as nat) as int)) % p256(),
    {
        let a = alloy::primitives::U256::from_limbs(self.limbs);
        U256 { limbs: (a << n).into_limbs() }
    }

    /// `self / rhs` rounded down, computed by ruint's `Div`, which panics on
    /// a zero divisor.
    #[verifier::external_body]
    pub(crate) fn div(self, rhs: U256) -> (r: U256)
        requires
            rhs@ != 0,
        ensures
            r@ == self@ / rhs@,
    {
        let a = alloy::primitives::U256::from_limbs(self.limbs);
        let b = alloy::primitives::U256::from_limbs(rhs.limbs);
        U256 { limbs: (a / b).into_limbs() }
    }

    /// `self % rhs`, computed by ruint's `Rem`, which panics on a zero
    /// divisor.
    #[verifier::external_body]
    pub(crate) fn rem(self, rhs: U256) -> (r: U256)
        requires
            rhs@ != 0,
        ensures
            r@ == self@ % rhs@,
    {
        let a = alloy::primitives::U256::from_limbs(self.limbs);
        let b = alloy::primitives::U256::from_limbs(rhs.limbs);
        U256 { limbs: (a % b).into_limbs() }
    }

    /// ruint's `checked_div`: `None` for a zero divisor, else the quotient
    /// rounded down.
    #[verifier::external_body]
    pub(crate) fn checked_div(self, rhs: U256) -> (r: Option<U256>)
        ensures
            rhs@ == 0 ==> r is None,
            rhs@ != 0 ==> r is Some && r->0@ == self@ / rhs@,
    {
        let a = alloy::primitives::U256::from_limbs(self.limbs);
        let b = alloy::primitives::U256::from_limbs(rhs.limbs);
        a.checked_div(b).map(|q| U256 { limbs: q.into_limbs() })
    }

    /// ruint's `checked_sub`: `None` when `rhs` exceeds `self`, else the
    /// difference.
    #[verifier::external_body]
    pub(crate) fn checked_sub(self, rhs: U256) -> (r: Option<U256>)
        ensures
            self@ < rhs@ ==> r is None,
            self@ >= rhs@ ==> r is Some && r->0@ == self@ - rhs@,
    {
        let a = alloy::primitives::U256::from_limbs(self.limbs);
        let b = alloy::primitives::U256::from_limbs(rhs.limbs);
        a.checked_sub(b).map(|d| U256 { limbs: d.into_limbs() })
    }
}

impl U512 {
    /// The value of a u128.
    pub fn from_u128(x: u128) -> (r: U512)
        ensures
            r@ == x,
    {
        proof {
            lemma_u64_split_u128(x);
            reveal_with_fuel(limbs_value, 9);
        }
        U512 { limbs: [x as u64, (x >> 64u128) as u64, 0, 0, 0, 0, 0, 0] }
    }

    /// The value narrowed to 256 bits, when it fits.
    pub fn to_u256(&self) -> (r: U256)
        requires
            self@ < p256(),
        ensures
            r@ == self@,
    {
        proof {
            reveal_with_fuel(limbs_value, 9);
        }
        U256 { limbs: [self.limbs[0], self.limbs[1], self.limbs[2], self.limbs[3]] }
    }

    /// `self * rhs` modulo 2^512, computed by ruint's `Mul`.
    #[verifier::external_body]
    pub(crate) fn wrapping_mul(self, rhs: U512) -> (r: U512)
        ensures
            r@ == (self@ * rhs@) % p512(),
    {
        let a = alloy::primitives::U512::from_limbs(self.limbs);
        let b = alloy::primitives::U512::from_limbs(rhs.limbs);
        U512 { limbs: (a * b).into_limbs() }
    }

    /// `self / rhs` rounded down, computed by ruint's `Div`, which panics on
    /// a zero divisor.
    #[verifier::external_body]
    pub(crate) fn div(self, rhs: U512) -> (r: U512)
        requires
            rhs@ != 0,
        ensures
            r@ == self@ / rhs@,
    {
        let a = alloy::primitives::U512::from_limbs(self.limbs);
        let b = alloy::primitives::U512::from_limbs(rhs.limbs);
        U512 { limbs: (a / b).into_limbs() }
    }
}

} // verus!
