//! Fixed-width unsigned integers of two, four and eight 64-bit limbs
//! (least significant limb first). Multiplication, division, addition,
//! subtraction and ordering are those of the `primitive-types` integers.

use vstd::prelude::*;

verus! {

/// 2^64.
pub open spec fn b64() -> int {
    0x1_0000_0000_0000_0000int
}

/// 2^128.
pub open spec fn b128() -> int {
    0x1_0000_0000_0000_0000_0000_0000_0000_0000int
}

/// 2^192.
pub open spec fn b192() -> int {
    b128() * b64()
}

/// 2^256.
pub open spec fn b256() -> int {
    b128() * b128()
}

/// 2^512.
pub open spec fn b512() -> int {
    b256() * b256()
}

/// Value of two little-endian limbs.
pub open spec fn limbs2(l: [u64; 2]) -> int {
    l[0] + b64() * l[1]
}

/// Value of four little-endian limbs.
pub open spec fn limbs4(l: [u64; 4]) -> int {
    limbs2([l[0], l[1]]) + b128() * limbs2([l[2], l[3]])
}

/// Value of eight little-endian limbs.
pub open spec fn limbs8(l: [u64; 8]) -> int {
    limbs4([l[0], l[1], l[2], l[3]]) + b256() * limbs4([l[4], l[5], l[6], l[7]])
}

/// A 128-bit unsigned integer.
#[derive(Copy, Clone, Debug, PartialEq, Eq)]
pub struct U128(pub [u64; 2]);

/// A 256-bit unsigned integer.
#[derive(Copy, Clone, Debug, PartialEq, Eq)]
pub struct U256(pub [u64; 4]);

/// A 512-bit unsigned integer.
#[derive(Copy, Clone, Debug, PartialEq, Eq)]
pub struct U512(pub [u64; 8]);

impl View for U128 {
    type V = int;

    open spec fn view(&self) -> int {
        limbs2(self.0)
    }
}

impl View for U256 {
    type V = int;

    open spec fn view(&self) -> int {
        limbs4(self.0)
    }
}

impl View for U512 {
    type V = int;

    open spec fn view(&self) -> int {
        limbs8(self.0)
    }
}

/// Two limbs hold a value in `[0, 2^128)`.
pub proof fn lemma_limbs2_bounds(l: [u64; 2])
    ensures
        0 <= limbs2(l) < b128(),
        limbs2(l) < b64() <==> l[1] == 0,
{
    assert(0 <= b64() * l[1] <= b64() * (b64() - 1)) by (nonlinear_arith)
        requires 0 <= l[1] < b64(), b64() > 0;
    assert(l[1] >= 1 ==> b64() * l[1] >= b64()) by (nonlinear_arith)
        requires b64() > 0;
}

/// Four limbs hold a value in `[0, 2^256)`; the value is below 2^128 exactly
/// when the upper two limbs are zero, and then equals the lower two limbs.
pub proof fn lemma_limbs4_bounds(l: [u64; 4])
    ensures
        0 <= limbs4(l) < b256(),
        limbs4(l) < b128() <==> (l[2] == 0 && l[3] == 0),
        limbs4(l) < b64() <==> (l[1] == 0 && l[2] == 0 && l[3] == 0),
        limbs4(l) % b128() == limbs2([l[0], l[1]]),
        limbs4(l) / b128() == limbs2([l[2], l[3]]),
{
    let lo = limbs2([l[0], l[1]]);
    let hi = limbs2([l[2], l[3]]);
    lemma_limbs2_bounds([l[0], l[1]]);
    lemma_limbs2_bounds([l[2], l[3]]);
    assert(0 <= b128() * hi <= b128() * (b128() - 1)) by (nonlinear_arith)
        requires 0 <= hi < b128(), b128() > 0;
    assert(hi >= 1 ==> b128() * hi >= b128()) by (nonlinear_arith)
        requires b128() > 0;
    assert(hi == 0 ==> b128() * hi == 0);
    assert(l[2] == 0 && l[3] == 0 ==> hi == 0);
    assert(hi == 0 ==> l[2] == 0 && l[3] == 0);
    vstd::arithmetic::div_mod::lemma_fundamental_div_mod_converse(limbs4(l), b128(), hi, lo);
}

/// Eight limbs hold a value in `[0, 2^512)`; below 2^256 exactly when the
/// upper four limbs are zero.
pub proof fn lemma_limbs8_bounds(l: [u64; 8])
    ensures
        0 <= limbs8(l) < b512(),
        limbs8(l) < b256() <==> (l[4] == 0 && l[5] == 0 && l[6] == 0 && l[7] == 0),
        limbs8(l) % b256() == limbs4([l[0], l[1], l[2], l[3]]),
{
    let lo = limbs4([l[0], l[1], l[2], l[3]]);
    let hi = limbs4([l[4], l[5], l[6], l[7]]);
    lemma_limbs4_bounds([l[0], l[1], l[2], l[3]]);
    lemma_limbs4_bounds([l[4], l[5], l[6], l[7]]);
    lemma_limbs2_bounds([l[4], l[5]]);
    lemma_limbs2_bounds([l[6], l[7]]);
    assert(0 <= b256() * hi <= b256() * (b256() - 1)) by (nonlinear_arith)
        requires 0 <= hi < b256(), b256() > 0;
    assert(hi >= 1 ==> b256() * hi >= b256()) by (nonlinear_arith)
        requires b256() > 0;
    assert(hi == 0 ==> b256() * hi == 0);
    assert(hi == 0 ==> limbs2([l[4], l[5]]) == 0 && limbs2([l[6], l[7]]) == 0) by {
        assert(0 <= b128() * limbs2([l[6], l[7]])) by (nonlinear_arith)
            requires limbs2([l[6], l[7]]) >= 0, b128() > 0;
    }
    vstd::arithmetic::div_mod::lemma_fundamental_div_mod_converse(limbs8(l), b256(), hi, lo);
}

impl U128 {
    /// The largest value, 2^128 - 1.
    pub fn max_value() -> (r: U128)
        ensures
            r@ == b128() - 1,
    {
        U128([u64::MAX, u64::MAX])
    }

    /// Zero.
    pub fn zero() -> (r: U128)
        ensures
            r@ == 0,
    {
        U128([0, 0])
    }

    /// Widens a `u64`.
    pub fn from_u64(x: u64) -> (r: U128)
        ensures
            r@ == x,
    {
        U128([x, 0])
    }

    /// Converts a `u128`.
    pub fn from_u128(x: u128) -> (r: U128)
        ensures
            r@ == x,
    {
        let lo = x as u64;
        let hi = (x >> 64u32) as u64;
        proof {
            assert(lo as int + 0x1_0000_0000_0000_0000 * (hi as int) == x as int) by (bit_vector)
                requires lo == x as u64, hi == (x >> 64u32) as u64;
        }
        U128([lo, hi])
    }

    /// Whether the value is zero.
    pub fn is_zero(&self) -> (r: bool)
        ensures
            r == (self@ == 0),
    {
        proof { lemma_limbs2_bounds(self.0); }
        self.0[0] == 0 && self.0[1] == 0
    }

    /// The value as a `u64`; it must fit.
    pub fn as_u64(&self) -> (r: u64)
        requires
            self@ < b64(),
        ensures
            r == self@,
    {
        proof { lemma_limbs2_bounds(self.0); }
        self.0[0]
    }

    /// The value as a `u128`.
    pub fn as_u128(&self) -> (r: u128)
        ensures
            r == self@,
    {
        let lo = self.0[0];
        let hi = self.0[1];
        proof {
            assert((lo as u128) | ((hi as u128) << 64u32) == lo as int + 0x1_0000_0000_0000_0000 * (hi as int)) by (bit_vector);
        }
        (lo as u128) | ((hi as u128) << 64u32)
    }

    /// `primitive_types::U128` multiplication, which panics on overflow:
    /// the product is assumed to fit and is returned exactly.
    #[verifier::external_body]
    pub(crate) fn mul(self, other: U128) -> (r: U128)
        requires
            self@ * other@ < b128(),
        ensures
            r@ == self@ * other@,
    {
        U128((primitive_types::U128(self.0) * primitive_types::U128(other.0)).0)
    }

    /// `primitive_types::U128` division (floor), which panics on a zero divisor.
    #[verifier::external_body]
    pub(crate) fn div(self, other: U128) -> (r: U128)
        requires
            other@ > 0,
        ensures
            r@ == self@ / other@,
    {
        U128((primitive_types::U128(self.0) / primitive_types::U128(other.0)).0)
    }

    /// `primitive_types::U128` addition, which panics on overflow.
    #[verifier::external_body]
    pub(crate) fn add(self, other: U128) -> (r: U128)
        requires
            self@ + other@ < b128(),
        ensures
            r@ == self@ + other@,
    {
        U128((primitive_types::U128(self.0) + primitive_types::U128(other.0)).0)
    }

    /// `primitive_types::U128` subtraction, which panics on underflow.
    #[verifier::external_body]
    pub(crate) fn sub(self, other: U128) -> (r: U128)
        requires
            self@ >= other@,
        ensures
            r@ == self@ - other@,
    {
        U128((primitive_types::U128(self.0) - primitive_types::U128(other.0)).0)
    }

    /// The `<` of `primitive_types::U128`, which orders by value.
    #[verifier::external_body]
    pub(crate) fn lt(&self, other: &U128) -> (r: bool)
        ensures
            r == (self@ < other@),
    {
        primitive_types::U128(self.0) < primitive_types::U128(other.0)
    }
}

impl U256 {
    /// The largest value, 2^256 - 1.
    pub fn max_value() -> (r: U256)
        ensures
            r@ == b256() - 1,
    {
        U256([u64::MAX, u64::MAX, u64::MAX, u64::MAX])
    }

    /// Zero.
    pub fn zero() -> (r: U256)
        ensures
            r@ == 0,
    {
        U256([0, 0, 0, 0])
    }

    /// Widens a `u64`.
    pub fn from_u64(x: u64) -> (r: U256)
        ensures
            r@ == x,
    {
        U256([x, 0, 0, 0])
    }

    /// Widens a `u128`.
    pub fn from_u128(x: u128) -> (r: U256)
        ensures
            r@ == x,
    {
        let w = U128::from_u128(x);
        U256([w.0[0], w.0[1], 0, 0])
    }

    /// Whether the value is zero.
    pub fn is_zero(&self) -> (r: bool)
        ensures
            r == (self@ == 0),
    {
        proof {
            lemma_limbs4_bounds(self.0);
            lemma_limbs2_bounds([self.0[0], self.0[1]]);
        }
        self.0[0] == 0 && self.0[1] == 0 && self.0[2] == 0 && self.0[3] == 0
    }

    /// The value as a `u64`; it must fit.
    pub fn as_u64(&self) -> (r: u64)
        requires
            self@ < b64(),
        ensures
            r == self@,
    {
        proof { lemma_limbs4_bounds(self.0); }
        self.0[0]
    }

    /// The value as a `u128`; it must fit.
    pub fn as_u128(&self) -> (r: u128)
        requires
            self@ < b128(),
        ensures
            r == self@,
    {
        proof { lemma_limbs4_bounds(self.0); }
        U128([self.0[0], self.0[1]]).as_u128()
    }

    /// `primitive_types::U256` multiplication, which panics on overflow.
    #[verifier::external_body]
    pub(crate) fn mul(self, other: U256) -> (r: U256)
        requires
            self@ * other@ < b256(),
        ensures
            r@ == self@ * other@,
    {
        U256((primitive_types::U256(self.0) * primitive_types::U256(other.0)).0)
    }

    /// `primitive_types::U256` division (floor), which panics on a zero divisor.
    #[verifier::external_body]
    pub(crate) fn div(self, other: U256) -> (r: U256)
        requires
            other@ > 0,
        ensures
            r@ == self@ / other@,
    {
        U256((primitive_types::U256(self.0) / primitive_types::U256(other.0)).0)
    }

    /// `primitive_types::U256` addition, which panics on overflow.
    #[verifier::external_body]
    pub(crate) fn add(self, other: U256) -> (r: U256)
        requires
            self@ + other@ < b256(),
        ensures
            r@ == self@ + other@,
    {
        U256((primitive_types::U256(self.0) + primitive_types::U256(other.0)).0)
    }

    /// `primitive_types::U256` subtraction, which panics on underflow.
    #[verifier::external_body]
    pub(crate) fn sub(self, other: U256) -> (r: U256)
        requires
            self@ >= other@,
        ensures
            r@ == self@ - other@,
    {
        U256((primitive_types::U256(self.0) - primitive_types::U256(other.0)).0)
    }

    /// The `<` of `primitive_types::U256`, which orders by value.
    #[verifier::external_body]
    pub(crate) fn lt(&self, other: &U256) -> (r: bool)
        ensures
            r == (self@ < other@),
    {
        primitive_types::U256(self.0) < primitive_types::U256(other.0)
    }
}

impl U512 {
    /// `primitive_types::U512` multiplication, which panics on overflow.
    #[verifier::external_body]
    pub(crate) fn mul(self, other: U512) -> (r: U512)
        requires
            self@ * other@ < b512(),
        ensures
            r@ == self@ * other@,
    {
        U512((primitive_types::U512(self.0) * primitive_types::U512(other.0)).0)
    }

    /// `primitive_types::U512` division (floor), which panics on a zero divisor.
    #[verifier::external_body]
    pub(crate) fn div(self, other: U512) -> (r: U512)
        requires
            other@ > 0,
        ensures
            r@ == self@ / other@,
    {
        U512((primitive_types::U512(self.0) / primitive_types::U512(other.0)).0)
    }

    /// `primitive_types::U512` addition, which panics on overflow.
    #[verifier::external_body]
    pub(crate) fn add(self, other: U512) -> (r: U512)
        requires
            self@ + other@ < b512(),
        ensures
            r@ == self@ + other@,
    {
        U512((primitive_types::U512(self.0) + primitive_types::U512(other.0)).0)
    }

    /// The `<` of `primitive_types::U512`, which orders by value.
    #[verifier::external_body]
    pub(crate) fn lt(&self, other: &U512) -> (r: bool)
        ensures
            r == (self@ < other@),
    {
        primitive_types::U512(self.0) < primitive_types::U512(other.0)
    }
}

} // verus!
