//! Multiply-then-divide with a double-width intermediate, rounding down or
//! up, and the conversions between integer widths that it relies on.

use crate::libraries::arith::ceil_div;
use crate::libraries::big_num::{
    b128, b256, b64, limbs4, lemma_limbs2_bounds, lemma_limbs4_bounds, lemma_limbs8_bounds, U128,
    U256, U512,
};
use vstd::prelude::*;

verus! {

/// `floor(a * b / d)` when it is representable below `bound`, else `None`;
/// `None` also for `d == 0`.
pub open spec fn spec_mul_div_floor(a: int, b: int, d: int, bound: int) -> Option<int> {
    if d == 0 {
        None
    } else if a * b / d >= bound {
        None
    } else {
        Some(a * b / d)
    }
}

/// `ceil(a * b / d)` when it is representable below `bound`, else `None`;
/// `None` also for `d == 0`.
pub open spec fn spec_mul_div_ceil(a: int, b: int, d: int, bound: int) -> Option<int> {
    if d == 0 {
        None
    } else if ceil_div(a * b, d) >= bound {
        None
    } else {
        Some(ceil_div(a * b, d))
    }
}

/// Multiply-divide with rounding, and conversion to `u64`.
pub trait MulDiv<RHS = Self>: Sized {
    type Output;

    /// `floor(self * num / denom)`, or `None` on a zero divisor or overflow.
    fn mul_div_floor(self, num: RHS, denom: RHS) -> Option<Self::Output>;

    /// `ceil(self * num / denom)`, or `None` on a zero divisor or overflow.
    fn mul_div_ceil(self, num: RHS, denom: RHS) -> Option<Self::Output>;

    /// The value as a `u64` where it is below `u64::MAX`, else zero.
    fn to_underflow_u64(self) -> u64;
}

/// Widening to 256 bits.
pub trait Upcast256 {
    fn as_u256(self) -> U256;
}

impl Upcast256 for U128 {
    fn as_u256(self) -> (r: U256)
        ensures
            r@ == self@,
    {
        U256([self.0[0], self.0[1], 0, 0])
    }
}

/// Narrowing to 128 bits by dropping the upper limbs.
pub trait Downcast256 {
    fn as_u128(self) -> U128;
}

impl Downcast256 for U256 {
    fn as_u128(self) -> (r: U128)
        ensures
            r@ == self@ % b128(),
    {
        proof { lemma_limbs4_bounds(self.0); }
        U128([self.0[0], self.0[1]])
    }
}

/// Widening to 512 bits.
pub trait Upcast512 {
    fn as_u512(self) -> U512;
}

impl Upcast512 for U256 {
    fn as_u512(self) -> (r: U512)
        ensures
            r@ == self@,
    {
        let r = U512([self.0[0], self.0[1], self.0[2], self.0[3], 0, 0, 0, 0]);
        assert(limbs4([0u64, 0u64, 0u64, 0u64]) == 0);
        assert(b256() * 0 == 0);
        r
    }
}

/// Narrowing to 256 bits by dropping the upper limbs.
pub trait Downcast512 {
    fn as_u256(self) -> U256;
}

impl Downcast512 for U512 {
    fn as_u256(self) -> (r: U256)
        ensures
            r@ == self@ % b256(),
    {
        proof { lemma_limbs8_bounds(self.0); }
        U256([self.0[0], self.0[1], self.0[2], self.0[3]])
    }
}

/// `a * b + c` stays below `w^2` when `a, b < w` and `c < w`.
proof fn lemma_product_plus_fits(a: int, b: int, c: int, w: int)
    requires
        0 <= a < w,
        0 <= b < w,
        0 <= c < w,
    ensures
        0 <= a * b,
        a * b + c < w * w,
{
    assert(0 <= a * b <= (w - 1) * (w - 1)) by (nonlinear_arith)
        requires 0 <= a < w, 0 <= b < w;
    assert((w - 1) * (w - 1) + (w - 1) < w * w) by (nonlinear_arith)
        requires w >= 1;
}

/// Quotients of non-negative numbers are non-negative.
proof fn lemma_div_nonneg(n: int, d: int)
    requires
        n >= 0,
        d > 0,
    ensures
        n / d >= 0,
        n / d <= n,
{
    vstd::arithmetic::div_mod::lemma_div_pos_is_pos(n, d);
    vstd::arithmetic::div_mod::lemma_div_is_ordered_by_denominator(n, 1, d);
}

impl MulDiv for u64 {
    type Output = u64;

    fn mul_div_floor(self, num: u64, denom: u64) -> (r: Option<u64>)
        ensures
            r matches Some(v) ==> spec_mul_div_floor(self as int, num as int, denom as int, b64()) == Some(v as int),
            r is None ==> spec_mul_div_floor(self as int, num as int, denom as int, b64()) is None,
    {
        if denom == 0 {
            return None;
        }
        proof {
            lemma_product_plus_fits(self as int, num as int, 0, b64());
            lemma_div_nonneg(self as int * num as int, denom as int);
        }
        let r = U128::from_u64(self).mul(U128::from_u64(num)).div(U128::from_u64(denom));
        if U128::from_u64(u64::MAX).lt(&r) {
            None
        } else {
            Some(r.as_u64())
        }
    }

    fn mul_div_ceil(self, num: u64, denom: u64) -> (r: Option<u64>)
        ensures
            r matches Some(v) ==> spec_mul_div_ceil(self as int, num as int, denom as int, b64()) == Some(v as int),
            r is None ==> spec_mul_div_ceil(self as int, num as int, denom as int, b64()) is None,
    {
        if denom == 0 {
            return None;
        }
        proof {
            lemma_product_plus_fits(self as int, num as int, denom - 1, b64());
            lemma_div_nonneg(self as int * num as int + denom - 1, denom as int);
        }
        let r = U128::from_u64(self).mul(U128::from_u64(num)).add(U128::from_u64(denom - 1)).div(
            U128::from_u64(denom),
        );
        if U128::from_u64(u64::MAX).lt(&r) {
            None
        } else {
            Some(r.as_u64())
        }
    }

    fn to_underflow_u64(self) -> (r: u64)
        ensures
            r == self,
    {
        self
    }
}

impl MulDiv for U128 {
    type Output = U128;

    fn mul_div_floor(self, num: U128, denom: U128) -> (r: Option<U128>)
        ensures
            r matches Some(v) ==> spec_mul_div_floor(self@, num@, denom@, b128()) == Some(v@),
            r is None ==> spec_mul_div_floor(self@, num@, denom@, b128()) is None,
    {
        if denom.is_zero() {
            return None;
        }
        proof {
            lemma_limbs2_bounds(self.0);
            lemma_limbs2_bounds(num.0);
            lemma_limbs2_bounds(denom.0);
            lemma_product_plus_fits(self@, num@, 0, b128());
            lemma_div_nonneg(self@ * num@, denom@);
        }
        let r = self.as_u256().mul(num.as_u256()).div(denom.as_u256());
        if U128::max_value().as_u256().lt(&r) {
            None
        } else {
            proof {
                vstd::arithmetic::div_mod::lemma_small_mod(r@ as nat, b128() as nat);
            }
            Some(r.as_u128())
        }
    }

    fn mul_div_ceil(self, num: U128, denom: U128) -> (r: Option<U128>)
        ensures
            r matches Some(v) ==> spec_mul_div_ceil(self@, num@, denom@, b128()) == Some(v@),
            r is None ==> spec_mul_div_ceil(self@, num@, denom@, b128()) is None,
    {
        if denom.is_zero() {
            return None;
        }
        proof {
            lemma_limbs2_bounds(self.0);
            lemma_limbs2_bounds(num.0);
            lemma_limbs2_bounds(denom.0);
            lemma_product_plus_fits(self@, num@, denom@ - 1, b128());
            lemma_div_nonneg(self@ * num@ + denom@ - 1, denom@);
        }
        let dm1 = denom.sub(U128::from_u64(1));
        let r = self.as_u256().mul(num.as_u256()).add(dm1.as_u256()).div(denom.as_u256());
        if U128::max_value().as_u256().lt(&r) {
            None
        } else {
            proof {
                vstd::arithmetic::div_mod::lemma_small_mod(r@ as nat, b128() as nat);
            }
            Some(r.as_u128())
        }
    }

    fn to_underflow_u64(self) -> (r: u64)
        ensures
            self@ < b64() - 1 ==> r == self@,
            self@ >= b64() - 1 ==> r == 0,
    {
        if self.lt(&U128::from_u64(u64::MAX)) {
            self.as_u64()
        } else {
            0
        }
    }
}

impl MulDiv for U256 {
    type Output = U256;

    fn mul_div_floor(self, num: U256, denom: U256) -> (r: Option<U256>)
        ensures
            r matches Some(v) ==> spec_mul_div_floor(self@, num@, denom@, b256()) == Some(v@),
            r is None ==> spec_mul_div_floor(self@, num@, denom@, b256()) is None,
    {
        if denom.is_zero() {
            return None;
        }
        proof {
            lemma_limbs4_bounds(self.0);
            lemma_limbs4_bounds(num.0);
            lemma_limbs4_bounds(denom.0);
            lemma_product_plus_fits(self@, num@, 0, b256());
            lemma_div_nonneg(self@ * num@, denom@);
        }
        let r = self.as_u512().mul(num.as_u512()).div(denom.as_u512());
        if U256::max_value().as_u512().lt(&r) {
            None
        } else {
            proof {
                vstd::arithmetic::div_mod::lemma_small_mod(r@ as nat, b256() as nat);
            }
            Some(r.as_u256())
        }
    }

    fn mul_div_ceil(self, num: U256, denom: U256) -> (r: Option<U256>)
        ensures
            r matches Some(v) ==> spec_mul_div_ceil(self@, num@, denom@, b256()) == Some(v@),
            r is None ==> spec_mul_div_ceil(self@, num@, denom@, b256()) is None,
    {
        if denom.is_zero() {
            return None;
        }
        proof {
            lemma_limbs4_bounds(self.0);
            lemma_limbs4_bounds(num.0);
            lemma_limbs4_bounds(denom.0);
            lemma_product_plus_fits(self@, num@, denom@ - 1, b256());
            lemma_div_nonneg(self@ * num@ + denom@ - 1, denom@);
        }
        let dm1 = denom.sub(U256::from_u64(1));
        let r = self.as_u512().mul(num.as_u512()).add(dm1.as_u512()).div(denom.as_u512());
        if U256::max_value().as_u512().lt(&r) {
            None
        } else {
            proof {
                vstd::arithmetic::div_mod::lemma_small_mod(r@ as nat, b256() as nat);
            }
            Some(r.as_u256())
        }
    }

    fn to_underflow_u64(self) -> (r: u64)
        ensures
            self@ < b64() - 1 ==> r == self@,
            self@ >= b64() - 1 ==> r == 0,
    {
        if self.lt(&U256::from_u64(u64::MAX)) {
            self.as_u64()
        } else {
            0
        }
    }
}

} // verus!
