//! A 256-bit unsigned integer built from four 64-bit limbs, with the checked
//! arithmetic the marketplace needs: addition, subtraction, comparison,
//! multiplication by a small scalar, and division by the fee denominator.

use vstd::arithmetic::div_mod::lemma_fundamental_div_mod;
use vstd::arithmetic::mul::lemma_mul_inequality;
use vstd::arithmetic::mul::lemma_mul_is_commutative;
use vstd::arithmetic::mul::lemma_mul_is_distributive_add_other_way;
use vstd::arithmetic::mul::lemma_mul_upper_bound;
use vstd::prelude::*;

verus! {

pub open spec fn pow64() -> nat {
    0x1_0000_0000_0000_0000nat
}

pub open spec fn pow128() -> nat {
    0x1_0000_0000_0000_0000_0000_0000_0000_0000nat
}

pub open spec fn pow192() -> nat {
    0x1_0000_0000_0000_0000_0000_0000_0000_0000_0000_0000_0000_0000nat
}

pub open spec fn pow256() -> nat {
    0x1_0000_0000_0000_0000_0000_0000_0000_0000_0000_0000_0000_0000_0000_0000_0000_0000nat
}

/// An unsigned 256-bit integer: `w0` is the least significant limb.
#[derive(Clone, Copy, Debug, PartialEq, Eq, Structural)]
pub struct U256 {
    pub w0: u64,
    pub w1: u64,
    pub w2: u64,
    pub w3: u64,
}

/// Any four-limb value is below `2^256`.
pub proof fn lemma_u256_bound(x: U256)
    ensures
        x.as_nat() < pow256(),
{
}

/// `(x * c) * y == (x * y) * c`: reorder a product so one factor moves across
/// another.
pub(crate) proof fn lemma_mul_shuffle(x: int, y: int, c: int)
    ensures
        (x * c) * y == (x * y) * c,
{
    assert((x * c) * y == (x * y) * c) by (nonlinear_arith);
}

impl U256 {
    /// The numeric value this limb vector stands for.
    pub open spec fn as_nat(self) -> nat {
        (self.w0 + self.w1 * pow64() + self.w2 * pow128() + self.w3 * pow192()) as nat
    }

    pub open spec fn spec_zero() -> U256 {
        U256 { w0: 0, w1: 0, w2: 0, w3: 0 }
    }

    pub fn zero() -> (r: U256)
        ensures
            r == U256::spec_zero(),
            r.as_nat() == 0,
    {
        U256 { w0: 0, w1: 0, w2: 0, w3: 0 }
    }

    pub fn from_u64(x: u64) -> (r: U256)
        ensures
            r.as_nat() == x,
    {
        U256 { w0: x, w1: 0, w2: 0, w3: 0 }
    }

    pub fn is_zero(&self) -> (r: bool)
        ensures
            r == (self.as_nat() == 0),
    {
        self.w0 == 0 && self.w1 == 0 && self.w2 == 0 && self.w3 == 0
    }

    /// Limb-wise sum with an incoming carry; the outgoing carry weighs `2^256`.
    pub(crate) fn add_with_carry(self, rhs: U256, c_in: u64) -> (r: (U256, u64))
        requires
            c_in <= 1,
        ensures
            r.0.as_nat() + r.1 * pow256() == self.as_nat() + rhs.as_nat() + c_in,
            r.1 <= 1,
    {
        let s0: u128 = (self.w0 as u128) + (rhs.w0 as u128) + (c_in as u128);
        let r0: u64 = (s0 % 0x1_0000_0000_0000_0000u128) as u64;
        let c0: u64 = (s0 / 0x1_0000_0000_0000_0000u128) as u64;
        let s1: u128 = (self.w1 as u128) + (rhs.w1 as u128) + (c0 as u128);
        let r1: u64 = (s1 % 0x1_0000_0000_0000_0000u128) as u64;
        let c1: u64 = (s1 / 0x1_0000_0000_0000_0000u128) as u64;
        let s2: u128 = (self.w2 as u128) + (rhs.w2 as u128) + (c1 as u128);
        let r2: u64 = (s2 % 0x1_0000_0000_0000_0000u128) as u64;
        let c2: u64 = (s2 / 0x1_0000_0000_0000_0000u128) as u64;
        let s3: u128 = (self.w3 as u128) + (rhs.w3 as u128) + (c2 as u128);
        let r3: u64 = (s3 % 0x1_0000_0000_0000_0000u128) as u64;
        let c3: u64 = (s3 / 0x1_0000_0000_0000_0000u128) as u64;
        proof {
            lemma_fundamental_div_mod(s0 as int, 0x1_0000_0000_0000_0000);
            lemma_fundamental_div_mod(s1 as int, 0x1_0000_0000_0000_0000);
            lemma_fundamental_div_mod(s2 as int, 0x1_0000_0000_0000_0000);
            lemma_fundamental_div_mod(s3 as int, 0x1_0000_0000_0000_0000);
        }
        (U256 { w0: r0, w1: r1, w2: r2, w3: r3 }, c3)
    }

    /// `Some` exactly when the sum stays below `2^256`.
    pub fn checked_add(self, rhs: U256) -> (r: Option<U256>)
        ensures
            match r {
                Some(v) => v.as_nat() == self.as_nat() + rhs.as_nat(),
                None => self.as_nat() + rhs.as_nat() >= pow256(),
            },
    {
        let (sum, carry) = self.add_with_carry(rhs, 0);
        if carry == 0 {
            Some(sum)
        } else {
            None
        }
    }

    /// Limb-wise difference with an incoming borrow; the outgoing borrow
    /// weighs `2^256`.
    pub(crate) fn sub_with_borrow(self, rhs: U256, b_in: u64) -> (r: (U256, u64))
        requires
            b_in <= 1,
        ensures
            r.0.as_nat() + rhs.as_nat() + b_in == self.as_nat() + r.1 * pow256(),
            r.1 <= 1,
            (r.1 == 0) == (rhs.as_nat() + b_in <= self.as_nat()),
    {
        let d0: u128 = 0x1_0000_0000_0000_0000u128 + (self.w0 as u128) - (rhs.w0 as u128) - (
        b_in as u128);
        let r0: u64 = (d0 % 0x1_0000_0000_0000_0000u128) as u64;
        let nb0: u64 = (d0 / 0x1_0000_0000_0000_0000u128) as u64;
        let b0: u64 = 1 - nb0;
        let d1: u128 = 0x1_0000_0000_0000_0000u128 + (self.w1 as u128) - (rhs.w1 as u128) - (
        b0 as u128);
        let r1: u64 = (d1 % 0x1_0000_0000_0000_0000u128) as u64;
        let b1: u64 = 1 - ((d1 / 0x1_0000_0000_0000_0000u128) as u64);
        let d2: u128 = 0x1_0000_0000_0000_0000u128 + (self.w2 as u128) - (rhs.w2 as u128) - (
        b1 as u128);
        let r2: u64 = (d2 % 0x1_0000_0000_0000_0000u128) as u64;
        let b2: u64 = 1 - ((d2 / 0x1_0000_0000_0000_0000u128) as u64);
        let d3: u128 = 0x1_0000_0000_0000_0000u128 + (self.w3 as u128) - (rhs.w3 as u128) - (
        b2 as u128);
        let r3: u64 = (d3 % 0x1_0000_0000_0000_0000u128) as u64;
        let b3: u64 = 1 - ((d3 / 0x1_0000_0000_0000_0000u128) as u64);
        proof {
            lemma_fundamental_div_mod(d0 as int, 0x1_0000_0000_0000_0000);
            lemma_fundamental_div_mod(d1 as int, 0x1_0000_0000_0000_0000);
            lemma_fundamental_div_mod(d2 as int, 0x1_0000_0000_0000_0000);
            lemma_fundamental_div_mod(d3 as int, 0x1_0000_0000_0000_0000);
        }
        let out = U256 { w0: r0, w1: r1, w2: r2, w3: r3 };
        proof {
            assert(out.as_nat() + rhs.as_nat() + b_in == self.as_nat() + b3 * pow256());
            assert(out.as_nat() < pow256());
        }
        (out, b3)
    }

    /// `Some` exactly when no underflow happens.
    pub fn checked_sub(self, rhs: U256) -> (r: Option<U256>)
        ensures
            match r {
                Some(v) => v.as_nat() + rhs.as_nat() == self.as_nat(),
                None => self.as_nat() < rhs.as_nat(),
            },
    {
        let (diff, borrow) = self.sub_with_borrow(rhs, 0);
        if borrow == 0 {
            Some(diff)
        } else {
            None
        }
    }

    /// Strictly-less comparison by numeric value.
    pub fn lt(&self, rhs: &U256) -> (r: bool)
        ensures
            r == (self.as_nat() < rhs.as_nat()),
    {
        if self.w3 != rhs.w3 {
            self.w3 < rhs.w3
        } else if self.w2 != rhs.w2 {
            self.w2 < rhs.w2
        } else if self.w1 != rhs.w1 {
            self.w1 < rhs.w1
        } else {
            self.w0 < rhs.w0
        }
    }

    /// Non-strict comparison by numeric value.
    pub fn le(&self, rhs: &U256) -> (r: bool)
        ensures
            r == (self.as_nat() <= rhs.as_nat()),
    {
        !rhs.lt(self)
    }

    /// Product with a scalar below `2^16`, plus an incoming carry of the same
    /// range; the outgoing carry weighs `2^256` and stays below `2^16`.
    pub(crate) fn mul_small_with_carry(self, m: u64, c_in: u64) -> (r: (U256, u64))
        requires
            m < 0x1_0000,
            c_in < 0x1_0000,
        ensures
            r.0.as_nat() + r.1 * pow256() == self.as_nat() * m + c_in,
            r.1 < 0x1_0000,
    {
        proof {
            lemma_mul_upper_bound(self.w0 as int, 0xFFFF_FFFF_FFFF_FFFF, m as int, 0xFFFF);
            lemma_mul_upper_bound(self.w1 as int, 0xFFFF_FFFF_FFFF_FFFF, m as int, 0xFFFF);
            lemma_mul_upper_bound(self.w2 as int, 0xFFFF_FFFF_FFFF_FFFF, m as int, 0xFFFF);
            lemma_mul_upper_bound(self.w3 as int, 0xFFFF_FFFF_FFFF_FFFF, m as int, 0xFFFF);
        }
        let p0: u128 = (self.w0 as u128) * (m as u128) + (c_in as u128);
        let r0: u64 = (p0 % 0x1_0000_0000_0000_0000u128) as u64;
        let c0: u64 = (p0 / 0x1_0000_0000_0000_0000u128) as u64;
        let p1: u128 = (self.w1 as u128) * (m as u128) + (c0 as u128);
        let r1: u64 = (p1 % 0x1_0000_0000_0000_0000u128) as u64;
        let c1: u64 = (p1 / 0x1_0000_0000_0000_0000u128) as u64;
        let p2: u128 = (self.w2 as u128) * (m as u128) + (c1 as u128);
        let r2: u64 = (p2 % 0x1_0000_0000_0000_0000u128) as u64;
        let c2: u64 = (p2 / 0x1_0000_0000_0000_0000u128) as u64;
        let p3: u128 = (self.w3 as u128) * (m as u128) + (c2 as u128);
        let r3: u64 = (p3 % 0x1_0000_0000_0000_0000u128) as u64;
        let c3: u64 = (p3 / 0x1_0000_0000_0000_0000u128) as u64;
        let out = U256 { w0: r0, w1: r1, w2: r2, w3: r3 };
        proof {
            lemma_fundamental_div_mod(p0 as int, 0x1_0000_0000_0000_0000);
            lemma_fundamental_div_mod(p1 as int, 0x1_0000_0000_0000_0000);
            lemma_fundamental_div_mod(p2 as int, 0x1_0000_0000_0000_0000);
            lemma_fundamental_div_mod(p3 as int, 0x1_0000_0000_0000_0000);
            let a0 = self.w0 as int;
            let a1 = self.w1 as int;
            let a2 = self.w2 as int;
            let a3 = self.w3 as int;
            let mi = m as int;
            lemma_mul_is_distributive_add_other_way(mi, a0, a1 * pow64() as int);
            lemma_mul_is_distributive_add_other_way(
                mi,
                a0 + a1 * pow64() as int,
                a2 * pow128() as int,
            );
            lemma_mul_is_distributive_add_other_way(
                mi,
                a0 + a1 * pow64() as int + a2 * pow128() as int,
                a3 * pow192() as int,
            );
            lemma_mul_shuffle(a1, mi, pow64() as int);
            lemma_mul_shuffle(a2, mi, pow128() as int);
            lemma_mul_shuffle(a3, mi, pow192() as int);
            assert(out.as_nat() + c3 * pow256() == self.as_nat() * mi + c_in);
        }
        (out, c3)
    }

    /// `Some` exactly when the scalar product stays below `2^256`.
    pub fn checked_mul_small(self, m: u64) -> (r: Option<U256>)
        requires
            m < 0x1_0000,
        ensures
            match r {
                Some(v) => v.as_nat() == self.as_nat() * m,
                None => self.as_nat() * m >= pow256(),
            },
    {
        let (prod, carry) = self.mul_small_with_carry(m, 0);
        if carry == 0 {
            Some(prod)
        } else {
            proof {
                lemma_mul_is_commutative(carry as int, pow256() as int);
                lemma_mul_inequality(1, carry as int, pow256() as int);
            }
            None
        }
    }

    /// Schoolbook division by the fee denominator, with an incoming remainder
    /// that weighs `2^256`.
    pub(crate) fn div_rem_10000(self, r_in: u64) -> (r: (U256, u64))
        requires
            r_in < 10000,
        ensures
            r.0.as_nat() * 10000 + r.1 == r_in * pow256() + self.as_nat(),
            r.1 < 10000,
    {
        let c3: u128 = (r_in as u128) * 0x1_0000_0000_0000_0000u128 + (self.w3 as u128);
        let q3: u64 = (c3 / 10000) as u64;
        let r3: u64 = (c3 % 10000) as u64;
        let c2: u128 = (r3 as u128) * 0x1_0000_0000_0000_0000u128 + (self.w2 as u128);
        let q2: u64 = (c2 / 10000) as u64;
        let r2: u64 = (c2 % 10000) as u64;
        let c1: u128 = (r2 as u128) * 0x1_0000_0000_0000_0000u128 + (self.w1 as u128);
        let q1: u64 = (c1 / 10000) as u64;
        let r1: u64 = (c1 % 10000) as u64;
        let c0: u128 = (r1 as u128) * 0x1_0000_0000_0000_0000u128 + (self.w0 as u128);
        let q0: u64 = (c0 / 10000) as u64;
        let r0: u64 = (c0 % 10000) as u64;
        let q = U256 { w0: q0, w1: q1, w2: q2, w3: q3 };
        proof {
            lemma_fundamental_div_mod(c3 as int, 10000);
            lemma_fundamental_div_mod(c2 as int, 10000);
            lemma_fundamental_div_mod(c1 as int, 10000);
            lemma_fundamental_div_mod(c0 as int, 10000);
            assert(q.as_nat() * 10000 + r0 == r_in * pow256() + self.as_nat()) by {
                lemma_mul_is_distributive_add_other_way(
                    10000,
                    q0 as int,
                    q1 * pow64() as int + q2 * pow128() as int + q3 * pow192() as int,
                );
                lemma_mul_is_distributive_add_other_way(
                    10000,
                    q1 * pow64() as int,
                    q2 * pow128() as int + q3 * pow192() as int,
                );
                lemma_mul_is_distributive_add_other_way(
                    10000,
                    q2 * pow128() as int,
                    q3 * pow192() as int,
                );
                lemma_mul_shuffle(q1 as int, 10000, pow64() as int);
                lemma_mul_shuffle(q2 as int, 10000, pow128() as int);
                lemma_mul_shuffle(q3 as int, 10000, pow192() as int);
            }
        }
        (q, r0)
    }
}

} // verus!
