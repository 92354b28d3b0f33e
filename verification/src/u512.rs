//! A 512-bit unsigned integer made of two 256-bit halves. It carries the
//! custodial purse balance and native-currency amounts, whose ledger keeps
//! them in this width.

use crate::u256::lemma_mul_shuffle;
use crate::u256::pow256;
use crate::u256::U256;
use vstd::arithmetic::mul::lemma_mul_inequality;
use vstd::arithmetic::mul::lemma_mul_is_commutative;
use vstd::arithmetic::mul::lemma_mul_is_distributive_add_other_way;
use vstd::prelude::*;

verus! {

pub open spec fn pow512() -> nat {
    pow256() * pow256()
}

/// An unsigned 512-bit integer: `lo` is the less significant half.
#[derive(Clone, Copy, Debug, PartialEq, Eq, Structural)]
pub struct U512 {
    pub lo: U256,
    pub hi: U256,
}

/// Any two-half value is below `2^512`.
pub proof fn lemma_u512_bound(x: U512)
    ensures
        x.as_nat() < pow512(),
{
    crate::u256::lemma_u256_bound(x.lo);
    crate::u256::lemma_u256_bound(x.hi);
    lemma_mul_inequality(x.hi.as_nat() as int, pow256() as int - 1, pow256() as int);
}

impl U512 {
    /// The numeric value this pair of halves stands for.
    pub open spec fn as_nat(self) -> nat {
        self.lo.as_nat() + self.hi.as_nat() * pow256()
    }

    pub open spec fn spec_zero() -> U512 {
        U512 { lo: U256::spec_zero(), hi: U256::spec_zero() }
    }

    pub fn zero() -> (r: U512)
        ensures
            r == U512::spec_zero(),
            r.as_nat() == 0,
    {
        U512 { lo: U256::zero(), hi: U256::zero() }
    }

    pub fn from_u64(x: u64) -> (r: U512)
        ensures
            r.as_nat() == x,
    {
        U512 { lo: U256::from_u64(x), hi: U256::zero() }
    }

    /// Widen a 256-bit amount; the value is unchanged.
    pub fn from_u256(x: U256) -> (r: U512)
        ensures
            r.as_nat() == x.as_nat(),
    {
        U512 { lo: x, hi: U256::zero() }
    }

    /// Narrow to 256 bits; `Some` exactly when the value fits.
    pub fn to_u256(self) -> (r: Option<U256>)
        ensures
            match r {
                Some(v) => v.as_nat() == self.as_nat(),
                None => self.as_nat() >= pow256(),
            },
    {
        if self.hi.is_zero() {
            Some(self.lo)
        } else {
            proof {
                lemma_mul_inequality(1, self.hi.as_nat() as int, pow256() as int);
                lemma_mul_is_commutative(self.hi.as_nat() as int, pow256() as int);
            }
            None
        }
    }

    /// `Some` exactly when the sum stays below `2^512`.
    pub fn checked_add(self, rhs: U512) -> (r: Option<U512>)
        ensures
            match r {
                Some(v) => v.as_nat() == self.as_nat() + rhs.as_nat(),
                None => self.as_nat() + rhs.as_nat() >= pow512(),
            },
    {
        let (lo, c) = self.lo.add_with_carry(rhs.lo, 0);
        let (hi, c2) = self.hi.add_with_carry(rhs.hi, c);
        proof {
            lemma_mul_is_distributive_add_other_way(
                pow256() as int,
                hi.as_nat() as int,
                c2 * pow256() as int,
            );
            lemma_mul_shuffle(c2 as int, pow256() as int, pow256() as int);
        }
        if c2 == 0 {
            Some(U512 { lo, hi })
        } else {
            proof {
                lemma_mul_inequality(1, c2 as int, pow512() as int);
                lemma_mul_is_commutative(c2 as int, pow512() as int);
            }
            None
        }
    }

    /// `Some` exactly when no underflow happens.
    pub fn checked_sub(self, rhs: U512) -> (r: Option<U512>)
        ensures
            match r {
                Some(v) => v.as_nat() + rhs.as_nat() == self.as_nat(),
                None => self.as_nat() < rhs.as_nat(),
            },
    {
        let (lo, b) = self.lo.sub_with_borrow(rhs.lo, 0);
        let (hi, b2) = self.hi.sub_with_borrow(rhs.hi, b);
        proof {
            lemma_mul_is_distributive_add_other_way(
                pow256() as int,
                hi.as_nat() as int,
                b2 * pow256() as int,
            );
            lemma_mul_shuffle(b2 as int, pow256() as int, pow256() as int);
            if b2 == 0 {
                assert(U512 { lo, hi }.as_nat() + rhs.as_nat() == self.as_nat());
            } else {
                lemma_mul_inequality(1, b2 as int, pow512() as int);
                lemma_mul_is_commutative(b2 as int, pow512() as int);
                assert(self.as_nat() < pow512());
            }
        }
        if b2 == 0 {
            Some(U512 { lo, hi })
        } else {
            None
        }
    }

    /// Strictly-less comparison by numeric value.
    pub fn lt(&self, rhs: &U512) -> (r: bool)
        ensures
            r == (self.as_nat() < rhs.as_nat()),
    {
        proof {
            if self.hi.as_nat() < rhs.hi.as_nat() {
                lemma_mul_inequality(
                    self.hi.as_nat() as int + 1,
                    rhs.hi.as_nat() as int,
                    pow256() as int,
                );
                lemma_mul_is_distributive_add_other_way(
                    pow256() as int,
                    self.hi.as_nat() as int,
                    1,
                );
            }
            if rhs.hi.as_nat() < self.hi.as_nat() {
                lemma_mul_inequality(
                    rhs.hi.as_nat() as int + 1,
                    self.hi.as_nat() as int,
                    pow256() as int,
                );
                lemma_mul_is_distributive_add_other_way(pow256() as int, rhs.hi.as_nat() as int, 1);
            }
        }
        if self.hi.lt(&rhs.hi) {
            true
        } else if rhs.hi.lt(&self.hi) {
            false
        } else {
            self.lo.lt(&rhs.lo)
        }
    }

    /// Non-strict comparison by numeric value.
    pub fn le(&self, rhs: &U512) -> (r: bool)
        ensures
            r == (self.as_nat() <= rhs.as_nat()),
    {
        !rhs.lt(self)
    }

    /// `Some` exactly when the scalar product stays below `2^512`.
    pub fn checked_mul_small(self, m: u64) -> (r: Option<U512>)
        requires
            m < 0x1_0000,
        ensures
            match r {
                Some(v) => v.as_nat() == self.as_nat() * m,
                None => self.as_nat() * m >= pow512(),
            },
    {
        let (lo, c) = self.lo.mul_small_with_carry(m, 0);
        let (hi, c2) = self.hi.mul_small_with_carry(m, c);
        proof {
            lemma_mul_is_distributive_add_other_way(
                m as int,
                self.lo.as_nat() as int,
                self.hi.as_nat() * pow256() as int,
            );
            lemma_mul_shuffle(self.hi.as_nat() as int, m as int, pow256() as int);
            lemma_mul_is_distributive_add_other_way(
                pow256() as int,
                hi.as_nat() as int,
                c2 * pow256() as int,
            );
            lemma_mul_shuffle(c2 as int, pow256() as int, pow256() as int);
        }
        if c2 == 0 {
            Some(U512 { lo, hi })
        } else {
            proof {
                lemma_mul_inequality(1, c2 as int, pow512() as int);
                lemma_mul_is_commutative(c2 as int, pow512() as int);
            }
            None
        }
    }

    /// Floor division by the fee denominator, with the remainder.
    pub fn div_rem_10000(self) -> (r: (U512, u64))
        ensures
            r.0.as_nat() * 10000 + r.1 == self.as_nat(),
            r.1 < 10000,
    {
        let (q_hi, rem_hi) = self.hi.div_rem_10000(0);
        let (q_lo, rem_lo) = self.lo.div_rem_10000(rem_hi);
        let q = U512 { lo: q_lo, hi: q_hi };
        proof {
            lemma_mul_is_distributive_add_other_way(
                10000,
                q_lo.as_nat() as int,
                q_hi.as_nat() * pow256() as int,
            );
            lemma_mul_shuffle(q_hi.as_nat() as int, 10000, pow256() as int);
            lemma_mul_is_distributive_add_other_way(
                pow256() as int,
                q_hi.as_nat() as int * 10000,
                rem_hi as int,
            );
        }
        (q, rem_lo)
    }
}

} // verus!
