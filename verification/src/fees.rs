//! The fee engine: splitting a gross amount into a recipient share and a fee
//! share, in basis points over a fixed denominator of 10000. The two shares
//! floor independently, so together they may undershoot the amount by the
//! rounding dust, which stays behind in escrow.

use crate::u256::pow256;
use crate::u256::U256;
use crate::u512::pow512;
use crate::u512::U512;
use crate::Error;
use vstd::arithmetic::div_mod::lemma_fundamental_div_mod;
use vstd::arithmetic::div_mod::lemma_fundamental_div_mod_converse;
use vstd::arithmetic::mul::lemma_mul_inequality;
use vstd::arithmetic::mul::lemma_mul_is_commutative;
use vstd::arithmetic::mul::lemma_mul_is_distributive_add;
use vstd::prelude::*;

verus! {

/// The recipient's share of a gross amount under a basis-point fee rate.
pub open spec fn recipient_share(amount: nat, fee_rate: nat) -> nat {
    (amount * (10000 - fee_rate) / 10000) as nat
}

/// The fee wallet's share of a gross amount under a basis-point fee rate.
pub open spec fn fee_share(amount: nat, fee_rate: nat) -> nat {
    (amount * fee_rate / 10000) as nat
}

/// The two independently floored shares never overshoot the gross amount, and
/// they exhaust it exactly when `amount * fee_rate` is a multiple of the
/// denominator; otherwise at least one unit of dust is left behind.
pub proof fn lemma_fee_split_conserves(amount: nat, fee_rate: nat)
    requires
        fee_rate <= 10000,
    ensures
        recipient_share(amount, fee_rate) + fee_share(amount, fee_rate) <= amount,
        (recipient_share(amount, fee_rate) + fee_share(amount, fee_rate) == amount) <==> ((amount
            * fee_rate) % 10000 == 0),
{
    let x = amount * (10000 - fee_rate);
    let y = amount * fee_rate;
    assert(x + y == amount * 10000) by {
        lemma_mul_is_distributive_add(
            amount as int,
            10000 - fee_rate as int,
            fee_rate as int,
        );
    }
    lemma_fundamental_div_mod(x as int, 10000);
    lemma_fundamental_div_mod(y as int, 10000);
    lemma_mul_is_commutative(amount as int, 10000);
}

/// Split a 256-bit gross amount: the recipient share comes from
/// `amount * (10000 - fee_rate)`, the fee share from `amount * fee_rate`,
/// both floor-divided by 10000. Fails with `Overflow` exactly when the
/// recipient-share product no longer fits in 256 bits.
pub fn split_u256(amount: U256, fee_rate: u8) -> (r: Result<(U256, U256), Error>)
    ensures
        match r {
            Ok(shares) => {
                &&& amount.as_nat() * (10000 - fee_rate) < pow256()
                &&& shares.0.as_nat() == recipient_share(amount.as_nat(), fee_rate as nat)
                &&& shares.1.as_nat() == fee_share(amount.as_nat(), fee_rate as nat)
                &&& shares.0.as_nat() + shares.1.as_nat() <= amount.as_nat()
            },
            Err(e) => {
                &&& e == Error::Overflow
                &&& amount.as_nat() * (10000 - fee_rate) >= pow256()
            },
        },
{
    let m1: u64 = 10000 - (fee_rate as u64);
    match amount.checked_mul_small(m1) {
        None => Err(Error::Overflow),
        Some(gross_rec) => {
            match amount.checked_mul_small(fee_rate as u64) {
                None => {
                    proof {
                        lemma_mul_inequality(
                            fee_rate as int,
                            m1 as int,
                            amount.as_nat() as int,
                        );
                        lemma_mul_is_commutative(fee_rate as int, amount.as_nat() as int);
                        lemma_mul_is_commutative(m1 as int, amount.as_nat() as int);
                    }
                    Err(Error::Overflow)
                },
                Some(gross_fee) => {
                    let (to_rec, rem1) = gross_rec.div_rem_10000(0);
                    let (to_fee, rem2) = gross_fee.div_rem_10000(0);
                    proof {
                        lemma_fundamental_div_mod_converse(
                            gross_rec.as_nat() as int,
                            10000,
                            to_rec.as_nat() as int,
                            rem1 as int,
                        );
                        lemma_fundamental_div_mod_converse(
                            gross_fee.as_nat() as int,
                            10000,
                            to_fee.as_nat() as int,
                            rem2 as int,
                        );
                        lemma_fee_split_conserves(amount.as_nat(), fee_rate as nat);
                    }
                    Ok((to_rec, to_fee))
                },
            }
        },
    }
}

/// Split a 512-bit gross amount the same way. Fails with `Overflow` exactly
/// when the recipient-share product no longer fits in 512 bits.
pub fn split_u512(amount: U512, fee_rate: u8) -> (r: Result<(U512, U512), Error>)
    ensures
        match r {
            Ok(shares) => {
                &&& amount.as_nat() * (10000 - fee_rate) < pow512()
                &&& shares.0.as_nat() == recipient_share(amount.as_nat(), fee_rate as nat)
                &&& shares.1.as_nat() == fee_share(amount.as_nat(), fee_rate as nat)
                &&& shares.0.as_nat() + shares.1.as_nat() <= amount.as_nat()
            },
            Err(e) => {
                &&& e == Error::Overflow
                &&& amount.as_nat() * (10000 - fee_rate) >= pow512()
            },
        },
{
    let m1: u64 = 10000 - (fee_rate as u64);
    match amount.checked_mul_small(m1) {
        None => Err(Error::Overflow),
        Some(gross_rec) => {
            match amount.checked_mul_small(fee_rate as u64) {
                None => {
                    proof {
                        lemma_mul_inequality(
                            fee_rate as int,
                            m1 as int,
                            amount.as_nat() as int,
                        );
                        lemma_mul_is_commutative(fee_rate as int, amount.as_nat() as int);
                        lemma_mul_is_commutative(m1 as int, amount.as_nat() as int);
                    }
                    Err(Error::Overflow)
                },
                Some(gross_fee) => {
                    let (to_rec, rem1) = gross_rec.div_rem_10000();
                    let (to_fee, rem2) = gross_fee.div_rem_10000();
                    proof {
                        lemma_fundamental_div_mod_converse(
                            gross_rec.as_nat() as int,
                            10000,
                            to_rec.as_nat() as int,
                            rem1 as int,
                        );
                        lemma_fundamental_div_mod_converse(
                            gross_fee.as_nat() as int,
                            10000,
                            to_fee.as_nat() as int,
                            rem2 as int,
                        );
                        lemma_fee_split_conserves(amount.as_nat(), fee_rate as nat);
                    }
                    Ok((to_rec, to_fee))
                },
            }
        },
    }
}

} // verus!
