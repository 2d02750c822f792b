use vstd::prelude::*;

use crate::state::{BPS_DENOMINATOR, MAX_FEE_BPS};

verus! {

/// What is left of `amount` once a fee of `fee` basis points is taken, rounded
/// down: any remainder stays with the pool as extra fee.
pub open spec fn amount_after_fee(amount: int, fee: int) -> int {
    amount * (BPS_DENOMINATOR - fee) / (BPS_DENOMINATOR as int)
}

pub proof fn lemma_after_fee_bounds(amount: int, fee: int)
    requires
        0 <= amount,
        0 <= fee < MAX_FEE_BPS,
    ensures
        0 <= amount_after_fee(amount, fee) <= amount,
{
    assert(0 <= amount * (10000 - fee) / 10000 <= amount) by (nonlinear_arith)
        requires
            0 <= amount,
            0 <= fee < 10000,
    ;
}

/// Takes a fee of `fee` basis points from `amount` and returns what remains.
pub fn apply_fee(amount: u64, fee: u16) -> (r: u64)
    requires
        fee < MAX_FEE_BPS,
    ensures
        r as int == amount_after_fee(amount as int, fee as int),
        r <= amount,
{
    proof {
        lemma_after_fee_bounds(amount as int, fee as int);
    }
    let kept: u64 = BPS_DENOMINATOR - fee as u64;
    let r = crate::math::mul_div_floor(amount, kept, BPS_DENOMINATOR);
    r as u64
}

} // verus!
