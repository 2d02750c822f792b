use vstd::prelude::*;

use crate::fee::{amount_after_fee, apply_fee};
use crate::math::{u64_max, wide_mul};
use crate::state::{AmmError, AmmPool, Reserves};

verus! {

/// Constant-product output for `input` (fee already taken) against
/// `reserve_in` and `reserve_out`: what leaves the pool so that the product
/// falls back to `reserve_in * reserve_out`, with the quotient rounded down.
pub open spec fn swap_output(reserve_in: int, reserve_out: int, input: int) -> int {
    reserve_out - (reserve_in * reserve_out) / (reserve_in + input)
}

/// The refusal that a swap of `amount_in` meets, if any, on reserves `(ra, rb)`
/// with a fee of `fee` basis points; `is_swap_a` spends asset A for asset B.
pub open spec fn swap_error(
    ra: int,
    rb: int,
    fee: int,
    is_swap_a: bool,
    amount_in: int,
    min_out: int,
) -> Option<AmmError> {
    let (r_in, r_out) = if is_swap_a {
        (ra, rb)
    } else {
        (rb, ra)
    };
    if amount_in == 0 {
        Some(AmmError::AmountIsZero)
    } else if ra == 0 || rb == 0 {
        Some(AmmError::InvalidPoolState)
    } else if r_in + amount_in > u64_max() {
        Some(AmmError::MathOverflow)
    } else if swap_output(r_in, r_out, amount_after_fee(amount_in, fee)) < min_out {
        Some(AmmError::SlippageExceeded)
    } else {
        None
    }
}

/// The amount paid out by a swap that is not refused.
pub open spec fn swap_amount_out(ra: int, rb: int, fee: int, is_swap_a: bool, amount_in: int) -> int {
    if is_swap_a {
        swap_output(ra, rb, amount_after_fee(amount_in, fee))
    } else {
        swap_output(rb, ra, amount_after_fee(amount_in, fee))
    }
}

/// The reserves after a swap: the whole input, fee included, enters the pool and
/// the output leaves it; a refused swap leaves them as they were.
pub open spec fn swap_step(
    ra: int,
    rb: int,
    fee: int,
    is_swap_a: bool,
    amount_in: int,
    min_out: int,
) -> (int, int) {
    if swap_error(ra, rb, fee, is_swap_a, amount_in, min_out).is_some() {
        (ra, rb)
    } else if is_swap_a {
        (ra + amount_in, rb - swap_amount_out(ra, rb, fee, is_swap_a, amount_in))
    } else {
        (ra - swap_amount_out(ra, rb, fee, is_swap_a, amount_in), rb + amount_in)
    }
}

/// The output never exceeds the reserve it is paid from.
pub proof fn lemma_swap_output_bounds(reserve_in: int, reserve_out: int, input: int)
    requires
        reserve_in > 0,
        reserve_out >= 0,
        input >= 0,
    ensures
        0 <= swap_output(reserve_in, reserve_out, input) <= reserve_out,
{
    assert(0 <= (reserve_in * reserve_out) / (reserve_in + input) <= reserve_out)
        by (nonlinear_arith)
        requires
            reserve_in > 0,
            reserve_out >= 0,
            input >= 0,
    {
        assert(reserve_in * reserve_out <= (reserve_in + input) * reserve_out);
    }
}

/// Swaps `amount` of one asset for the other: `is_swap_a` spends asset A for
/// asset B. The reserves are updated and the amount paid out is returned; a
/// refused swap changes nothing.
pub fn swap(
    pool: &AmmPool,
    reserves: &mut Reserves,
    is_swap_a: bool,
    amount: u64,
    min_out_amount: u64,
) -> (r: Result<u64, AmmError>)
    requires
        pool.wf(),
    ensures
        ({
            let err = swap_error(
                old(reserves).a as int,
                old(reserves).b as int,
                pool.fee as int,
                is_swap_a,
                amount as int,
                min_out_amount as int,
            );
            match r {
                Ok(out) => {
                    &&& err is None
                    &&& out as int == swap_amount_out(
                        old(reserves).a as int,
                        old(reserves).b as int,
                        pool.fee as int,
                        is_swap_a,
                        amount as int,
                    )
                    &&& out >= min_out_amount
                },
                Err(e) => err == Some(e),
            }
        }),
        (final(reserves).a as int, final(reserves).b as int) == swap_step(
            old(reserves).a as int,
            old(reserves).b as int,
            pool.fee as int,
            is_swap_a,
            amount as int,
            min_out_amount as int,
        ),
        r.is_err() ==> *final(reserves) == *old(reserves),
{
    if amount == 0 {
        return Err(AmmError::AmountIsZero);
    }
    if reserves.a == 0 || reserves.b == 0 {
        return Err(AmmError::InvalidPoolState);
    }
    let (reserve_in, reserve_out) = if is_swap_a {
        (reserves.a, reserves.b)
    } else {
        (reserves.b, reserves.a)
    };
    let new_in = match reserve_in.checked_add(amount) {
        Some(v) => v,
        None => {
            return Err(AmmError::MathOverflow);
        },
    };
    let input = apply_fee(amount, pool.fee);
    let product = wide_mul(reserve_in, reserve_out);
    let denominator: u128 = reserve_in as u128 + input as u128;
    let kept = product / denominator;
    proof {
        lemma_swap_output_bounds(reserve_in as int, reserve_out as int, input as int);
    }
    let out: u64 = reserve_out - kept as u64;
    if out < min_out_amount {
        return Err(AmmError::SlippageExceeded);
    }
    if is_swap_a {
        reserves.a = new_in;
        reserves.b = reserve_out - out;
    } else {
        reserves.b = new_in;
        reserves.a = reserve_out - out;
    }
    Ok(out)
}

} // verus!
