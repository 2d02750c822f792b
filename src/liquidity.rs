use vstd::prelude::*;

use crate::math::{ceil_div, is_floor_sqrt, isqrt, mul_div_ceil, mul_div_floor, u64_max, wide_mul};
use crate::state::{AmmError, AmmPool, Reserves};

verus! {

/// The deltas of an accepted deposit: what the pool takes of each asset, and
/// the shares minted to the depositor for it.
#[derive(Clone, Copy, Debug, PartialEq, Eq, Structural)]
pub struct AddLiquidity {
    pub taken_a: u64,
    pub taken_b: u64,
    pub minted: u64,
}

/// The deltas of an accepted withdrawal: what the pool pays out of each asset.
/// The shares burned are the ones handed in.
#[derive(Clone, Copy, Debug, PartialEq, Eq, Structural)]
pub struct Withdrawal {
    pub out_a: u64,
    pub out_b: u64,
}

/// The largest pair of amounts, within the maxima `(amount_a, amount_b)`, that
/// keeps the ratio of the reserves `(ra, rb)`. Asset A drives; when the B it
/// asks for (rounded up) is more than offered, asset B drives instead.
pub open spec fn proportional_take(amount_a: int, amount_b: int, ra: int, rb: int) -> (int, int) {
    let need_b = ceil_div(amount_a * rb, ra);
    if need_b <= amount_b {
        (amount_a, need_b)
    } else {
        (amount_b * ra / rb, amount_b)
    }
}

/// What a deposit takes: everything offered when the pool has no shares yet,
/// else the ratio-keeping part of it.
pub open spec fn deposit_taken(supply: int, ra: int, rb: int, amount_a: int, amount_b: int) -> (
    int,
    int,
) {
    if supply == 0 {
        (amount_a, amount_b)
    } else {
        proportional_take(amount_a, amount_b, ra, rb)
    }
}

/// Shares minted for a deposit into a pool that already has shares: the
/// deposit's part of reserve A, applied to the supply, rounded down.
pub open spec fn shares_for(supply: int, ra: int, taken_a: int) -> int {
    supply * taken_a / ra
}

/// The refusal that a deposit of at most `(amount_a, amount_b)` meets, if any,
/// from a depositor holding `(balance_a, balance_b)`.
pub open spec fn add_liquidity_error(
    supply: int,
    ra: int,
    rb: int,
    balance_a: int,
    balance_b: int,
    amount_a: int,
    amount_b: int,
) -> Option<AmmError> {
    let (ta, tb) = deposit_taken(supply, ra, rb, amount_a, amount_b);
    if amount_a == 0 && amount_b == 0 {
        Some(AmmError::AmountIsZero)
    } else if balance_a < amount_a || balance_b < amount_b {
        Some(AmmError::InsufficientBalance)
    } else if supply > 0 && (ra == 0 || rb == 0) {
        Some(AmmError::InvalidPoolState)
    } else if supply > 0 && shares_for(supply, ra, ta) > u64_max() {
        Some(AmmError::MathOverflow)
    } else if supply == 0 && amount_a * amount_b == 0 {
        Some(AmmError::LpIsZero)
    } else if supply > 0 && supply + shares_for(supply, ra, ta) > u64_max() {
        Some(AmmError::MathOverflow)
    } else if ra + ta > u64_max() || rb + tb > u64_max() {
        Some(AmmError::MathOverflow)
    } else {
        None
    }
}

/// The refusal that a withdrawal of `lp` shares meets, if any, from a holder
/// of `balance` shares. Redeeming more shares than exist would pay out more
/// than the reserves hold and drive the supply below zero: that is an overflow.
pub open spec fn withdraw_error(supply: int, ra: int, rb: int, balance: int, lp: int) -> Option<
    AmmError,
> {
    if lp == 0 {
        Some(AmmError::AmountIsZero)
    } else if balance < lp {
        Some(AmmError::InsufficientBalance)
    } else if supply == 0 {
        Some(AmmError::InvalidPoolState)
    } else if ra * lp / supply == 0 && rb * lp / supply == 0 {
        Some(AmmError::LpIsZero)
    } else if lp > supply {
        Some(AmmError::MathOverflow)
    } else {
        None
    }
}

pub proof fn lemma_ceil_div_le(n: int, d: int, m: int)
    requires
        n >= 0,
        d > 0,
        m >= 0,
    ensures
        ceil_div(n, d) <= m <==> n <= m * d,
        ceil_div(n, d) >= 0,
{
    let q = n / d;
    let r = n % d;
    assert(n == q * d + r && 0 <= r < d) by (nonlinear_arith)
        requires
            d > 0,
            q == n / d,
            r == n % d,
    ;
    assert(q >= 0) by (nonlinear_arith)
        requires
            n >= 0,
            d > 0,
            q == n / d,
    ;
    if r == 0 {
        assert(q <= m <==> q * d <= m * d) by (nonlinear_arith)
            requires
                d > 0,
        ;
    } else {
        assert(q + 1 <= m <==> q * d + r <= m * d) by (nonlinear_arith)
            requires
                d > 0,
                0 < r < d,
        ;
    }
}

pub proof fn lemma_floor_div_lt(n: int, d: int, m: int)
    requires
        n >= 0,
        d > 0,
        n < m * d,
    ensures
        0 <= n / d < m,
{
    assert(0 <= n / d < m) by (nonlinear_arith)
        requires
            n >= 0,
            d > 0,
            n < m * d,
    ;
}

/// A deposit into a pool with shares takes no more than offered, and the B it
/// takes is never short of what the ratio of the reserves asks for A:
/// `taken_a / taken_b <= ra / rb`.
pub proof fn lemma_proportional_take(amount_a: int, amount_b: int, ra: int, rb: int)
    requires
        amount_a >= 0,
        amount_b >= 0,
        ra > 0,
        rb > 0,
    ensures
        ({
            let (ta, tb) = proportional_take(amount_a, amount_b, ra, rb);
            &&& 0 <= ta <= amount_a
            &&& 0 <= tb <= amount_b
            &&& ta * rb <= tb * ra
            &&& tb * ra < (ta + 1) * rb + ra
        }),
{
    let need_b = ceil_div(amount_a * rb, ra);
    assert(amount_a * rb >= 0) by (nonlinear_arith)
        requires
            amount_a >= 0,
            rb > 0,
    ;
    lemma_ceil_div_le(amount_a * rb, ra, amount_b);
    lemma_ceil_div_le(amount_a * rb, ra, need_b);
    if need_b <= amount_b {
        // need_b * ra >= amount_a * rb and need_b is the least such value
        if need_b > 0 {
            lemma_ceil_div_le(amount_a * rb, ra, (need_b - 1) as int);
        } else {
            assert(amount_a * rb <= 0);
            assert(amount_a == 0) by (nonlinear_arith)
                requires
                    amount_a >= 0,
                    rb > 0,
                    amount_a * rb <= 0,
            ;
        }
        assert(need_b * ra < (amount_a + 1) * rb + ra) by (nonlinear_arith)
            requires
                need_b == 0 || amount_a * rb > (need_b - 1) * ra,
                need_b == 0 ==> amount_a == 0,
                ra > 0,
                rb > 0,
        ;
    } else {
        assert(amount_a * rb > amount_b * ra);
        let ta = amount_b * ra / rb;
        assert(amount_b * ra >= 0) by (nonlinear_arith)
            requires
                amount_b >= 0,
                ra > 0,
        ;
        assert(amount_b * ra < amount_a * rb);
        assert(amount_b * ra == ra * amount_b) by (nonlinear_arith);
        assert(amount_a * rb == rb * amount_a) by (nonlinear_arith);
        lemma_floor_div_lt(amount_b * ra, rb, amount_a);
        assert(ta * rb <= amount_b * ra && amount_b * ra < (ta + 1) * rb) by (nonlinear_arith)
            requires
                ta == amount_b * ra / rb,
                amount_b * ra >= 0,
                rb > 0,
        ;
    }
}

/// Deposits at most `amount_a` and `amount_b` from a depositor holding
/// `balance_a` and `balance_b`. The first deposit into a pool without shares
/// takes both amounts in full and mints `floor(sqrt(amount_a * amount_b))`
/// shares; later ones take the ratio-keeping part and mint shares in proportion
/// to the A they add, rounded down, which may be none at all. Reserves and supply grow by what was taken and minted; a
/// refused deposit changes nothing.
pub fn add_liquidity(
    pool: &mut AmmPool,
    reserves: &mut Reserves,
    balance_a: u64,
    balance_b: u64,
    amount_a: u64,
    amount_b: u64,
) -> (r: Result<AddLiquidity, AmmError>)
    ensures
        ({
            let supply = old(pool).supply as int;
            let ra = old(reserves).a as int;
            let rb = old(reserves).b as int;
            let err = add_liquidity_error(
                supply,
                ra,
                rb,
                balance_a as int,
                balance_b as int,
                amount_a as int,
                amount_b as int,
            );
            let (ta, tb) = deposit_taken(supply, ra, rb, amount_a as int, amount_b as int);
            match r {
                Ok(d) => {
                    &&& err is None
                    &&& d.taken_a as int == ta
                    &&& d.taken_b as int == tb
                    &&& supply == 0 ==> is_floor_sqrt(amount_a * amount_b, d.minted as int)
                    &&& supply > 0 ==> d.minted as int == shares_for(supply, ra, ta)
                    &&& supply == 0 ==> d.minted > 0
                    &&& *final(pool) == (AmmPool {
                        supply: (old(pool).supply + d.minted) as u64,
                        ..*old(pool)
                    })
                    &&& final(reserves).a as int == ra + ta
                    &&& final(reserves).b as int == rb + tb
                },
                Err(e) => {
                    &&& err == Some(e)
                    &&& *final(pool) == *old(pool)
                    &&& *final(reserves) == *old(reserves)
                },
            }
        }),
{
    if amount_a == 0 && amount_b == 0 {
        return Err(AmmError::AmountIsZero);
    }
    if balance_a < amount_a || balance_b < amount_b {
        return Err(AmmError::InsufficientBalance);
    }
    let supply = pool.supply;
    let ra = reserves.a;
    let rb = reserves.b;
    let taken_a: u64;
    let taken_b: u64;
    let minted: u64;
    if supply == 0 {
        let root = isqrt(wide_mul(amount_a, amount_b));
        proof {
            if root > 0 {
                assert((root as int) * (root as int) >= 1) by (nonlinear_arith)
                    requires
                        root >= 1,
                ;
            }
        }
        if root == 0 {
            return Err(AmmError::LpIsZero);
        }
        taken_a = amount_a;
        taken_b = amount_b;
        minted = root;
    } else {
        if ra == 0 || rb == 0 {
            return Err(AmmError::InvalidPoolState);
        }
        proof {
            lemma_proportional_take(amount_a as int, amount_b as int, ra as int, rb as int);
        }
        let need_b = mul_div_ceil(amount_a, rb, ra);
        if need_b <= amount_b as u128 {
            taken_a = amount_a;
            taken_b = need_b as u64;
        } else {
            taken_a = mul_div_floor(amount_b, ra, rb) as u64;
            taken_b = amount_b;
        }
        let shares = mul_div_floor(supply, taken_a, ra);
        if shares > u64::MAX as u128 {
            return Err(AmmError::MathOverflow);
        }
        if supply > u64::MAX - shares as u64 {
            return Err(AmmError::MathOverflow);
        }
        minted = shares as u64;
    }
    if ra > u64::MAX - taken_a || rb > u64::MAX - taken_b {
        return Err(AmmError::MathOverflow);
    }
    pool.supply = supply + minted;
    reserves.a = ra + taken_a;
    reserves.b = rb + taken_b;
    Ok(AddLiquidity { taken_a, taken_b, minted })
}

/// Redeems `amount` shares from a holder of `share_balance` shares, paying out
/// each reserve in proportion to the shares redeemed, rounded down. Supply and
/// reserves fall by what was burned and paid; a refused withdrawal changes
/// nothing.
pub fn withdraw_liquidity(
    pool: &mut AmmPool,
    reserves: &mut Reserves,
    share_balance: u64,
    amount: u64,
) -> (r: Result<Withdrawal, AmmError>)
    ensures
        ({
            let supply = old(pool).supply as int;
            let ra = old(reserves).a as int;
            let rb = old(reserves).b as int;
            let err = withdraw_error(supply, ra, rb, share_balance as int, amount as int);
            match r {
                Ok(w) => {
                    &&& err is None
                    &&& w.out_a as int == ra * amount / supply
                    &&& w.out_b as int == rb * amount / supply
                    &&& *final(pool) == (AmmPool {
                        supply: (old(pool).supply - amount) as u64,
                        ..*old(pool)
                    })
                    &&& final(reserves).a as int == ra - w.out_a
                    &&& final(reserves).b as int == rb - w.out_b
                },
                Err(e) => {
                    &&& err == Some(e)
                    &&& *final(pool) == *old(pool)
                    &&& *final(reserves) == *old(reserves)
                },
            }
        }),
{
    if amount == 0 {
        return Err(AmmError::AmountIsZero);
    }
    if share_balance < amount {
        return Err(AmmError::InsufficientBalance);
    }
    let supply = pool.supply;
    if supply == 0 {
        return Err(AmmError::InvalidPoolState);
    }
    let ra = reserves.a;
    let rb = reserves.b;
    let wide_a = mul_div_floor(ra, amount, supply);
    let wide_b = mul_div_floor(rb, amount, supply);
    if wide_a == 0 && wide_b == 0 {
        return Err(AmmError::LpIsZero);
    }
    if amount > supply {
        return Err(AmmError::MathOverflow);
    }
    proof {
        lemma_share_of_reserve(ra as int, amount as int, supply as int);
        lemma_share_of_reserve(rb as int, amount as int, supply as int);
    }
    let out_a = wide_a as u64;
    let out_b = wide_b as u64;
    pool.supply = supply - amount;
    reserves.a = ra - out_a;
    reserves.b = rb - out_b;
    Ok(Withdrawal { out_a, out_b })
}

/// A part `lp / supply` of a reserve, rounded down, is at most the reserve.
pub proof fn lemma_share_of_reserve(reserve: int, lp: int, supply: int)
    requires
        reserve >= 0,
        0 <= lp <= supply,
        supply > 0,
    ensures
        0 <= reserve * lp / supply <= reserve,
{
    assert(0 <= reserve * lp / supply <= reserve) by (nonlinear_arith)
        requires
            reserve >= 0,
            0 <= lp <= supply,
            supply > 0,
    {
        assert(reserve * lp <= reserve * supply);
        assert(reserve * supply / supply == reserve);
    }
}

} // verus!
