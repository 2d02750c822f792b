use vstd::prelude::*;

use crate::fee::{amount_after_fee, lemma_after_fee_bounds};
use crate::liquidity::{add_liquidity_error, deposit_taken, shares_for, withdraw_error};
use crate::math::{ceil_div, is_floor_sqrt, u64_max};
use crate::state::MAX_FEE_BPS;
use crate::swap::{lemma_swap_output_bounds, swap_error, swap_output, swap_step};

verus! {

/// The fee that a swap retains covers the rounding of its quotient: with
/// `k = reserve_in * reserve_out` and `x` the input after fee,
/// `k % (reserve_in + x) <= (k / (reserve_in + x)) * (amount_in - x)`.
pub open spec fn rounding_covered_by_fee(
    reserve_in: int,
    reserve_out: int,
    fee: int,
    amount_in: int,
) -> bool {
    let x = amount_after_fee(amount_in, fee);
    let k = reserve_in * reserve_out;
    k % (reserve_in + x) <= (k / (reserve_in + x)) * (amount_in - x)
}

/// One swap against `reserve_in` and `reserve_out`, fee taken from the input:
/// the product of the reserves afterwards is never below the product before
/// exactly when the retained fee covers the rounding of the quotient, and in
/// every case it falls by less than `reserve_in + x`, where `x` is the input
/// after fee.
pub proof fn lemma_swap_product(reserve_in: int, reserve_out: int, fee: int, amount_in: int)
    requires
        reserve_in > 0,
        reserve_out > 0,
        0 <= fee < MAX_FEE_BPS,
        amount_in > 0,
    ensures
        ({
            let x = amount_after_fee(amount_in, fee);
            let after = (reserve_in + amount_in) * (reserve_out - swap_output(
                reserve_in,
                reserve_out,
                x,
            ));
            &&& after >= reserve_in * reserve_out <==> rounding_covered_by_fee(
                reserve_in,
                reserve_out,
                fee,
                amount_in,
            )
            &&& after > reserve_in * reserve_out - (reserve_in + x)
        }),
{
    let x = amount_after_fee(amount_in, fee);
    lemma_after_fee_bounds(amount_in, fee);
    let k = reserve_in * reserve_out;
    let d = reserve_in + x;
    let q = k / d;
    let rem = k % d;
    assert(k == q * d + rem && 0 <= rem < d) by (nonlinear_arith)
        requires
            d > 0,
            q == k / d,
            rem == k % d,
    ;
    assert(k > 0) by (nonlinear_arith)
        requires
            reserve_in > 0,
            reserve_out > 0,
            k == reserve_in * reserve_out,
    ;
    assert(q >= 0) by (nonlinear_arith)
        requires
            k > 0,
            d > 0,
            q == k / d,
    ;
    assert(reserve_out - swap_output(reserve_in, reserve_out, x) == q);
    assert((reserve_in + amount_in) * q == k - rem + q * (amount_in - x)) by (nonlinear_arith)
        requires
            k == q * d + rem,
            d == reserve_in + x,
    ;
    assert(q * (amount_in - x) >= 0) by (nonlinear_arith)
        requires
            q >= 0,
            amount_in - x >= 0,
    ;
}

/// Reserves after each swap of `steps` in turn, starting from `(ra, rb)`.
/// A step is `(is_swap_a, amount_in, min_out)`; a refused step changes nothing.
pub open spec fn apply_swaps(ra: int, rb: int, fee: int, steps: Seq<(bool, int, int)>) -> (
    int,
    int,
)
    decreases steps.len(),
{
    if steps.len() == 0 {
        (ra, rb)
    } else {
        let (is_a, amount_in, min_out) = steps[0];
        let (na, nb) = swap_step(ra, rb, fee, is_a, amount_in, min_out);
        apply_swaps(na, nb, fee, steps.drop_first())
    }
}

/// Each step of `steps`, taken in turn from `(ra, rb)`, is refused or has its
/// rounding covered by the fee it retains.
pub open spec fn swaps_round_for_pool(
    ra: int,
    rb: int,
    fee: int,
    steps: Seq<(bool, int, int)>,
) -> bool
    decreases steps.len(),
{
    if steps.len() == 0 {
        true
    } else {
        let (is_a, amount_in, min_out) = steps[0];
        let (na, nb) = swap_step(ra, rb, fee, is_a, amount_in, min_out);
        let covered = if is_a {
            rounding_covered_by_fee(ra, rb, fee, amount_in)
        } else {
            rounding_covered_by_fee(rb, ra, fee, amount_in)
        };
        &&& (swap_error(ra, rb, fee, is_a, amount_in, min_out).is_some() || covered)
        &&& swaps_round_for_pool(na, nb, fee, steps.drop_first())
    }
}

/// One swap, refused or not, keeps both reserves non-negative.
pub proof fn lemma_swap_step_nonneg(
    ra: int,
    rb: int,
    fee: int,
    is_a: bool,
    amount_in: int,
    min_out: int,
)
    requires
        ra >= 0,
        rb >= 0,
        0 <= fee < MAX_FEE_BPS,
        amount_in >= 0,
    ensures
        swap_step(ra, rb, fee, is_a, amount_in, min_out).0 >= 0,
        swap_step(ra, rb, fee, is_a, amount_in, min_out).1 >= 0,
{
    lemma_after_fee_bounds(amount_in, fee);
    if swap_error(ra, rb, fee, is_a, amount_in, min_out).is_none() {
        let x = amount_after_fee(amount_in, fee);
        if is_a {
            lemma_swap_output_bounds(ra, rb, x);
        } else {
            lemma_swap_output_bounds(rb, ra, x);
        }
    }
}

/// The product of the reserves never decreases over a sequence of swaps whose
/// every step is refused or has its rounding covered by the fee it retains.
pub proof fn lemma_swaps_product_non_decreasing(
    ra: int,
    rb: int,
    fee: int,
    steps: Seq<(bool, int, int)>,
)
    requires
        0 <= ra <= u64_max(),
        0 <= rb <= u64_max(),
        0 <= fee < MAX_FEE_BPS,
        forall|i: int| 0 <= i < steps.len() ==> 0 <= #[trigger] steps[i].1 <= u64_max(),
        swaps_round_for_pool(ra, rb, fee, steps),
    ensures
        apply_swaps(ra, rb, fee, steps).0 * apply_swaps(ra, rb, fee, steps).1 >= ra * rb,
    decreases steps.len(),
{
    if steps.len() > 0 {
        let (is_a, amount_in, min_out) = steps[0];
        assert(0 <= steps[0].1 <= u64_max());
        let (na, nb) = swap_step(ra, rb, fee, is_a, amount_in, min_out);
        lemma_swap_step_nonneg(ra, rb, fee, is_a, amount_in, min_out);
        if swap_error(ra, rb, fee, is_a, amount_in, min_out).is_none() {
            lemma_after_fee_bounds(amount_in, fee);
            if is_a {
                lemma_swap_product(ra, rb, fee, amount_in);
                lemma_swap_output_bounds(ra, rb, amount_after_fee(amount_in, fee));
            } else {
                lemma_swap_product(rb, ra, fee, amount_in);
                lemma_swap_output_bounds(rb, ra, amount_after_fee(amount_in, fee));
                assert(na * nb == nb * na) by (nonlinear_arith);
                assert(ra * rb == rb * ra) by (nonlinear_arith);
            }
        }
        let rest = steps.drop_first();
        assert forall|i: int| 0 <= i < rest.len() implies 0 <= #[trigger] rest[i].1
            <= u64_max() by {
            assert(rest[i] == steps[i + 1]);
        }
        lemma_swaps_product_non_decreasing(na, nb, fee, rest);
    }
}

/// A deposit of `(a, b)` into an empty pool, followed at once by the
/// withdrawal of all the shares it minted, is accepted exactly when both
/// amounts are positive, and then pays back exactly `(a, b)`: nothing is lost
/// and nothing is gained.
pub proof fn lemma_round_trip_on_empty_pool(a: int, b: int, minted: int)
    requires
        0 <= a <= u64_max(),
        0 <= b <= u64_max(),
        is_floor_sqrt(a * b, minted),
    ensures
        add_liquidity_error(0, 0, 0, a, b, a, b) is None <==> a > 0 && b > 0,
        a > 0 && b > 0 ==> {
            &&& minted > 0
            &&& withdraw_error(minted, a, b, minted, minted) is None
            &&& a * minted / minted == a
            &&& b * minted / minted == b
        },
{
    if a > 0 && b > 0 {
        assert(a * b >= 1) by (nonlinear_arith)
            requires
                a >= 1,
                b >= 1,
        ;
        assert(minted > 0) by (nonlinear_arith)
            requires
                minted >= 0,
                a * b < (minted + 1) * (minted + 1),
                a * b >= 1,
                minted * minted <= a * b,
        ;
        assert(a * minted / minted == a && b * minted / minted == b) by (nonlinear_arith)
            requires
                minted > 0,
        ;
    } else {
        assert(a * b == 0) by (nonlinear_arith)
            requires
                a == 0 || b == 0,
        ;
    }
}

/// Rounding always favours the pool: the shares minted for a deposit claim no
/// more of reserve A than the deposit added to it, and a withdrawal pays out of
/// each reserve no more than the part that the redeemed shares stand for.
pub proof fn lemma_rounding_favours_pool(supply: int, ra: int, rb: int, taken_a: int, lp: int)
    requires
        supply > 0,
        ra > 0,
        rb >= 0,
        taken_a >= 0,
        0 <= lp <= supply,
    ensures
        shares_for(supply, ra, taken_a) * ra <= supply * taken_a,
        (ra * lp / supply) * supply <= ra * lp,
        (rb * lp / supply) * supply <= rb * lp,
{
    assert(shares_for(supply, ra, taken_a) * ra <= supply * taken_a) by (nonlinear_arith)
        requires
            ra > 0,
            supply * taken_a >= 0,
            shares_for(supply, ra, taken_a) == supply * taken_a / ra,
    ;
    assert((ra * lp / supply) * supply <= ra * lp) by (nonlinear_arith)
        requires
            supply > 0,
            ra * lp >= 0,
    ;
    assert((rb * lp / supply) * supply <= rb * lp) by (nonlinear_arith)
        requires
            supply > 0,
            rb * lp >= 0,
    ;
}

/// On reserves `(1000, 2000)` with shares in circulation, a deposit offering
/// `(100, 1000000)` takes `(100, 200)`, whatever the supply: the ratio of the
/// reserves is kept and the excess of B is left with the depositor. It mints
/// `supply / 10` shares, and is accepted from a depositor who holds the amounts
/// offered exactly when the new supply fits.
pub proof fn lemma_proportional_add_example(supply: int, balance_a: int, balance_b: int)
    requires
        0 < supply <= u64_max(),
        balance_a >= 100,
        balance_b >= 1000000,
    ensures
        deposit_taken(supply, 1000, 2000, 100, 1000000) == (100int, 200int),
        shares_for(supply, 1000, 100) == supply / 10,
        add_liquidity_error(supply, 1000, 2000, balance_a, balance_b, 100, 1000000) is None
            <==> supply + supply / 10 <= u64_max(),
{
    assert(ceil_div(200000int, 1000int) == 200);
    assert(supply * 100 / 1000 == supply / 10) by (nonlinear_arith)
        requires
            supply > 0,
    ;
    assert(supply / 10 <= u64_max()) by (nonlinear_arith)
        requires
            0 < supply <= u64_max(),
    ;
}

} // verus!
