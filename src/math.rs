use vstd::prelude::*;

verus! {

/// Largest value of a `u64`, as an integer.
pub open spec fn u64_max() -> int {
    0xffff_ffff_ffff_ffff
}

/// `r` is the integer square root of `n`: the largest integer whose square is at most `n`.
pub open spec fn is_floor_sqrt(n: int, r: int) -> bool {
    0 <= r && r * r <= n && n < (r + 1) * (r + 1)
}

/// `n / d` rounded towards positive infinity.
pub open spec fn ceil_div(n: int, d: int) -> int {
    if n % d == 0 {
        n / d
    } else {
        n / d + 1
    }
}

pub proof fn lemma_product_fits(a: u64, b: u64)
    ensures
        0 <= (a as int) * (b as int) <= u64_max() * u64_max(),
{
    assert(0 <= (a as int) * (b as int) <= u64_max() * u64_max()) by (nonlinear_arith)
        requires
            0 <= a <= u64_max(),
            0 <= b <= u64_max(),
    ;
}

/// The product of two `u64` values, in double width.
pub fn wide_mul(a: u64, b: u64) -> (r: u128)
    ensures
        r as int == (a as int) * (b as int),
{
    proof {
        lemma_product_fits(a, b);
    }
    (a as u128) * (b as u128)
}

/// `floor(a * b / d)`, computed with a double-width product.
pub fn mul_div_floor(a: u64, b: u64, d: u64) -> (r: u128)
    requires
        d > 0,
    ensures
        r as int == (a as int) * (b as int) / (d as int),
{
    wide_mul(a, b) / (d as u128)
}

/// `ceil(a * b / d)`, computed with a double-width product.
pub fn mul_div_ceil(a: u64, b: u64, d: u64) -> (r: u128)
    requires
        d > 0,
    ensures
        r as int == ceil_div((a as int) * (b as int), d as int),
{
    let p = wide_mul(a, b);
    let q = p / (d as u128);
    if p % (d as u128) == 0 {
        q
    } else {
        proof {
            lemma_product_fits(a, b);
            assert(q as int <= p as int) by (nonlinear_arith)
                requires
                    q as int == (p as int) / (d as int),
                    d > 0,
                    p >= 0,
            ;
        }
        q + 1
    }
}

/// The integer square root of `n`, by bisection over `[0, 2^64)`.
pub fn isqrt(n: u128) -> (r: u64)
    ensures
        is_floor_sqrt(n as int, r as int),
{
    let mut lo: u128 = 0;
    let mut hi: u128 = 0x1_0000_0000_0000_0000;
    proof {
        assert((hi as int) * (hi as int) == 0x1_0000_0000_0000_0000_0000_0000_0000_0000) by (nonlinear_arith)
            requires
                hi == 0x1_0000_0000_0000_0000u128,
        ;
    }
    while hi - lo > 1
        invariant
            lo < hi <= 0x1_0000_0000_0000_0000,
            (lo as int) * (lo as int) <= n,
            (n as int) < (hi as int) * (hi as int),
        decreases hi - lo,
    {
        let mid: u128 = lo + (hi - lo) / 2;
        proof {
            assert((mid as int) * (mid as int) < 0x1_0000_0000_0000_0000_0000_0000_0000_0000) by (nonlinear_arith)
                requires
                    0 <= mid < 0x1_0000_0000_0000_0000,
            ;
        }
        if mid * mid <= n {
            lo = mid;
        } else {
            hi = mid;
        }
    }
    proof {
        assert(hi == lo + 1);
    }
    lo as u64
}

} // verus!
