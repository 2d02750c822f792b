use amm::fee::apply_fee;
use amm::math::isqrt;
use amm::{
    add_liquidity, create_amm, create_pool, swap, withdraw_liquidity, AddLiquidity, AmmError,
    AmmPool, CreateAmm, Pubkey, Reserves, Withdrawal,
};

fn key(n: u8) -> Pubkey {
    Pubkey { bytes: [n; 32] }
}

fn pool_with_fee(fee: u16) -> AmmPool {
    let amm = create_amm(&CreateAmm { admin_account: key(9) }, fee, 0).unwrap();
    create_pool(&amm, key(1), key(2)).unwrap()
}

#[test]
fn create_amm_rejects_full_fee() {
    let accounts = CreateAmm { admin_account: key(7) };
    assert_eq!(create_amm(&accounts, 10000, 0).unwrap_err(), AmmError::InvalidFee);
    assert_eq!(create_amm(&accounts, 65535, 3).unwrap_err(), AmmError::InvalidFee);
}

#[test]
fn create_amm_accepts_highest_fee() {
    let accounts = CreateAmm { admin_account: key(7) };
    let amm = create_amm(&accounts, 9999, 0).unwrap();
    assert_eq!(amm.fee, 9999);
    assert_eq!(amm.index, 0);
    assert!(amm.admin == key(7));
}

#[test]
fn create_pool_starts_empty() {
    let amm = create_amm(&CreateAmm { admin_account: key(7) }, 30, 4).unwrap();
    let pool = create_pool(&amm, key(1), key(2)).unwrap();
    assert_eq!(pool.supply, 0);
    assert_eq!(pool.fee, 30);
    assert_eq!(pool.amm, 4);
    assert!(pool.mint_a == key(1));
    assert!(pool.mint_b == key(2));
    assert_eq!(pool.authority.amm, 4);
    assert!(pool.authority.mint_a == key(1));
    assert!(pool.authority.mint_b == key(2));
}

#[test]
fn create_pool_rejects_same_asset() {
    let amm = create_amm(&CreateAmm { admin_account: key(7) }, 30, 0).unwrap();
    assert_eq!(create_pool(&amm, key(5), key(5)).unwrap_err(), AmmError::MintAccountsAreEqual);
    let mut other = key(5);
    other.bytes[31] = 6;
    assert!(create_pool(&amm, key(5), other).is_ok());
}

#[test]
fn fee_is_rounded_down() {
    assert_eq!(apply_fee(100, 30), 99);
    assert_eq!(apply_fee(10000, 30), 9970);
    assert_eq!(apply_fee(7, 0), 7);
    assert_eq!(apply_fee(1, 9999), 0);
}

#[test]
fn square_root_is_floored() {
    assert_eq!(isqrt(0), 0);
    assert_eq!(isqrt(99), 9);
    assert_eq!(isqrt(100), 10);
    assert_eq!(isqrt(2_000_000), 1414);
    assert_eq!(isqrt((u64::MAX as u128) * (u64::MAX as u128)), u64::MAX);
    assert_eq!(isqrt(u128::MAX), u64::MAX);
}

#[test]
fn first_deposit_mints_square_root() {
    let mut pool = pool_with_fee(30);
    let mut reserves = Reserves { a: 0, b: 0 };
    let d = add_liquidity(&mut pool, &mut reserves, 5000, 5000, 1000, 2000).unwrap();
    assert_eq!(d, AddLiquidity { taken_a: 1000, taken_b: 2000, minted: 1414 });
    assert_eq!(pool.supply, 1414);
    assert_eq!(reserves, Reserves { a: 1000, b: 2000 });
}

#[test]
fn proportional_add_keeps_ratio() {
    let mut pool = pool_with_fee(30);
    let mut reserves = Reserves { a: 0, b: 0 };
    add_liquidity(&mut pool, &mut reserves, 1000, 2000, 1000, 2000).unwrap();
    let d = add_liquidity(&mut pool, &mut reserves, 100, 1_000_000, 100, 1_000_000).unwrap();
    assert_eq!(d.taken_a, 100);
    assert_eq!(d.taken_b, 200);
    assert_eq!(d.minted, 141);
    assert_eq!(reserves, Reserves { a: 1100, b: 2200 });
    assert_eq!(pool.supply, 1555);
}

#[test]
fn proportional_add_driven_by_b() {
    let mut pool = pool_with_fee(30);
    pool.supply = 1000;
    let mut reserves = Reserves { a: 1000, b: 3000 };
    let d = add_liquidity(&mut pool, &mut reserves, 500, 100, 500, 100).unwrap();
    assert_eq!(d, AddLiquidity { taken_a: 33, taken_b: 100, minted: 33 });
    assert_eq!(reserves, Reserves { a: 1033, b: 3100 });
    assert_eq!(pool.supply, 1033);
}

#[test]
fn proportional_add_rounds_b_up() {
    let mut pool = pool_with_fee(30);
    pool.supply = 100;
    let mut reserves = Reserves { a: 3, b: 10 };
    let d = add_liquidity(&mut pool, &mut reserves, 1, 10, 1, 10).unwrap();
    assert_eq!(d, AddLiquidity { taken_a: 1, taken_b: 4, minted: 33 });
}

#[test]
fn add_rejects_zero_amounts() {
    let mut pool = pool_with_fee(30);
    let mut reserves = Reserves { a: 0, b: 0 };
    assert_eq!(
        add_liquidity(&mut pool, &mut reserves, 10, 10, 0, 0).unwrap_err(),
        AmmError::AmountIsZero
    );
}

#[test]
fn add_rejects_short_balance() {
    let mut pool = pool_with_fee(30);
    let mut reserves = Reserves { a: 0, b: 0 };
    assert_eq!(
        add_liquidity(&mut pool, &mut reserves, 99, 1000, 100, 100).unwrap_err(),
        AmmError::InsufficientBalance
    );
    assert_eq!(pool.supply, 0);
    assert_eq!(reserves, Reserves { a: 0, b: 0 });
}

#[test]
fn first_deposit_of_one_asset_mints_nothing() {
    let mut pool = pool_with_fee(30);
    let mut reserves = Reserves { a: 0, b: 0 };
    assert_eq!(
        add_liquidity(&mut pool, &mut reserves, 10, 10, 0, 5).unwrap_err(),
        AmmError::LpIsZero
    );
    assert_eq!(pool.supply, 0);
}

#[test]
fn add_too_small_for_a_share() {
    let mut pool = pool_with_fee(30);
    pool.supply = 10;
    let mut reserves = Reserves { a: 1000, b: 1000 };
    let d = add_liquidity(&mut pool, &mut reserves, 50, 50, 50, 50).unwrap();
    assert_eq!(d, AddLiquidity { taken_a: 50, taken_b: 50, minted: 0 });
    assert_eq!(reserves, Reserves { a: 1050, b: 1050 });
    assert_eq!(pool.supply, 10);
}

#[test]
fn add_overflowing_reserve_without_shares_minted() {
    let mut pool = pool_with_fee(30);
    pool.supply = 1;
    let mut reserves = Reserves { a: u64::MAX, b: u64::MAX };
    assert_eq!(
        add_liquidity(&mut pool, &mut reserves, 1, 1, 1, 1).unwrap_err(),
        AmmError::MathOverflow
    );
    assert_eq!(pool.supply, 1);
    assert_eq!(reserves, Reserves { a: u64::MAX, b: u64::MAX });
}

#[test]
fn add_rejects_zero_reserves() {
    let mut pool = pool_with_fee(30);
    pool.supply = 100;
    let mut reserves = Reserves { a: 0, b: 0 };
    assert_eq!(
        add_liquidity(&mut pool, &mut reserves, 10, 10, 10, 10).unwrap_err(),
        AmmError::InvalidPoolState
    );
    assert_eq!(pool.supply, 100);
}

#[test]
fn add_overflowing_reserve() {
    let mut pool = pool_with_fee(30);
    let mut reserves = Reserves { a: u64::MAX, b: 5 };
    assert_eq!(
        add_liquidity(&mut pool, &mut reserves, 10, 10, 10, 10).unwrap_err(),
        AmmError::MathOverflow
    );
    assert_eq!(reserves, Reserves { a: u64::MAX, b: 5 });
}

#[test]
fn add_overflowing_shares() {
    let mut pool = pool_with_fee(30);
    pool.supply = u64::MAX;
    let mut reserves = Reserves { a: 1, b: 1 };
    assert_eq!(
        add_liquidity(&mut pool, &mut reserves, 2, 2, 2, 2).unwrap_err(),
        AmmError::MathOverflow
    );
    pool.supply = u64::MAX - 1;
    assert_eq!(
        add_liquidity(&mut pool, &mut reserves, 1, 1, 1, 1).unwrap_err(),
        AmmError::MathOverflow
    );
}

#[test]
fn round_trip_on_empty_pool() {
    let mut pool = pool_with_fee(30);
    let mut reserves = Reserves { a: 0, b: 0 };
    let d = add_liquidity(&mut pool, &mut reserves, 10, 7, 10, 7).unwrap();
    assert_eq!(d.minted, 8);
    let w = withdraw_liquidity(&mut pool, &mut reserves, d.minted, d.minted).unwrap();
    assert_eq!(w, Withdrawal { out_a: 10, out_b: 7 });
    assert_eq!(pool.supply, 0);
    assert_eq!(reserves, Reserves { a: 0, b: 0 });
}

#[test]
fn withdraw_pays_proportional_share() {
    let mut pool = pool_with_fee(30);
    pool.supply = 300;
    let mut reserves = Reserves { a: 1000, b: 2000 };
    let w = withdraw_liquidity(&mut pool, &mut reserves, 150, 100).unwrap();
    assert_eq!(w, Withdrawal { out_a: 333, out_b: 666 });
    assert_eq!(pool.supply, 200);
    assert_eq!(reserves, Reserves { a: 667, b: 1334 });
}

#[test]
fn withdraw_more_than_held() {
    let mut pool = pool_with_fee(30);
    pool.supply = 300;
    let mut reserves = Reserves { a: 1000, b: 2000 };
    assert_eq!(
        withdraw_liquidity(&mut pool, &mut reserves, 50, 51).unwrap_err(),
        AmmError::InsufficientBalance
    );
    assert_eq!(pool.supply, 300);
    assert_eq!(reserves, Reserves { a: 1000, b: 2000 });
}

#[test]
fn withdraw_rejects_zero() {
    let mut pool = pool_with_fee(30);
    pool.supply = 300;
    let mut reserves = Reserves { a: 1000, b: 2000 };
    assert_eq!(
        withdraw_liquidity(&mut pool, &mut reserves, 50, 0).unwrap_err(),
        AmmError::AmountIsZero
    );
}

#[test]
fn withdraw_from_pool_without_shares() {
    let mut pool = pool_with_fee(30);
    let mut reserves = Reserves { a: 1000, b: 2000 };
    assert_eq!(
        withdraw_liquidity(&mut pool, &mut reserves, 50, 10).unwrap_err(),
        AmmError::InvalidPoolState
    );
    assert_eq!(pool.supply, 0);
    assert_eq!(reserves, Reserves { a: 1000, b: 2000 });
}

#[test]
fn withdraw_more_than_supply_pays_nothing() {
    let mut pool = pool_with_fee(30);
    pool.supply = 5;
    let mut reserves = Reserves { a: 0, b: 0 };
    assert_eq!(
        withdraw_liquidity(&mut pool, &mut reserves, 10, 10).unwrap_err(),
        AmmError::LpIsZero
    );
    assert_eq!(pool.supply, 5);
    assert_eq!(reserves, Reserves { a: 0, b: 0 });
}

#[test]
fn withdraw_more_than_supply_overflows() {
    let mut pool = pool_with_fee(30);
    pool.supply = 1;
    let mut reserves = Reserves { a: u64::MAX, b: 0 };
    assert_eq!(
        withdraw_liquidity(&mut pool, &mut reserves, 2, 2).unwrap_err(),
        AmmError::MathOverflow
    );
    assert_eq!(pool.supply, 1);
    assert_eq!(reserves, Reserves { a: u64::MAX, b: 0 });
    pool.supply = 5;
    let mut other = Reserves { a: 1000, b: 2000 };
    assert_eq!(
        withdraw_liquidity(&mut pool, &mut other, 50, 10).unwrap_err(),
        AmmError::MathOverflow
    );
}

#[test]
fn proportional_add_with_few_shares() {
    let mut pool = pool_with_fee(30);
    pool.supply = 5;
    let mut reserves = Reserves { a: 1000, b: 2000 };
    let d = add_liquidity(&mut pool, &mut reserves, 100, 1_000_000, 100, 1_000_000).unwrap();
    assert_eq!(d, AddLiquidity { taken_a: 100, taken_b: 200, minted: 0 });
    assert_eq!(reserves, Reserves { a: 1100, b: 2200 });
    assert_eq!(pool.supply, 5);
    pool.supply = 10;
    reserves = Reserves { a: 1000, b: 2000 };
    let d = add_liquidity(&mut pool, &mut reserves, 100, 1_000_000, 100, 1_000_000).unwrap();
    assert_eq!(d, AddLiquidity { taken_a: 100, taken_b: 200, minted: 1 });
}

#[test]
fn withdraw_too_small_to_pay() {
    let mut pool = pool_with_fee(30);
    pool.supply = 1000;
    let mut reserves = Reserves { a: 3, b: 4 };
    assert_eq!(
        withdraw_liquidity(&mut pool, &mut reserves, 50, 1).unwrap_err(),
        AmmError::LpIsZero
    );
    assert_eq!(pool.supply, 1000);
}

#[test]
fn swap_below_minimum_fails() {
    let pool = pool_with_fee(30);
    let mut reserves = Reserves { a: 1000, b: 1000 };
    assert_eq!(swap(&pool, &mut reserves, true, 100, 92).unwrap_err(), AmmError::SlippageExceeded);
    assert_eq!(reserves, Reserves { a: 1000, b: 1000 });
}

#[test]
fn swap_at_minimum_succeeds() {
    let pool = pool_with_fee(30);
    let mut reserves = Reserves { a: 1000, b: 1000 };
    assert_eq!(swap(&pool, &mut reserves, true, 100, 91).unwrap(), 91);
    assert_eq!(reserves, Reserves { a: 1100, b: 909 });
}

#[test]
fn swap_b_for_a() {
    let pool = pool_with_fee(30);
    let mut reserves = Reserves { a: 1000, b: 1000 };
    assert_eq!(swap(&pool, &mut reserves, false, 100, 0).unwrap(), 91);
    assert_eq!(reserves, Reserves { a: 909, b: 1100 });
}

#[test]
fn swap_rounding_can_shrink_product() {
    let pool = pool_with_fee(30);
    let mut reserves = Reserves { a: 1000, b: 1000 };
    swap(&pool, &mut reserves, true, 100, 0).unwrap();
    assert!((reserves.a as u128) * (reserves.b as u128) < 1_000_000);
}

#[test]
fn swaps_with_exact_quotients_keep_product() {
    let pool = pool_with_fee(0);
    let mut reserves = Reserves { a: 1000, b: 1000 };
    assert_eq!(swap(&pool, &mut reserves, true, 1000, 0).unwrap(), 500);
    assert_eq!(reserves, Reserves { a: 2000, b: 500 });
    assert_eq!(swap(&pool, &mut reserves, false, 500, 0).unwrap(), 1000);
    assert_eq!(reserves, Reserves { a: 1000, b: 1000 });
    let fee_pool = pool_with_fee(5000);
    assert_eq!(swap(&fee_pool, &mut reserves, true, 2000, 0).unwrap(), 500);
    assert_eq!(reserves, Reserves { a: 3000, b: 500 });
    assert!((reserves.a as u128) * (reserves.b as u128) >= 1_000_000);
}

#[test]
fn swap_rejects_zero_amount() {
    let pool = pool_with_fee(30);
    let mut reserves = Reserves { a: 1000, b: 1000 };
    assert_eq!(swap(&pool, &mut reserves, true, 0, 0).unwrap_err(), AmmError::AmountIsZero);
}

#[test]
fn swap_on_empty_pool_fails() {
    let pool = pool_with_fee(30);
    let mut reserves = Reserves { a: 0, b: 0 };
    assert_eq!(swap(&pool, &mut reserves, true, 100, 0).unwrap_err(), AmmError::InvalidPoolState);
    let mut one_sided = Reserves { a: 1000, b: 0 };
    assert_eq!(
        swap(&pool, &mut one_sided, false, 100, 0).unwrap_err(),
        AmmError::InvalidPoolState
    );
    assert_eq!(one_sided, Reserves { a: 1000, b: 0 });
}

#[test]
fn swap_overflowing_reserve() {
    let pool = pool_with_fee(30);
    let mut reserves = Reserves { a: u64::MAX - 10, b: 1000 };
    assert_eq!(swap(&pool, &mut reserves, true, 11, 0).unwrap_err(), AmmError::MathOverflow);
    assert_eq!(reserves, Reserves { a: u64::MAX - 10, b: 1000 });
}
