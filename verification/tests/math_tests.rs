use single_rwa_vault::math::{mul_div, mul_div_ceil};
use soroban_sdk::Env;

#[test]
fn mul_div_floors_positive_quotients() {
    let env = Env::default();
    assert_eq!(mul_div(&env, 1_000_000, 2_000_000, 3_000_000), 666_666);
    assert_eq!(mul_div(&env, -7, 1, 2), -3);
    assert_eq!(mul_div(&env, i128::MAX, i128::MAX, i128::MAX), i128::MAX);
}

#[test]
fn mul_div_ceil_rounds_up() {
    let env = Env::default();
    assert_eq!(mul_div_ceil(&env, 1_000_000, 2_000_000, 3_000_000), 666_667);
    assert_eq!(mul_div_ceil(&env, 6, 1, 3), 2);
}

#[test]
fn mul_div_truncates_toward_zero_for_negative_operands() {
    let env = Env::default();
    assert_eq!(mul_div(&env, 7, 1, -2), -3);
    assert_eq!(mul_div(&env, -7, -1, 2), 3);
    assert_eq!(mul_div(&env, 0, 5, 3), 0);
}

#[test]
fn mul_div_keeps_intermediate_product_wide() {
    let env = Env::default();
    // 2^100 * 2^100 / 2^90 = 2^110, though the product needs 201 bits.
    let x: i128 = 1 << 100;
    assert_eq!(mul_div(&env, x, x, 1 << 90), 1 << 110);
    assert_eq!(mul_div_ceil(&env, x, x, (1 << 90) + 1) - mul_div(&env, x, x, (1 << 90) + 1), 1);
}

#[test]
fn mul_div_ceil_matches_floor_on_exact_division() {
    let env = Env::default();
    assert_eq!(mul_div_ceil(&env, 6_000, 1_000_000, 1_000_000), 6_000);
    assert_eq!(mul_div(&env, 6_000, 1_000_000, 1_000_000), 6_000);
    assert_eq!(mul_div_ceil(&env, 0, 9, 4), 0);
}

#[test]
fn pro_rata_payouts_lose_under_one_unit_per_holder() {
    let env = Env::default();
    // Seven equal holders of a distribution of 10 000 over 7 shares.
    let paid: i128 = (0..7).map(|_| mul_div(&env, 1, 10_000, 7)).sum();
    assert_eq!(paid, 9_996);
    assert!(10_000 - paid < 7);
    // Uneven holdings 1, 2, 4 of 7 sharing 100.
    let paid: i128 = [1i128, 2, 4].iter().map(|s| mul_div(&env, *s, 100, 7)).sum();
    assert_eq!(paid, 14 + 28 + 57);
    assert!(100 - paid < 3);
}
