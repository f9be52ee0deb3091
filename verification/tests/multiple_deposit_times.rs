//! Deposits at different share prices and the yield each earns.

use single_rwa_vault::context::setup_with_kyc_bypass;
use soroban_sdk::Env;

#[test]
fn test_multiple_deposit_times() {
    let mut ctx = setup_with_kyc_bypass(Env::default());

    let user_a = ctx.generate_address();
    let user_b = ctx.generate_address();

    ctx.vault.set_funding_target(&ctx.env, ctx.admin, 1_000_000i128).unwrap();

    // User A deposits early (1:1 price)
    ctx.vault.mint_asset(user_a, 1_000_000);
    ctx.vault.deposit(&ctx.env, user_a, 1_000_000i128, user_a).unwrap();

    assert_eq!(ctx.vault.balance(user_a), 1_000_000);

    // Activate and distribute yield (100% yield)
    ctx.vault.activate_vault(ctx.operator).unwrap();
    ctx.vault.mint_asset(ctx.operator, 1_000_000);
    ctx.vault.distribute_yield(&ctx.env, ctx.operator, 1_000_000i128).unwrap();

    // User B deposits later: 1M * (1M + 1M) / (2M + 1M) = 666,666
    ctx.vault.mint_asset(user_b, 1_000_000);
    ctx.vault.deposit(&ctx.env, user_b, 1_000_000i128, user_b).unwrap();

    assert_eq!(ctx.vault.balance(user_b), 666_666);

    ctx.vault.mint_asset(ctx.operator, 1_500_000);
    ctx.vault.distribute_yield(&ctx.env, ctx.operator, 1_500_000i128).unwrap();

    // A: epoch 1 gives 1M, epoch 2 gives 1M * 1.5M / 1,666,666 = 900,000
    assert_eq!(ctx.vault.pending_yield(&ctx.env, user_a), 1_900_000);

    // B: epoch 2 only, 666,666 * 1.5M / 1,666,666 = 599,999
    assert_eq!(ctx.vault.pending_yield(&ctx.env, user_b), 599_999);

    assert_eq!(ctx.vault.balance(user_a), 1_000_000);
    assert_eq!(ctx.vault.balance(user_b), 666_666);
}
