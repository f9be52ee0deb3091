//! Per-epoch and lifetime activity counters.

use single_rwa_vault::context::{setup_with_kyc_bypass, TestContext};
use soroban_sdk::testutils::Ledger as _;
use soroban_sdk::Env;

fn advance_time(ctx: &mut TestContext, seconds: u64) {
    let now = ctx.env.ledger().timestamp();
    ctx.env.ledger().set_timestamp(now + seconds);
}

fn mint_usdc(ctx: &mut TestContext, to: u32, amount: i128) {
    ctx.vault.mint_asset(to, amount);
}

/// Sets the funding target to 0, moves the vault to the active state, and
/// advances the ledger one second.
fn activate_vault_zero_target(ctx: &mut TestContext) {
    single_rwa_vault::context::activate_vault_zero_target(ctx).unwrap();
}

/// Distributes `amount` of yield (minted to the operator first).
fn distribute_yield(ctx: &mut TestContext, amount: i128) {
    let operator = ctx.operator;
    mint_usdc(ctx, operator, amount);
    ctx.vault.distribute_yield(&ctx.env, operator, amount).unwrap();
}

#[test]
fn test_epoch_activity_tracks_single_deposit() {
    let mut ctx = setup_with_kyc_bypass(Env::default());
    let user = ctx.user;

    mint_usdc(&mut ctx, user, 1_000_000);
    ctx.vault.deposit(&ctx.env, user, 1_000_000i128, user).unwrap();

    let act = ctx.vault.get_epoch_activity(0u32);
    assert_eq!(act.deposits_count, 1);
    assert_eq!(act.deposits_volume, 1_000_000);
    assert_eq!(act.new_investors, 1);

    let lifetime = ctx.vault.get_lifetime_activity();
    assert_eq!(lifetime.deposits_count, 1);
    assert_eq!(lifetime.deposits_volume, 1_000_000);
    assert_eq!(lifetime.new_investors, 1);
}

#[test]
fn test_epoch_activity_second_deposit_not_new_investor() {
    let mut ctx = setup_with_kyc_bypass(Env::default());
    let user = ctx.user;

    mint_usdc(&mut ctx, user, 2_000_000);
    ctx.vault.deposit(&ctx.env, user, 1_000_000i128, user).unwrap();
    ctx.vault.deposit(&ctx.env, user, 1_000_000i128, user).unwrap();

    let act = ctx.vault.get_epoch_activity(0u32);
    assert_eq!(act.deposits_count, 2);
    assert_eq!(act.deposits_volume, 2_000_000);
    assert_eq!(
        act.new_investors, 1,
        "second deposit must not count as new investor"
    );
}

#[test]
fn test_epoch_activity_new_investor_per_unique_user() {
    let mut ctx = setup_with_kyc_bypass(Env::default());
    let user = ctx.user;
    let user2 = ctx.generate_address();

    mint_usdc(&mut ctx, user, 1_000_000);
    mint_usdc(&mut ctx, user2, 1_000_000);
    ctx.vault.deposit(&ctx.env, user, 1_000_000i128, user).unwrap();
    ctx.vault.deposit(&ctx.env, user2, 1_000_000i128, user2).unwrap();

    let act = ctx.vault.get_epoch_activity(0u32);
    assert_eq!(act.deposits_count, 2);
    assert_eq!(
        act.new_investors, 2,
        "each first-time depositor is a new investor"
    );
}

#[test]
fn test_epoch_activity_tracks_yield_claim() {
    let mut ctx = setup_with_kyc_bypass(Env::default());
    let user = ctx.user;

    mint_usdc(&mut ctx, user, 1_000_000);
    ctx.vault.deposit(&ctx.env, user, 1_000_000i128, user).unwrap();
    activate_vault_zero_target(&mut ctx);

    distribute_yield(&mut ctx, 100_000);
    advance_time(&mut ctx, 1);

    let claimed = ctx.vault.claim_yield(&ctx.env, user).unwrap();
    assert!(claimed > 0);

    let epoch = ctx.vault.current_epoch();
    let act = ctx.vault.get_epoch_activity(epoch);
    assert_eq!(act.yield_claims_count, 1);
    assert_eq!(act.yield_claims_volume, claimed);

    let lifetime = ctx.vault.get_lifetime_activity();
    assert_eq!(lifetime.yield_claims_count, 1);
    assert_eq!(lifetime.yield_claims_volume, claimed);
}

#[test]
fn test_lifetime_activity_accumulates_across_epochs() {
    let mut ctx = setup_with_kyc_bypass(Env::default());
    let user = ctx.user;

    mint_usdc(&mut ctx, user, 1_000_000);
    ctx.vault.deposit(&ctx.env, user, 1_000_000i128, user).unwrap();
    activate_vault_zero_target(&mut ctx);

    distribute_yield(&mut ctx, 50_000);
    advance_time(&mut ctx, 1);
    let claimed1 = ctx.vault.claim_yield(&ctx.env, user).unwrap();

    distribute_yield(&mut ctx, 50_000);
    advance_time(&mut ctx, 1);
    let claimed2 = ctx.vault.claim_yield(&ctx.env, user).unwrap();

    let lifetime = ctx.vault.get_lifetime_activity();
    assert_eq!(lifetime.deposits_count, 1);
    assert_eq!(lifetime.deposits_volume, 1_000_000);
    assert_eq!(lifetime.yield_claims_count, 2);
    assert_eq!(lifetime.yield_claims_volume, claimed1 + claimed2);
}

#[test]
fn test_get_epoch_activity_returns_zero_for_inactive_epoch() {
    let ctx = setup_with_kyc_bypass(Env::default());

    let act = ctx.vault.get_epoch_activity(99u32);
    assert_eq!(act.deposits_count, 0);
    assert_eq!(act.deposits_volume, 0);
    assert_eq!(act.withdrawals_count, 0);
    assert_eq!(act.yield_claims_count, 0);
    assert_eq!(act.new_investors, 0);
}

#[test]
fn test_get_lifetime_activity_returns_zero_before_any_ops() {
    let ctx = setup_with_kyc_bypass(Env::default());

    let act = ctx.vault.get_lifetime_activity();
    assert_eq!(act.deposits_count, 0);
    assert_eq!(act.withdrawals_count, 0);
    assert_eq!(act.transfers_count, 0);
    assert_eq!(act.yield_claims_count, 0);
    assert_eq!(act.redemptions_count, 0);
}

#[test]
fn test_last_interaction_epoch_getter_defaults_and_updates() {
    let mut ctx = setup_with_kyc_bypass(Env::default());
    let user = ctx.user;

    assert_eq!(ctx.vault.last_interaction_epoch(user), 0);

    mint_usdc(&mut ctx, user, 1_000_000);
    ctx.vault.deposit(&ctx.env, user, 1_000_000i128, user).unwrap();

    assert_eq!(
        ctx.vault.last_interaction_epoch(user),
        ctx.vault.current_epoch()
    );
}

#[test]
fn test_epoch_activity_tracks_partial_withdrawal() {
    let mut ctx = setup_with_kyc_bypass(Env::default());
    let user = ctx.user;

    mint_usdc(&mut ctx, user, 2_000_000);
    ctx.vault.deposit(&ctx.env, user, 2_000_000i128, user).unwrap();
    activate_vault_zero_target(&mut ctx);

    ctx.vault.withdraw(&ctx.env, user, 1_000_000i128, user).unwrap();

    let act = ctx.vault.get_epoch_activity(0u32);
    assert_eq!(act.withdrawals_count, 1);
    assert_eq!(act.withdrawals_volume, 1_000_000);
    assert_eq!(
        act.exiting_investors, 0,
        "partial withdrawal is not an exit"
    );
}

#[test]
fn test_epoch_activity_exiting_investor_on_full_redeem() {
    let mut ctx = setup_with_kyc_bypass(Env::default());
    let user = ctx.user;

    mint_usdc(&mut ctx, user, 1_000_000);
    ctx.vault.deposit(&ctx.env, user, 1_000_000i128, user).unwrap();
    activate_vault_zero_target(&mut ctx);

    let shares = ctx.vault.balance(user);
    ctx.vault.redeem(&ctx.env, user, shares, user).unwrap();

    let act = ctx.vault.get_epoch_activity(0u32);
    assert_eq!(act.withdrawals_count, 1);
    assert_eq!(
        act.exiting_investors, 1,
        "full redemption must count as exiting investor"
    );
}

#[test]
fn test_epoch_activity_tracks_transfer() {
    let mut ctx = setup_with_kyc_bypass(Env::default());
    let user = ctx.user;
    let recipient = ctx.generate_address();

    mint_usdc(&mut ctx, user, 2_000_000);
    ctx.vault.deposit(&ctx.env, user, 2_000_000i128, user).unwrap();

    ctx.vault.transfer(user, recipient, 1_000_000i128).unwrap();

    let act = ctx.vault.get_epoch_activity(0u32);
    assert_eq!(act.transfers_count, 1);
    assert_eq!(act.transfers_volume, 1_000_000);
}
