//! The vault's rules and laws on concrete values: refusals, conversions,
//! claims, and the accounting they keep.

use single_rwa_vault::context::{
    activate, activate_and_fund, activate_vault_zero_target, activated_ctx, dist, distribute,
    distribute_yield, fund,
    setup_with_kyc_bypass, TestContext, ADMIN_ADDRESS, DEFAULT_FUNDING_TARGET, OPERATOR_ADDRESS,
    USER_ADDRESS, VAULT_ADDRESS,
};
use single_rwa_vault::errors::Error;
use single_rwa_vault::math::assert_nonnegative;
use single_rwa_vault::vault::{InitParams, SafePreviewDepositReason, Vault, VaultState};
use soroban_sdk::testutils::Ledger as _;
use soroban_sdk::Env;

fn setup() -> TestContext {
    setup_with_kyc_bypass(Env::default())
}

#[test]
fn error_codes_match_contract_codes() {
    assert_eq!(Error::NotKYCVerified.code(), 1);
    assert_eq!(Error::ZKMEVerifierNotSet.code(), 2);
    assert_eq!(Error::NotOperator.code(), 3);
    assert_eq!(Error::NotAdmin.code(), 4);
    assert_eq!(Error::InvalidVaultState.code(), 5);
    assert_eq!(Error::BelowMinimumDeposit.code(), 6);
    assert_eq!(Error::ExceedsMaximumDeposit.code(), 7);
    assert_eq!(Error::NotMatured.code(), 8);
    assert_eq!(Error::NoYieldToClaim.code(), 9);
    assert_eq!(Error::FundingTargetNotMet.code(), 10);
    assert_eq!(Error::VaultPaused.code(), 11);
    assert_eq!(Error::ZeroAddress.code(), 12);
    assert_eq!(Error::ZeroAmount.code(), 13);
    assert_eq!(Error::AddressBlacklisted.code(), 14);
    assert_eq!(Error::Reentrant.code(), 15);
    assert_eq!(Error::FundingTargetExceeded.code(), 16);
}

#[test]
fn assert_nonnegative_rejects_only_negatives() {
    assert_eq!(assert_nonnegative(-1), Err(Error::ZeroAmount));
    assert_eq!(assert_nonnegative(i128::MIN), Err(Error::ZeroAmount));
    assert_eq!(assert_nonnegative(0), Ok(()));
    assert_eq!(assert_nonnegative(5), Ok(()));
}

#[test]
fn setup_deploys_funding_vault_with_operator() {
    let ctx = setup();
    assert_eq!(ctx.vault.state(), VaultState::Funding);
    assert_eq!(ctx.vault.address(), VAULT_ADDRESS);
    assert_eq!(ctx.vault.admin(), ADMIN_ADDRESS);
    assert!(ctx.vault.is_operator(OPERATOR_ADDRESS));
    assert!(!ctx.vault.is_operator(USER_ADDRESS));
    assert_eq!(ctx.vault.funding_target(), DEFAULT_FUNDING_TARGET);
    assert_eq!(ctx.vault.min_deposit(), 1_000_000);
    assert_eq!(ctx.vault.max_deposit_per_user(), 0);
}

#[test]
fn deposit_refusals() {
    let mut ctx = setup();
    let user = ctx.user;
    ctx.vault.mint_asset(user, 10_000_000);
    assert_eq!(ctx.vault.deposit(&ctx.env, user, 0, user), Err(Error::ZeroAmount));
    assert_eq!(ctx.vault.deposit(&ctx.env, user, -5, user), Err(Error::ZeroAmount));
    assert_eq!(
        ctx.vault.deposit(&ctx.env, user, 999_999, user),
        Err(Error::BelowMinimumDeposit)
    );
    assert_eq!(ctx.vault.total_supply(), 0);
    assert_eq!(ctx.vault.asset.balance(user), 10_000_000);

    let mut vault = Vault::new(
        InitParams { funding_target: 0, min_deposit: 100, max_deposit_per_user: 10_000 },
        ADMIN_ADDRESS,
        VAULT_ADDRESS,
    );
    vault.mint_asset(user, 50_000);
    assert_eq!(vault.deposit(&ctx.env, user, 6_000, user), Ok(6_000));
    assert_eq!(
        vault.deposit(&ctx.env, user, 5_000, user),
        Err(Error::ExceedsMaximumDeposit)
    );
    assert_eq!(vault.deposit(&ctx.env, user, 4_000, user), Ok(4_000));
}

#[test]
fn first_deposit_mints_one_share_per_asset() {
    let mut ctx = setup();
    let user = ctx.user;
    ctx.vault.mint_asset(user, 7_500_000);
    assert_eq!(ctx.vault.deposit(&ctx.env, user, 7_500_000, user), Ok(7_500_000));
    assert_eq!(ctx.vault.balance(user), 7_500_000);
    assert_eq!(ctx.vault.total_assets(), 7_500_000);
    assert_eq!(ctx.vault.vault_asset_balance(), 7_500_000);
    assert_eq!(ctx.vault.asset.balance(user), 0);
}

#[test]
fn deposit_after_yield_mints_fewer_shares() {
    let mut ctx = activated_ctx(Env::default(), 20_000_000);
    dist(&mut ctx, 20_000_000).unwrap();
    let investor = ctx.generate_address();
    ctx.vault.mint_asset(investor, 6_000_000);
    // 6M * (100M + 1M) / (120M + 1M) = 5_008_264
    assert_eq!(ctx.vault.deposit(&ctx.env, investor, 6_000_000, investor), Ok(5_008_264));
}

#[test]
fn management_refusals() {
    let mut ctx = setup();
    let user = ctx.user;
    assert_eq!(ctx.vault.set_funding_target(&ctx.env, user, 5), Err(Error::NotOperator));
    assert_eq!(ctx.vault.set_funding_target(&ctx.env, ctx.admin, -1), Err(Error::ZeroAmount));
    assert_eq!(ctx.vault.set_min_deposit(user, 5), Err(Error::NotOperator));
    assert_eq!(ctx.vault.set_operator(&ctx.env, user, user, true), Err(Error::NotAdmin));
    assert_eq!(ctx.vault.activate_vault(user), Err(Error::NotOperator));
    assert_eq!(ctx.vault.activate_vault(ctx.operator), Err(Error::FundingTargetNotMet));
    assert_eq!(ctx.vault.distribute_yield(&ctx.env, ctx.operator, 10), Err(Error::InvalidVaultState));
    assert_eq!(ctx.vault.withdraw(&ctx.env, user, 10, user), Err(Error::InvalidVaultState));
    assert_eq!(ctx.vault.redeem(&ctx.env, user, 10, user), Err(Error::InvalidVaultState));
    assert_eq!(ctx.vault.transfer(user, ctx.admin, 0), Err(Error::ZeroAmount));

    ctx.vault.set_funding_target(&ctx.env, ctx.admin, 0).unwrap();
    ctx.vault.activate_vault(ctx.admin).unwrap();
    assert_eq!(ctx.vault.activate_vault(ctx.admin), Err(Error::InvalidVaultState));
    assert_eq!(ctx.vault.set_funding_target(&ctx.env, ctx.admin, 5), Err(Error::InvalidVaultState));
    assert_eq!(ctx.vault.distribute_yield(&ctx.env, user, 10), Err(Error::NotOperator));
    assert_eq!(ctx.vault.distribute_yield(&ctx.env, ctx.operator, 0), Err(Error::ZeroAmount));
    assert_eq!(ctx.vault.claim_yield(&ctx.env, user), Err(Error::NoYieldToClaim));

    ctx.vault.set_operator(&ctx.env, ctx.admin, ctx.operator, false).unwrap();
    assert!(!ctx.vault.is_operator(ctx.operator));
}

#[test]
fn helpers_run_their_steps() {
    let mut ctx = setup();
    activate_and_fund(&mut ctx, 2_000_000).unwrap();
    assert_eq!(ctx.vault.state(), VaultState::Active);
    assert_eq!(ctx.vault.funding_target(), 2_000_000);
    assert_eq!(ctx.vault.balance(ctx.admin), 2_000_000);

    assert_eq!(distribute_yield(&mut ctx, 40_000), Ok(1));
    assert_eq!(distribute(&mut ctx, 60_000), Ok(2));
    assert_eq!(ctx.vault.asset.balance(ctx.admin), 0);
    assert_eq!(ctx.vault.asset.balance(ctx.operator), 0);
    assert_eq!(ctx.vault.total_assets(), 2_100_000);
    assert_eq!(ctx.vault.pending_yield(&ctx.env, ctx.admin), 100_000);

    let mut other = setup();
    let user = other.user;
    other.vault.mint_asset(user, 3_000_000);
    other.vault.deposit(&other.env, user, 3_000_000, user).unwrap();
    activate(&mut other).unwrap();
    assert_eq!(other.vault.funding_target(), 3_000_000);
    assert_eq!(other.vault.state(), VaultState::Active);
}

#[test]
fn activated_ctx_is_funded_and_active() {
    let ctx = activated_ctx(Env::default(), 20_000);
    assert_eq!(ctx.vault.state(), VaultState::Active);
    assert_eq!(ctx.vault.balance(ctx.user), DEFAULT_FUNDING_TARGET);
    assert_eq!(ctx.vault.vault_asset_balance(), DEFAULT_FUNDING_TARGET);
    assert_eq!(ctx.vault.asset.balance(ctx.operator), 20_000);
}

#[test]
fn claim_pays_what_is_owed_and_clears_it() {
    let mut ctx = activated_ctx(Env::default(), 20_000);
    dist(&mut ctx, 20_000).unwrap();
    let before = ctx.vault.asset.balance(ctx.user);
    assert_eq!(ctx.vault.pending_yield_for_epoch(&ctx.env, ctx.user, 1), 20_000);
    assert_eq!(ctx.vault.claim_yield(&ctx.env, ctx.user), Ok(20_000));
    assert_eq!(ctx.vault.asset.balance(ctx.user), before + 20_000);
    assert_eq!(ctx.vault.get_yield_shortfall(ctx.user), 0);
    assert_eq!(ctx.vault.pending_yield_for_epoch(&ctx.env, ctx.user, 1), 0);
    assert_eq!(ctx.vault.claim_yield(&ctx.env, ctx.user), Err(Error::NoYieldToClaim));

    let rec = ctx.vault.get_yield_reconciliation();
    assert_eq!(rec.total_yield_distributed, 20_000);
    assert_eq!(rec.total_yield_claimed, 20_000);
    assert_eq!(rec.total_yield_unclaimed, 0);
    assert_eq!(rec.total_principal_deposited, DEFAULT_FUNDING_TARGET);
    assert_eq!(rec.vault_asset_balance, DEFAULT_FUNDING_TARGET);
    assert_eq!(rec.balance_discrepancy, 0);
}

#[test]
fn partial_claim_splits_into_payout_and_shortfall() {
    let mut ctx = activated_ctx(Env::default(), 20_000);
    dist(&mut ctx, 20_000).unwrap();
    let dummy = ctx.generate_address();
    ctx.vault.transfer_asset(VAULT_ADDRESS, dummy, DEFAULT_FUNDING_TARGET + 5_000);
    let paid = ctx.vault.claim_yield(&ctx.env, ctx.user).unwrap();
    assert_eq!(paid, 15_000);
    assert_eq!(paid + ctx.vault.get_yield_shortfall(ctx.user), 20_000);
    assert_eq!(ctx.vault.vault_asset_balance(), 0);
    assert_eq!(ctx.vault.pending_yield(&ctx.env, ctx.user), 0);
}

#[test]
fn later_deposit_does_not_change_yield_already_owed() {
    let mut ctx = activated_ctx(Env::default(), 30_000);
    dist(&mut ctx, 30_000).unwrap();
    assert_eq!(ctx.vault.pending_yield_for_epoch(&ctx.env, ctx.user, 1), 30_000);
    let newcomer = ctx.generate_address();
    ctx.vault.mint_asset(newcomer, 50_000_000);
    ctx.vault.deposit(&ctx.env, newcomer, 50_000_000, newcomer).unwrap();
    assert_eq!(ctx.vault.pending_yield_for_epoch(&ctx.env, ctx.user, 1), 30_000);
    assert_eq!(ctx.vault.pending_yield_for_epoch(&ctx.env, newcomer, 1), 0);
    assert_eq!(ctx.vault.last_interaction_epoch(newcomer), 1);
}

#[test]
fn transfer_after_epoch_keeps_yield_with_sender() {
    let mut ctx = activated_ctx(Env::default(), 10_000);
    dist(&mut ctx, 10_000).unwrap();
    let friend = ctx.generate_address();
    ctx.vault.transfer(ctx.user, friend, 40_000_000).unwrap();
    assert_eq!(ctx.vault.balance(ctx.user), 60_000_000);
    assert_eq!(ctx.vault.balance(friend), 40_000_000);
    assert_eq!(ctx.vault.pending_yield(&ctx.env, ctx.user), 10_000);
    assert_eq!(ctx.vault.pending_yield(&ctx.env, friend), 0);
}

#[test]
fn withdraw_and_redeem_round_in_the_vaults_favour() {
    let mut ctx = activated_ctx(Env::default(), 30_000_000);
    dist(&mut ctx, 30_000_000).unwrap();
    // assets 130M, supply 100M: withdrawing 1_000 burns ceil(1_000 * 101M / 131M) = 771
    assert_eq!(ctx.vault.withdraw(&ctx.env, ctx.user, 1_000, ctx.user), Ok(771));
    // redeeming 771 shares pays floor(771 * (130M - 1_000 + 1M) / (100M - 771 + 1M)) = 1_000
    assert_eq!(ctx.vault.redeem(&ctx.env, ctx.user, 771, ctx.user), Ok(1_000));
    // redeeming 770 shares pays floor(770 * (130M - 2_000 + 1M) / (100M - 1_542 + 1M)) = 998
    assert_eq!(ctx.vault.redeem(&ctx.env, ctx.user, 770, ctx.user), Ok(998));
}

#[test]
fn pro_rata_payouts_do_not_exceed_the_epoch_yield() {
    let mut ctx = setup();
    let holders = [ctx.generate_address(), ctx.generate_address(), ctx.generate_address()];
    let stakes = [33_333_333i128, 33_333_333, 33_333_334];
    for (who, stake) in holders.iter().zip(stakes.iter()) {
        ctx.vault.mint_asset(*who, *stake);
        ctx.vault.deposit(&ctx.env, *who, *stake, *who).unwrap();
    }
    ctx.vault.activate_vault(ctx.operator).unwrap();
    dist_with_budget(&mut ctx, 10_000);
    let owed: Vec<i128> = holders
        .iter()
        .map(|who| ctx.vault.pending_yield_for_epoch(&ctx.env, *who, 1))
        .collect();
    assert_eq!(owed, vec![3_333, 3_333, 3_333]);
    assert!(owed.iter().sum::<i128>() <= 10_000);
}

fn dist_with_budget(ctx: &mut TestContext, amount: i128) {
    distribute(ctx, amount).unwrap();
}

#[test]
fn funding_deposits_stop_at_the_target() {
    let env = Env::default();
    let user = USER_ADDRESS;
    let mut vault = Vault::new(
        InitParams { funding_target: 5_000, min_deposit: 0, max_deposit_per_user: 0 },
        ADMIN_ADDRESS,
        VAULT_ADDRESS,
    );
    vault.mint_asset(user, 10_000);
    assert_eq!(vault.deposit(&env, user, 4_500, user), Ok(4_500));
    assert_eq!(
        vault.safe_preview_deposit(&env, 1_000).reason,
        SafePreviewDepositReason::FundingTargetExceeded
    );
    assert_eq!(vault.deposit(&env, user, 1_000, user), Err(Error::FundingTargetExceeded));
    assert_eq!(vault.total_assets(), 4_500);
    assert_eq!(vault.balance(user), 4_500);
    assert_eq!(vault.asset.balance(user), 5_500);
    assert_eq!(vault.deposit(&env, user, 500, user), Ok(500));
    assert_eq!(vault.total_assets(), 5_000);
    vault.activate_vault(ADMIN_ADDRESS).unwrap();
    assert_eq!(vault.deposit(&env, user, 1_000, user), Ok(1_000));
    assert_eq!(vault.total_assets(), 6_000);
}

#[test]
fn fund_refuses_to_pass_the_funding_target_while_funding() {
    let mut ctx = setup();
    let alice = ctx.user;
    let bob = ctx.generate_address();
    assert_eq!(fund(&mut ctx, alice, DEFAULT_FUNDING_TARGET / 2), Ok(DEFAULT_FUNDING_TARGET / 2));
    assert_eq!(
        fund(&mut ctx, bob, DEFAULT_FUNDING_TARGET / 2 + 1),
        Err(Error::FundingTargetExceeded)
    );
    assert_eq!(ctx.vault.balance(bob), 0);
    assert_eq!(ctx.vault.total_assets(), DEFAULT_FUNDING_TARGET / 2);
    assert_eq!(ctx.vault.vault_asset_balance(), DEFAULT_FUNDING_TARGET / 2);
    assert_eq!(fund(&mut ctx, bob, DEFAULT_FUNDING_TARGET / 2), Ok(DEFAULT_FUNDING_TARGET / 2));
    assert_eq!(ctx.vault.total_assets(), DEFAULT_FUNDING_TARGET);
}

#[test]
fn zero_target_activation_activates_an_unfunded_vault() {
    let mut ctx = setup();
    ctx.env.ledger().set_timestamp(1_000);
    assert_eq!(activate_vault_zero_target(&mut ctx), Ok(()));
    assert_eq!(ctx.vault.funding_target(), 0);
    assert_eq!(ctx.vault.state(), VaultState::Active);
    assert_eq!(ctx.env.ledger().timestamp(), 1_001);
    assert_eq!(activate_vault_zero_target(&mut ctx), Err(Error::InvalidVaultState));
    assert_eq!(ctx.env.ledger().timestamp(), 1_001);
}

/// The recorded total assets are not bounded below by zero: assets sent
/// straight to the vault's address are not counted in them, yet a claim can
/// pay out of them.
#[test]
fn recorded_assets_can_fall_below_zero_after_a_direct_transfer() {
    let mut ctx = activated_ctx(Env::default(), 1_000_000_000);
    let user = ctx.user;
    let op = ctx.operator;
    let vault_address = ctx.vault.address();
    ctx.vault.distribute_yield(&ctx.env, op, 100_000_000).unwrap();
    ctx.vault.transfer_asset(op, vault_address, 900_000_000);
    let shares = ctx.vault.balance(user);
    ctx.vault.redeem(&ctx.env, user, shares, user).unwrap();
    assert_eq!(ctx.vault.claim_yield(&ctx.env, user), Ok(100_000_000));
    assert!(ctx.vault.total_assets() < 0);
}
