//! Epoch yield and total-share records: round trips, defaults, independence,
//! and the distribution and claim flows that read them.

use single_rwa_vault::context::{activate_and_fund, distribute, setup_with_kyc_bypass, TestContext};
use single_rwa_vault::storage::{
    get_epoch_total_assets, get_epoch_total_shares, get_epoch_yield, put_current_epoch, put_epoch_total_shares,
    put_epoch_yield,
};
use soroban_sdk::testutils::Ledger as _;
use soroban_sdk::Env;

fn advance_time(ctx: &mut TestContext, seconds: u64) {
    let now = ctx.env.ledger().timestamp();
    ctx.env.ledger().set_timestamp(now + seconds);
}

fn setup() -> TestContext {
    setup_with_kyc_bypass(Env::default())
}

#[test]
fn test_epoch_yield_persistent_write_and_read_round_trip() {
    let mut ctx = setup();
    let epoch = 5u32;
    let yield_amount = 100_000i128;

    put_epoch_yield(&mut ctx.vault.storage, epoch, yield_amount);

    let retrieved = get_epoch_yield(&ctx.vault.storage, epoch);
    assert_eq!(retrieved, yield_amount);
}

#[test]
fn test_epoch_total_shares_persistent_write_and_read_round_trip() {
    let mut ctx = setup();
    let epoch = 7u32;
    let total_shares = 500_000i128;

    put_epoch_total_shares(&mut ctx.vault.storage, epoch, total_shares);

    let retrieved = get_epoch_total_shares(&ctx.vault.storage, epoch);
    assert_eq!(retrieved, total_shares);
}

#[test]
fn test_missing_epoch_yield_returns_zero() {
    let ctx = setup();
    let epoch = 999u32;
    let retrieved = get_epoch_yield(&ctx.vault.storage, epoch);
    assert_eq!(retrieved, 0);
}

#[test]
fn test_missing_epoch_total_shares_returns_zero() {
    let ctx = setup();
    let epoch = 888u32;
    let retrieved = get_epoch_total_shares(&ctx.vault.storage, epoch);
    assert_eq!(retrieved, 0);
}

#[test]
fn test_multiple_epoch_entries_are_independent() {
    let mut ctx = setup();
    let storage = &mut ctx.vault.storage;

    put_epoch_yield(storage, 1, 10_000);
    put_epoch_yield(storage, 2, 20_000);
    put_epoch_yield(storage, 3, 30_000);

    put_epoch_total_shares(storage, 1, 100_000);
    put_epoch_total_shares(storage, 2, 200_000);
    put_epoch_total_shares(storage, 3, 300_000);

    assert_eq!(get_epoch_yield(storage, 1), 10_000);
    assert_eq!(get_epoch_yield(storage, 2), 20_000);
    assert_eq!(get_epoch_yield(storage, 3), 30_000);

    assert_eq!(get_epoch_total_shares(storage, 1), 100_000);
    assert_eq!(get_epoch_total_shares(storage, 2), 200_000);
    assert_eq!(get_epoch_total_shares(storage, 3), 300_000);
}

/// Epoch records live in the library's in-memory epoch storage, which
/// never expires: this checks that a record written is still read back a
/// month of ledger time later, not the host's storage time-to-live.
#[test]
fn test_epoch_yield_ttl_is_set_on_write() {
    let mut ctx = setup();
    let epoch = 10u32;
    let yield_amount = 50_000i128;

    put_epoch_yield(&mut ctx.vault.storage, epoch, yield_amount);

    advance_time(&mut ctx, 86400 * 30);

    let retrieved = get_epoch_yield(&ctx.vault.storage, epoch);
    assert_eq!(retrieved, yield_amount);
}

/// Epoch records live in the library's in-memory epoch storage, which
/// never expires: this checks that a record written is still read back a
/// month of ledger time later, not the host's storage time-to-live.
#[test]
fn test_epoch_total_shares_ttl_is_set_on_write() {
    let mut ctx = setup();
    let epoch = 12u32;
    let total_shares = 750_000i128;

    put_epoch_total_shares(&mut ctx.vault.storage, epoch, total_shares);

    advance_time(&mut ctx, 86400 * 30);

    let retrieved = get_epoch_total_shares(&ctx.vault.storage, epoch);
    assert_eq!(retrieved, total_shares);
}

#[test]
fn test_distribute_yield_behaviour_unchanged() {
    let mut ctx = setup();

    activate_and_fund(&mut ctx, 1_000_000).unwrap();

    let yield_amount = 50_000i128;
    distribute(&mut ctx, yield_amount).unwrap();

    let current_epoch = ctx.vault.current_epoch();
    assert_eq!(current_epoch, 1);

    let stored_yield = ctx.vault.epoch_yield(current_epoch);
    let stored_shares = get_epoch_total_shares(&ctx.vault.storage, current_epoch);

    assert_eq!(stored_yield, yield_amount);
    assert_eq!(stored_shares, 1_000_000);
}

#[test]
fn test_pending_yield_for_epoch_behaviour_unchanged() {
    let mut ctx = setup();

    activate_and_fund(&mut ctx, 1_000_000).unwrap();
    distribute(&mut ctx, 100_000).unwrap();

    let pending = ctx.vault.pending_yield_for_epoch(&ctx.env, ctx.admin, 1);
    assert_eq!(pending, 100_000);
}

#[test]
fn test_full_claim_flow_with_persistent_epoch_data() {
    let mut ctx = setup();

    activate_and_fund(&mut ctx, 1_000_000).unwrap();
    distribute(&mut ctx, 50_000).unwrap();
    advance_time(&mut ctx, 100);

    let claimed = ctx.vault.claim_yield(&ctx.env, ctx.admin).unwrap();
    assert_eq!(claimed, 50_000);

    let pending = ctx.vault.pending_yield(&ctx.env, ctx.admin);
    assert_eq!(pending, 0);
}

#[test]
fn test_multiple_epochs_claim_correctly() {
    let mut ctx = setup();

    activate_and_fund(&mut ctx, 1_000_000).unwrap();

    distribute(&mut ctx, 10_000).unwrap();
    advance_time(&mut ctx, 100);
    distribute(&mut ctx, 20_000).unwrap();
    advance_time(&mut ctx, 100);
    distribute(&mut ctx, 30_000).unwrap();
    advance_time(&mut ctx, 100);

    let pending = ctx.vault.pending_yield(&ctx.env, ctx.admin);
    assert_eq!(pending, 60_000);

    let claimed = ctx.vault.claim_yield(&ctx.env, ctx.admin).unwrap();
    assert_eq!(claimed, 60_000);
}

#[test]
fn test_zero_value_epoch_data_does_not_revert() {
    let mut ctx = setup();

    put_current_epoch(&mut ctx.vault.storage, 1);
    put_epoch_yield(&mut ctx.vault.storage, 1, 0);
    put_epoch_total_shares(&mut ctx.vault.storage, 1, 0);

    let pending = ctx.vault.pending_yield_for_epoch(&ctx.env, ctx.admin, 1);
    assert_eq!(pending, 0);
}

#[test]
fn test_price_per_share_history_with_persistent_storage() {
    let mut ctx = setup();

    activate_and_fund(&mut ctx, 1_000_000).unwrap();

    distribute(&mut ctx, 100_000).unwrap();

    let price = ctx.vault.price_per_share_history(&ctx.env, 1);

    assert!(price >= 0);
}

#[test]
fn price_per_share_history_reflects_epoch_totals() {
    let mut ctx = setup();
    activate_and_fund(&mut ctx, 1_000_000).unwrap();
    distribute(&mut ctx, 100_000).unwrap();
    // (1_100_000 + 1_000_000) * 1_000_000 / (1_000_000 + 1_000_000)
    assert_eq!(ctx.vault.price_per_share_history(&ctx.env, 1), 1_050_000);
    // An epoch with nothing recorded prices one share at par.
    assert_eq!(ctx.vault.price_per_share_history(&ctx.env, 7), 1_000_000);
    assert_eq!(get_epoch_total_assets(&ctx.vault.storage, 1), 1_100_000);
}

#[test]
fn test_get_epoch_data_with_persistent_storage() {
    let mut ctx = setup();

    activate_and_fund(&mut ctx, 1_000_000).unwrap();
    distribute(&mut ctx, 50_000).unwrap();

    let epoch_data = ctx.vault.get_epoch_data(1);
    assert_eq!(epoch_data.yield_amount, 50_000);
    assert_eq!(epoch_data.total_shares, 1_000_000);
}

#[test]
fn test_multiple_users_share_epoch_yield_correctly() {
    let mut ctx = setup();
    let user2 = ctx.generate_address();

    ctx.vault.set_funding_target(&ctx.env, ctx.operator, 10_000_000).unwrap();
    ctx.vault.set_min_deposit(ctx.operator, 100_000).unwrap();

    ctx.vault.mint_asset(ctx.admin, 6_000_000);
    ctx.vault.deposit(&ctx.env, ctx.admin, 6_000_000, ctx.admin).unwrap();

    ctx.vault.mint_asset(user2, 4_000_000);
    ctx.vault.deposit(&ctx.env, user2, 4_000_000, user2).unwrap();

    ctx.vault.activate_vault(ctx.operator).unwrap();

    distribute(&mut ctx, 1_000_000).unwrap();

    advance_time(&mut ctx, 100);

    let admin_pending = ctx.vault.pending_yield(&ctx.env, ctx.admin);
    assert_eq!(admin_pending, 600_000);

    let user2_pending = ctx.vault.pending_yield(&ctx.env, user2);
    assert_eq!(user2_pending, 400_000);
}

#[test]
fn test_migration_gap_documented() {
    let ctx = setup();

    let missing_epoch = 42u32;
    let yield_amount = get_epoch_yield(&ctx.vault.storage, missing_epoch);
    let total_shares = get_epoch_total_shares(&ctx.vault.storage, missing_epoch);

    assert_eq!(yield_amount, 0);
    assert_eq!(total_shares, 0);
}

#[test]
fn test_epoch_data_write_does_not_affect_other_epochs() {
    let mut ctx = setup();
    let storage = &mut ctx.vault.storage;

    put_epoch_yield(storage, 1, 10_000);
    put_epoch_yield(storage, 2, 20_000);

    put_epoch_yield(storage, 1, 15_000);

    let epoch2_yield = get_epoch_yield(storage, 2);
    assert_eq!(epoch2_yield, 20_000);

    let epoch1_yield = get_epoch_yield(storage, 1);
    assert_eq!(epoch1_yield, 15_000);
}

#[test]
fn test_large_number_of_epochs_does_not_affect_instance_storage() {
    let mut ctx = setup();
    let storage = &mut ctx.vault.storage;

    for epoch in 1..=100u32 {
        put_epoch_yield(storage, epoch, epoch as i128 * 1000);
        put_epoch_total_shares(storage, epoch, epoch as i128 * 10000);
    }

    for epoch in 1..=100u32 {
        assert_eq!(get_epoch_yield(storage, epoch), epoch as i128 * 1000);
        assert_eq!(get_epoch_total_shares(storage, epoch), epoch as i128 * 10000);
    }
}

#[test]
fn epoch_data_records_the_ledger_time_of_each_distribution() {
    let mut ctx = setup_with_kyc_bypass(Env::default());
    activate_and_fund(&mut ctx, 1_000_000).unwrap();
    ctx.env.ledger().set_timestamp(1_000);
    distribute(&mut ctx, 50_000).unwrap();
    advance_time(&mut ctx, 86400);
    distribute(&mut ctx, 20_000).unwrap();

    assert_eq!(ctx.vault.get_epoch_data(1).timestamp, 1_000);
    assert_eq!(ctx.vault.get_epoch_data(2).timestamp, 1_000 + 86400);
    assert_eq!(ctx.vault.get_epoch_data(3).timestamp, 0);
}
