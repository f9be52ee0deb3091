//! Deposits, withdrawals, yield distributions and management changes
//! announce what they did.

use single_rwa_vault::context::{
    activate, distribute_yield, setup_with_kyc_bypass, TestContext, ADMIN_ADDRESS, OPERATOR_ADDRESS,
};
use single_rwa_vault::vault::VaultEvent;
use soroban_sdk::testutils::Ledger as _;
use soroban_sdk::Env;

/// Mints `assets` to `user` and deposits them, returning the shares minted.
fn deposit(ctx: &mut TestContext, user: u32, assets: i128) -> i128 {
    ctx.vault.mint_asset(user, assets);
    ctx.vault.deposit(&ctx.env, user, assets, user).unwrap()
}

#[test]
fn test_deposit_emits_event_with_correct_schema() {
    let mut ctx = setup_with_kyc_bypass(Env::default());
    let deposit_amount = 5_000_000i128;
    let user = ctx.user;

    let shares = deposit(&mut ctx, user, deposit_amount);

    let deposit_event = ctx.vault.events().iter().find_map(|event| match event {
        VaultEvent::Deposit { caller, receiver, assets, shares } => {
            Some((*caller, *receiver, *assets, *shares))
        }
        _ => None,
    });
    let (topic_caller, topic_receiver, event_assets, event_shares) =
        deposit_event.expect("deposit event must be emitted");

    assert_eq!(topic_caller, ctx.user, "deposit event: caller topic must match depositor");
    assert_eq!(topic_receiver, ctx.user, "deposit event: receiver topic must match depositor");
    assert_eq!(
        event_assets, deposit_amount,
        "deposit event: assets data must match deposit amount"
    );
    assert_eq!(event_shares, shares, "deposit event: shares data must match minted shares");
}

#[test]
fn test_withdraw_emits_event_with_correct_schema() {
    let mut ctx = setup_with_kyc_bypass(Env::default());
    let deposit_amount = 10_000_000i128;
    let withdraw_amount = 4_000_000i128;
    let user = ctx.user;

    deposit(&mut ctx, user, deposit_amount);
    activate(&mut ctx).unwrap();

    let shares_burned = ctx.vault.withdraw(&ctx.env, user, withdraw_amount, user).unwrap();

    let withdraw_event = ctx.vault.events().iter().find_map(|event| match event {
        VaultEvent::Withdraw { caller, receiver, owner, assets, shares } => {
            Some((*caller, *receiver, *owner, *assets, *shares))
        }
        _ => None,
    });
    let (topic_caller, topic_receiver, topic_owner, event_assets, event_shares) =
        withdraw_event.expect("withdraw event must be emitted");

    assert_eq!(topic_caller, ctx.user, "withdraw event: caller topic must match");
    assert_eq!(topic_receiver, ctx.user, "withdraw event: receiver topic must match");
    assert_eq!(topic_owner, ctx.user, "withdraw event: owner topic must match");
    assert_eq!(
        event_assets, withdraw_amount,
        "withdraw event: assets data must match withdrawn amount"
    );
    assert_eq!(
        event_shares, shares_burned,
        "withdraw event: shares data must match burned shares"
    );
}

#[test]
fn test_distribute_yield_emits_event_with_correct_schema() {
    let mut ctx = setup_with_kyc_bypass(Env::default());
    let deposit_amount = 10_000_000i128;
    let yield_amount = 500_000i128;
    let user = ctx.user;

    deposit(&mut ctx, user, deposit_amount);
    activate(&mut ctx).unwrap();

    let epoch = distribute_yield(&mut ctx, yield_amount).unwrap();

    let yield_event = ctx.vault.events().iter().find_map(|event| match event {
        VaultEvent::YieldDistributed { epoch, amount, .. } => Some((*epoch, *amount)),
        _ => None,
    });
    let (topic_epoch, event_amount) =
        yield_event.expect("yield_distributed event must be emitted");

    assert_eq!(
        topic_epoch, epoch,
        "yield_distributed event: epoch topic must match returned epoch"
    );
    assert_eq!(
        event_amount, yield_amount,
        "yield_distributed event: amount data must match distributed yield"
    );
}

#[test]
fn test_set_funding_target_emits_event_with_caller_and_timestamp() {
    let mut ctx = setup_with_kyc_bypass(Env::default());
    let target = 42_000_000i128;

    ctx.vault.set_funding_target(&ctx.env, ctx.admin, target).unwrap();

    let funding_event = ctx.vault.events().iter().rev().find_map(|event| match event {
        VaultEvent::FundingTargetSet { caller, target, timestamp } => {
            Some((*caller, *target, *timestamp))
        }
        _ => None,
    });
    let (topic_caller, event_target, event_ts) =
        funding_event.expect("funding target event must be emitted");

    assert_eq!(topic_caller, ctx.admin);
    assert_eq!(event_target, target);
    assert_eq!(event_ts, ctx.env.ledger().timestamp());
}

#[test]
fn test_set_operator_true_emits_operator_added_event() {
    let mut ctx = setup_with_kyc_bypass(Env::default());
    let new_operator = ctx.generate_address();

    ctx.vault.set_operator(&ctx.env, ctx.admin, new_operator, true).unwrap();

    let op_add_event = ctx.vault.events().iter().rev().find_map(|event| match event {
        VaultEvent::OperatorAdded { caller, operator, timestamp } => {
            Some((*caller, *operator, *timestamp))
        }
        _ => None,
    });
    let (topic_caller, topic_operator, event_ts) =
        op_add_event.expect("operator-added event must be emitted");

    assert_eq!(topic_caller, ctx.admin);
    assert_eq!(topic_operator, new_operator);
    assert_eq!(event_ts, ctx.env.ledger().timestamp());
}

#[test]
fn management_events_carry_the_ledger_time_of_the_change() {
    let mut ctx = setup_with_kyc_bypass(Env::default());
    ctx.env.ledger().set_timestamp(1_700_000_000);
    let new_operator = ctx.generate_address();

    ctx.vault.set_operator(&ctx.env, ctx.admin, new_operator, true).unwrap();
    ctx.env.ledger().set_timestamp(1_700_000_060);
    ctx.vault.set_funding_target(&ctx.env, ctx.operator, 7_000_000).unwrap();
    ctx.vault.set_operator(&ctx.env, ctx.admin, new_operator, false).unwrap();

    let events = ctx.vault.events();
    let n = events.len();
    assert_eq!(
        events[n - 2],
        VaultEvent::OperatorAdded {
            caller: ctx.admin,
            operator: new_operator,
            timestamp: 1_700_000_000,
        }
    );
    assert_eq!(
        events[n - 1],
        VaultEvent::FundingTargetSet {
            caller: ctx.operator,
            target: 7_000_000,
            timestamp: 1_700_000_060,
        }
    );
}

#[test]
fn events_are_recorded_in_order() {
    let mut ctx = setup_with_kyc_bypass(Env::default());
    let user = ctx.user;
    let now = ctx.env.ledger().timestamp();
    deposit(&mut ctx, user, 2_000_000);
    activate(&mut ctx).unwrap();
    distribute_yield(&mut ctx, 1_000).unwrap();
    assert_eq!(
        ctx.vault.events(),
        &vec![
            VaultEvent::OperatorAdded {
                caller: ADMIN_ADDRESS,
                operator: OPERATOR_ADDRESS,
                timestamp: now,
            },
            VaultEvent::Deposit { caller: user, receiver: user, assets: 2_000_000, shares: 2_000_000 },
            VaultEvent::FundingTargetSet { caller: ADMIN_ADDRESS, target: 2_000_000, timestamp: now },
            VaultEvent::YieldDistributed { epoch: 1, amount: 1_000, timestamp: now },
        ]
    );
}

#[test]
fn distribution_event_carries_the_ledger_time() {
    let mut ctx = setup_with_kyc_bypass(Env::default());
    let user = ctx.user;
    deposit(&mut ctx, user, 3_000_000);
    activate(&mut ctx).unwrap();
    ctx.env.ledger().set_timestamp(1_800_000_000);

    let epoch = distribute_yield(&mut ctx, 4_000).unwrap();

    assert_eq!(
        ctx.vault.events().last(),
        Some(&VaultEvent::YieldDistributed { epoch, amount: 4_000, timestamp: 1_800_000_000 })
    );
}
