//! A deployed vault together with the accounts that run it, and the
//! multi-step flows that set it up, fund it and distribute yield into it.
use soroban_sdk::Env;
use vstd::prelude::*;

use crate::errors::Error;
use crate::token::{balance_of, spec_mint};
use crate::vault::{
    apply_book_steps, balance_discrepancy, book_steps_fit, BookStep, deposit_fits, distribute_fits, spec_activate_vault, spec_deposit, spec_distribute_yield,
    spec_set_funding_target, spec_set_operator, zero_stats, InitParams, Vault, VaultEvent,
    VaultState, VaultView,
};

verus! {

/// Funding target a vault is deployed with: 100 units of a 6-decimal asset.
pub const DEFAULT_FUNDING_TARGET: i128 = 100_000_000;

/// Smallest deposit a vault is deployed with: 1 unit of a 6-decimal asset.
pub const DEFAULT_MIN_DEPOSIT: i128 = 1_000_000;

/// Account that holds the vault's assets.
pub const VAULT_ADDRESS: u32 = 1;

/// Account of the vault's admin.
pub const ADMIN_ADDRESS: u32 = 2;

/// Account of the operator the vault is deployed with.
pub const OPERATOR_ADDRESS: u32 = 3;

/// Account of a first investor.
pub const USER_ADDRESS: u32 = 4;

/// A deployed vault with its admin, one operator and one investor account.
pub struct TestContext {
    pub env: Env,
    pub vault: Vault,
    pub admin: u32,
    pub operator: u32,
    pub user: u32,
    pub params: InitParams,
    /// The next account id `generate_address` hands out.
    pub next_address: u32,
}

/// The parameters a vault is deployed with.
pub open spec fn default_params() -> InitParams {
    InitParams {
        funding_target: DEFAULT_FUNDING_TARGET,
        min_deposit: DEFAULT_MIN_DEPOSIT,
        max_deposit_per_user: 0,
    }
}

/// The state of a freshly deployed vault whose operator was registered at
/// ledger time `now`.
pub open spec fn deployed_view(now: u64) -> VaultView {
    VaultView {
        address: VAULT_ADDRESS,
        admin: ADMIN_ADDRESS,
        operators: Set::<u32>::empty().insert(OPERATOR_ADDRESS),
        state: VaultState::Funding,
        funding_target: DEFAULT_FUNDING_TARGET,
        min_deposit: DEFAULT_MIN_DEPOSIT,
        max_deposit_per_user: 0,
        total_supply: 0,
        total_assets: 0,
        total_principal: 0,
        total_yield_distributed: 0,
        total_yield_claimed: 0,
        current_epoch: 0,
        epoch_yield: Map::empty(),
        epoch_total_shares: Map::empty(),
        epoch_total_assets: Map::empty(),
        epoch_timestamp: Map::empty(),
        asset: Map::empty(),
        balances: Map::empty(),
        deposited: Map::empty(),
        yield_claimed: Map::empty(),
        shortfall: Map::empty(),
        last_interaction: Map::empty(),
        invested: Set::empty(),
        claimed: Set::empty(),
        epoch_activity: Map::empty(),
        lifetime: zero_stats(),
        events: Seq::empty().push(
            VaultEvent::OperatorAdded {
                caller: ADMIN_ADDRESS,
                operator: OPERATOR_ADDRESS,
                timestamp: now,
            },
        ),
    }
}

impl TestContext {
    /// The accounts and settings other than the vault are those of `other`.
    pub open spec fn same_accounts(&self, other: &TestContext) -> bool {
        &&& self.admin == other.admin
        &&& self.operator == other.operator
        &&& self.user == other.user
        &&& self.params == other.params
        &&& self.next_address == other.next_address
    }

    /// A new account id, distinct from every id handed out before and from
    /// the vault's, the admin's, the operator's and the first investor's.
    pub fn generate_address(&mut self) -> (r: u32)
        requires
            old(self).next_address < u32::MAX,
        ensures
            r == old(self).next_address,
            final(self).next_address == r + 1,
            final(self).vault == old(self).vault,
            final(self).admin == old(self).admin,
            final(self).operator == old(self).operator,
            final(self).user == old(self).user,
            final(self).params == old(self).params,
    {
        let r = self.next_address;
        self.next_address = r + 1;
        r
    }
}

/// Deploys a vault with the default parameters, registers the operator, and
/// leaves every account without funds. Investor accounts are admitted
/// without an identity check.
pub fn setup_with_kyc_bypass(env: Env) -> (ctx: TestContext)
    ensures
        exists|now: u64| ctx.vault@ == #[trigger] deployed_view(now),
        ctx.admin == ADMIN_ADDRESS,
        ctx.operator == OPERATOR_ADDRESS,
        ctx.user == USER_ADDRESS,
        ctx.params == default_params(),
        ctx.next_address == USER_ADDRESS + 1,
        forall|a: u32, e: u32| #[trigger] ctx.vault.shares_at(a, e) == 0,
        ctx.vault.wf(),
{
    let params = InitParams {
        funding_target: DEFAULT_FUNDING_TARGET,
        min_deposit: DEFAULT_MIN_DEPOSIT,
        max_deposit_per_user: 0,
    };
    let mut vault = Vault::new(params, ADMIN_ADDRESS, VAULT_ADDRESS);
    let ghost fresh = vault@;
    match vault.set_operator(&env, ADMIN_ADDRESS, OPERATOR_ADDRESS, true) {
        Ok(()) => {},
        Err(_) => {},
    }
    proof {
        let now = choose|now: u64|
            (vault@, Ok::<(), Error>(())) == #[trigger] spec_set_operator(
                fresh,
                ADMIN_ADDRESS,
                OPERATOR_ADDRESS,
                true,
                now,
            );
        assert(vault@ =~= deployed_view(now));
    }
    TestContext {
        env,
        vault,
        admin: ADMIN_ADDRESS,
        operator: OPERATOR_ADDRESS,
        user: USER_ADDRESS,
        params,
        next_address: USER_ADDRESS + 1,
    }
}

/// Lowers (or raises) the funding target to `amount` at ledger time `now`,
/// has the admin deposit exactly that, and activates the vault; stops at
/// the first step refused.
pub open spec fn spec_activate_and_fund(
    v: VaultView,
    admin: u32,
    operator: u32,
    amount: i128,
    now: u64,
) -> (VaultView, Result<(), Error>) {
    let (v1, r1) = spec_set_funding_target(v, operator, amount, now);
    match r1 {
        Err(err) => (v1, Err(err)),
        Ok(_) => {
            let v2 = VaultView { asset: spec_mint(v1.asset, admin, amount), ..v1 };
            let (v3, r3) = spec_deposit(v2, admin, amount, admin);
            match r3 {
                Err(err) => (v3, Err(err)),
                Ok(_) => spec_activate_vault(v3, operator),
            }
        },
    }
}

/// The funding target is set to `amount` by the operator, `amount` is minted
/// to the admin, who deposits it, and the operator activates the vault.
pub fn activate_and_fund(ctx: &mut TestContext, amount: i128) -> (r: Result<(), Error>)
    requires
        forall|now: u64|
            {
                let (v1, r1) = #[trigger] spec_set_funding_target(
                    old(ctx).vault@,
                    old(ctx).operator,
                    amount,
                    now,
                );
                r1 is Ok ==> {
                    let v2 = VaultView { asset: spec_mint(v1.asset, old(ctx).admin, amount), ..v1 };
                    &&& balance_of(v1.asset, old(ctx).admin) + amount <= i128::MAX
                    &&& deposit_fits(v2, old(ctx).admin, amount, old(ctx).admin)
                }
            },
    ensures
        exists|now: u64|
            (final(ctx).vault@, r) == #[trigger] spec_activate_and_fund(
                old(ctx).vault@,
                old(ctx).admin,
                old(ctx).operator,
                amount,
                now,
            ),
        final(ctx).same_accounts(old(ctx)),
{
    let operator = ctx.operator;
    let admin = ctx.admin;
    let ghost v0 = ctx.vault@;
    let set = ctx.vault.set_funding_target(&ctx.env, operator, amount);
    let ghost now = choose|now: u64|
        (ctx.vault@, set) == #[trigger] spec_set_funding_target(v0, operator, amount, now);
    match set {
        Err(err) => {
            assert(spec_activate_and_fund(v0, admin, operator, amount, now) == (ctx.vault@, set));
            return Err(err);
        },
        Ok(()) => {},
    }
    ctx.vault.mint_asset(admin, amount);
    match ctx.vault.deposit(&ctx.env, admin, amount, admin) {
        Err(err) => {
            assert(spec_activate_and_fund(v0, admin, operator, amount, now) == (
                ctx.vault@,
                Err::<(), Error>(err),
            ));
            return Err(err);
        },
        Ok(_) => {},
    }
    let r = ctx.vault.activate_vault(operator);
    assert(spec_activate_and_fund(v0, admin, operator, amount, now) == (ctx.vault@, r));
    r
}

/// `amount` is minted to `who`, who deposits it for itself; returns the
/// shares minted.
pub fn fund(ctx: &mut TestContext, who: u32, amount: i128) -> (r: Result<i128, Error>)
    requires
        amount >= 0,
        balance_of(old(ctx).vault@.asset, who) + amount <= i128::MAX,
        deposit_fits(
            VaultView { asset: spec_mint(old(ctx).vault@.asset, who, amount), ..old(ctx).vault@ },
            who,
            amount,
            who,
        ),
    ensures
        (final(ctx).vault@, r) == spec_deposit(
            VaultView { asset: spec_mint(old(ctx).vault@.asset, who, amount), ..old(ctx).vault@ },
            who,
            amount,
            who,
        ),
        final(ctx).same_accounts(old(ctx)),
{
    ctx.vault.mint_asset(who, amount);
    ctx.vault.deposit(&ctx.env, who, amount, who)
}

/// The operator lowers the funding target to zero at ledger time `now`
/// and activates the vault; stops at the first step refused.
pub open spec fn spec_activate_zero_target(v: VaultView, operator: u32, now: u64) -> (
    VaultView,
    Result<(), Error>,
) {
    let (v1, r1) = spec_set_funding_target(v, operator, 0, now);
    match r1 {
        Err(err) => (v1, Err(err)),
        Ok(_) => spec_activate_vault(v1, operator),
    }
}

/// The operator sets the funding target to zero and activates the vault;
/// once it is active the ledger clock moves one second on, so that paths
/// that depend on the time do not start at the activation instant.
pub fn activate_vault_zero_target(ctx: &mut TestContext) -> (r: Result<(), Error>)
    ensures
        exists|now: u64|
            (final(ctx).vault@, r) == #[trigger] spec_activate_zero_target(
                old(ctx).vault@,
                old(ctx).operator,
                now,
            ),
        old(ctx).vault.wf() ==> final(ctx).vault.wf(),
        final(ctx).same_accounts(old(ctx)),
{
    let operator = ctx.operator;
    let ghost v0 = ctx.vault@;
    let set = ctx.vault.set_funding_target(&ctx.env, operator, 0);
    let ghost now = choose|now: u64|
        (ctx.vault@, set) == #[trigger] spec_set_funding_target(v0, operator, 0, now);
    match set {
        Err(err) => {
            assert(spec_activate_zero_target(v0, operator, now) == (ctx.vault@, set));
            return Err(err);
        },
        Ok(()) => {},
    }
    let r = ctx.vault.activate_vault(operator);
    assert(spec_activate_zero_target(v0, operator, now) == (ctx.vault@, r));
    if r.is_ok() {
        let t = crate::vault::ledger_timestamp(&ctx.env);
        if t < u64::MAX {
            crate::vault::set_ledger_timestamp(&ctx.env, t + 1);
        }
    }
    r
}

/// `amount` is minted to `payer`, who distributes it as yield at ledger
/// time `now`.
pub open spec fn spec_mint_and_distribute(v: VaultView, payer: u32, amount: i128, now: u64) -> (
    VaultView,
    Result<u32, Error>,
) {
    spec_distribute_yield(
        VaultView { asset: spec_mint(v.asset, payer, amount), ..v },
        payer,
        amount,
        now,
    )
}

/// The operator is minted `amount` and distributes it as yield.
pub fn distribute(ctx: &mut TestContext, amount: i128) -> (r: Result<u32, Error>)
    requires
        amount >= 0,
        balance_of(old(ctx).vault@.asset, old(ctx).operator) + amount <= i128::MAX,
        distribute_fits(
            VaultView {
                asset: spec_mint(old(ctx).vault@.asset, old(ctx).operator, amount),
                ..old(ctx).vault@
            },
            old(ctx).operator,
            amount,
        ),
    ensures
        exists|now: u64|
            (final(ctx).vault@, r) == #[trigger] spec_mint_and_distribute(
                old(ctx).vault@,
                old(ctx).operator,
                amount,
                now,
            ),
        old(ctx).vault.wf() ==> final(ctx).vault.wf(),
        final(ctx).same_accounts(old(ctx)),
{
    let operator = ctx.operator;
    let ghost v0 = ctx.vault@;
    ctx.vault.mint_asset(operator, amount);
    let ghost minted = ctx.vault@;
    assert(minted == VaultView { asset: spec_mint(v0.asset, operator, amount), ..v0 });
    let r = ctx.vault.distribute_yield(&ctx.env, operator, amount);
    let ghost now = choose|now: u64|
        (ctx.vault@, r) == #[trigger] spec_distribute_yield(minted, operator, amount, now);
    assert(spec_mint_and_distribute(v0, operator, amount, now) == (ctx.vault@, r));
    r
}

/// The admin is minted `amount` and distributes it as yield; returns the
/// new epoch.
pub fn distribute_yield(ctx: &mut TestContext, amount: i128) -> (r: Result<u32, Error>)
    requires
        amount >= 0,
        balance_of(old(ctx).vault@.asset, old(ctx).admin) + amount <= i128::MAX,
        distribute_fits(
            VaultView {
                asset: spec_mint(old(ctx).vault@.asset, old(ctx).admin, amount),
                ..old(ctx).vault@
            },
            old(ctx).admin,
            amount,
        ),
    ensures
        exists|now: u64|
            (final(ctx).vault@, r) == #[trigger] spec_mint_and_distribute(
                old(ctx).vault@,
                old(ctx).admin,
                amount,
                now,
            ),
        old(ctx).vault.wf() ==> final(ctx).vault.wf(),
        final(ctx).same_accounts(old(ctx)),
{
    let admin = ctx.admin;
    let ghost v0 = ctx.vault@;
    ctx.vault.mint_asset(admin, amount);
    let ghost minted = ctx.vault@;
    assert(minted == VaultView { asset: spec_mint(v0.asset, admin, amount), ..v0 });
    let r = ctx.vault.distribute_yield(&ctx.env, admin, amount);
    let ghost now = choose|now: u64|
        (ctx.vault@, r) == #[trigger] spec_distribute_yield(minted, admin, amount, now);
    assert(spec_mint_and_distribute(v0, admin, amount, now) == (ctx.vault@, r));
    r
}

/// The operator distributes `amount` of yield out of its own balance.
pub fn dist(ctx: &mut TestContext, amount: i128) -> (r: Result<u32, Error>)
    requires
        distribute_fits(old(ctx).vault@, old(ctx).operator, amount),
    ensures
        exists|now: u64|
            (final(ctx).vault@, r) == #[trigger] spec_distribute_yield(
                old(ctx).vault@,
                old(ctx).operator,
                amount,
                now,
            ),
        old(ctx).vault.wf() ==> final(ctx).vault.wf(),
        final(ctx).same_accounts(old(ctx)),
{
    let operator = ctx.operator;
    ctx.vault.distribute_yield(&ctx.env, operator, amount)
}

/// The funding target is lowered, at ledger time `now`, to the assets held
/// when they fall short of it, then the admin activates the vault.
pub open spec fn spec_activate(v: VaultView, admin: u32, target: i128, now: u64) -> (
    VaultView,
    Result<(), Error>,
) {
    if v.total_assets < target {
        let (v1, r1) = spec_set_funding_target(v, admin, v.total_assets, now);
        match r1 {
            Err(err) => (v1, Err(err)),
            Ok(_) => spec_activate_vault(v1, admin),
        }
    } else {
        spec_activate_vault(v, admin)
    }
}

/// Activates the vault as the admin, first lowering the funding target to
/// the assets held when they fall short of the target it was deployed with.
pub fn activate(ctx: &mut TestContext) -> (r: Result<(), Error>)
    ensures
        exists|now: u64|
            (final(ctx).vault@, r) == #[trigger] spec_activate(
                old(ctx).vault@,
                old(ctx).admin,
                old(ctx).params.funding_target,
                now,
            ),
        old(ctx).vault.wf() ==> final(ctx).vault.wf(),
        final(ctx).same_accounts(old(ctx)),
{
    let admin = ctx.admin;
    let ghost v0 = ctx.vault@;
    let current = ctx.vault.total_assets();
    if current < ctx.params.funding_target {
        let set = ctx.vault.set_funding_target(&ctx.env, admin, current);
        let ghost now = choose|now: u64|
            (ctx.vault@, set) == #[trigger] spec_set_funding_target(v0, admin, current, now);
        match set {
            Err(err) => {
                assert(spec_activate(v0, admin, ctx.params.funding_target, now) == (ctx.vault@, set));
                return Err(err);
            },
            Ok(()) => {},
        }
        let r = ctx.vault.activate_vault(admin);
        assert(spec_activate(v0, admin, ctx.params.funding_target, now) == (ctx.vault@, r));
        r
    } else {
        let r = ctx.vault.activate_vault(admin);
        assert(spec_activate(v0, admin, ctx.params.funding_target, 0) == (ctx.vault@, r));
        r
    }
}

/// The deployed vault (its operator registered at ledger time `now`) after
/// the first investor deposits the default funding target, the operator
/// receives `extra_operator_budget` to distribute, and the operator
/// activates the vault.
pub open spec fn activated_view(extra_operator_budget: i128, now: u64) -> VaultView {
    let v = deployed_view(now);
    let funded = VaultView {
        asset: spec_mint(
            spec_mint(v.asset, USER_ADDRESS, DEFAULT_FUNDING_TARGET),
            OPERATOR_ADDRESS,
            extra_operator_budget,
        ),
        ..v
    };
    let (deposited, _) = spec_deposit(funded, USER_ADDRESS, DEFAULT_FUNDING_TARGET, USER_ADDRESS);
    VaultView { state: VaultState::Active, ..deposited }
}

/// A deployed vault, funded to its target by the first investor and
/// activated, with `extra_operator_budget` of the asset held by the operator.
pub fn activated_ctx(env: Env, extra_operator_budget: i128) -> (ctx: TestContext)
    requires
        extra_operator_budget >= 0,
    ensures
        exists|now: u64| ctx.vault@ == #[trigger] activated_view(extra_operator_budget, now),
        ctx.vault.wf(),
        ctx.admin == ADMIN_ADDRESS,
        ctx.operator == OPERATOR_ADDRESS,
        ctx.user == USER_ADDRESS,
        ctx.params == default_params(),
        ctx.next_address == USER_ADDRESS + 1,
{
    let mut ctx = setup_with_kyc_bypass(env);
    let ghost now = choose|now: u64| ctx.vault@ == #[trigger] deployed_view(now);
    let user = ctx.user;
    let operator = ctx.operator;
    ctx.vault.mint_asset(user, DEFAULT_FUNDING_TARGET);
    ctx.vault.mint_asset(operator, extra_operator_budget);
    proof {
        crate::math::lemma_mul_div_same_divisor(DEFAULT_FUNDING_TARGET as int, 1_000_000);
    }
    match ctx.vault.deposit(&ctx.env, user, DEFAULT_FUNDING_TARGET, user) {
        Ok(_) => {},
        Err(_) => {},
    }
    match ctx.vault.activate_vault(operator) {
        Ok(()) => {},
        Err(_) => {},
    }
    assert(ctx.vault@ == activated_view(extra_operator_budget, now));
    ctx
}

/// A freshly deployed vault starts with balanced books and keeps them
/// balanced over any sequence of steps it can take: the reconciliation
/// discrepancy stays zero.
pub proof fn lemma_deployed_books_stay_balanced(now: u64, steps: Seq<BookStep>)
    requires
        book_steps_fit(deployed_view(now), steps),
    ensures
        balance_discrepancy(apply_book_steps(deployed_view(now), steps)) == 0,
{
    crate::vault::lemma_books_stay_balanced(deployed_view(now), steps);
}

} // verus!
