//! The vault: deposits mint shares against the assets held, the operator
//! distributes yield in numbered epochs, and each holder claims the yield of
//! every epoch in proportion to the shares held when it was distributed.
use std::collections::HashMap;
use std::collections::HashSet;
use soroban_sdk::Env;
use vstd::prelude::*;

use crate::errors::Error;
use crate::math::{in_i128, mul_div, spec_mul_div};
use crate::storage::{
    get_epoch_total_shares, get_epoch_yield, put_current_epoch, put_epoch_total_shares,
    put_epoch_yield, timestamp_or_zero, value_or_zero, EpochStorage,
};
use crate::token::{balance_of, spec_mint, spec_transfer, TokenLedger};

verus! {

broadcast use vstd::std_specs::hash::group_hash_axioms;

/// Virtual shares and virtual assets added to both sides of every
/// conversion, so that the first depositor gets shares 1:1 and donations
/// cannot skew the exchange rate of small deposits.
pub const VIRTUAL_OFFSET: i128 = 1_000_000;

/// Lifecycle state of the vault.
#[derive(Clone, Copy, Debug, PartialEq, Eq, Structural)]
pub enum VaultState {
    /// Collecting deposits until the funding target is met.
    Funding,
    /// Deployed: yield is distributed and claimed.
    Active,
}

/// Counters of what happened in the vault, per epoch or over its lifetime.
#[derive(Clone, Copy, Debug, PartialEq, Eq, Structural)]
pub struct ActivityStats {
    pub deposits_count: u32,
    pub deposits_volume: i128,
    pub withdrawals_count: u32,
    pub withdrawals_volume: i128,
    pub transfers_count: u32,
    pub transfers_volume: i128,
    pub yield_claims_count: u32,
    pub yield_claims_volume: i128,
    pub redemptions_count: u32,
    pub new_investors: u32,
    pub exiting_investors: u32,
}

/// What the vault announces when its state changes; published as contract
/// events.
#[derive(Clone, Copy, Debug, PartialEq, Eq, Structural)]
pub enum VaultEvent {
    /// `caller` paid in `assets` and `receiver` was minted `shares`.
    Deposit { caller: u32, receiver: u32, assets: i128, shares: i128 },
    /// `owner`'s `shares` were burned and `receiver` was paid `assets`.
    Withdraw { caller: u32, receiver: u32, owner: u32, assets: i128, shares: i128 },
    /// Epoch `epoch` was opened with `amount` of yield, at ledger time `timestamp`.
    YieldDistributed { epoch: u32, amount: i128, timestamp: u64 },
    /// A claim by `user` paid `paid` and left `shortfall` unpaid.
    PartialYieldClaim { user: u32, paid: i128, shortfall: i128 },
    /// `amount` of `user`'s shortfall was paid.
    YieldShortfallResolved { user: u32, amount: i128 },
    /// `caller` made `operator` an operator, at ledger time `timestamp`.
    OperatorAdded { caller: u32, operator: u32, timestamp: u64 },
    /// `caller` set the funding target to `target`, at ledger time `timestamp`.
    FundingTargetSet { caller: u32, target: i128, timestamp: u64 },
}

/// Activity with every counter at zero.
pub open spec fn zero_stats() -> ActivityStats {
    ActivityStats {
        deposits_count: 0,
        deposits_volume: 0,
        withdrawals_count: 0,
        withdrawals_volume: 0,
        transfers_count: 0,
        transfers_volume: 0,
        yield_claims_count: 0,
        yield_claims_volume: 0,
        redemptions_count: 0,
        new_investors: 0,
        exiting_investors: 0,
    }
}

impl ActivityStats {
    /// Activity with every counter at zero.
    pub fn zero() -> (s: ActivityStats)
        ensures
            s == zero_stats(),
    {
        ActivityStats {
            deposits_count: 0,
            deposits_volume: 0,
            withdrawals_count: 0,
            withdrawals_volume: 0,
            transfers_count: 0,
            transfers_volume: 0,
            yield_claims_count: 0,
            yield_claims_volume: 0,
            redemptions_count: 0,
            new_investors: 0,
            exiting_investors: 0,
        }
    }
}

/// The activity recorded for `epoch`, all zero when none was.
pub open spec fn stats_at(m: Map<u32, ActivityStats>, epoch: u32) -> ActivityStats {
    if m.contains_key(epoch) {
        m[epoch]
    } else {
        zero_stats()
    }
}

/// `s` with one more deposit of `assets`, and one more new investor when
/// `first` holds.
pub open spec fn stats_with_deposit(s: ActivityStats, assets: i128, first: bool) -> ActivityStats {
    ActivityStats {
        deposits_count: (s.deposits_count + 1) as u32,
        deposits_volume: (s.deposits_volume + assets) as i128,
        new_investors: if first {
            (s.new_investors + 1) as u32
        } else {
            s.new_investors
        },
        ..s
    }
}

/// `s` with one more yield claim paying out `amount`.
pub open spec fn stats_with_claim(s: ActivityStats, amount: i128) -> ActivityStats {
    ActivityStats {
        yield_claims_count: (s.yield_claims_count + 1) as u32,
        yield_claims_volume: (s.yield_claims_volume + amount) as i128,
        ..s
    }
}

/// Room in `s` to count one more deposit of `assets`.
pub open spec fn deposit_fits_stats(s: ActivityStats, assets: i128) -> bool {
    &&& s.deposits_count < u32::MAX
    &&& s.new_investors < u32::MAX
    &&& in_i128(s.deposits_volume + assets)
}

/// Room in `s` to count one more claim of `amount`.
pub open spec fn claim_fits_stats(s: ActivityStats, amount: i128) -> bool {
    &&& s.yield_claims_count < u32::MAX
    &&& in_i128(s.yield_claims_volume + amount)
}

/// What was recorded for one epoch's distribution.
#[derive(Clone, Copy, Debug, PartialEq, Eq, Structural)]
pub struct EpochData {
    pub epoch: u32,
    pub yield_amount: i128,
    pub total_shares: i128,
    /// Ledger time of the distribution, in seconds since the Unix epoch.
    pub timestamp: u64,
}

/// Off-chain reconciliation of the yield accounting against the assets the
/// vault actually holds.
#[derive(Clone, Copy, Debug, PartialEq, Eq, Structural)]
pub struct YieldReconciliation {
    pub total_yield_distributed: i128,
    pub total_yield_claimed: i128,
    pub total_yield_unclaimed: i128,
    pub vault_asset_balance: i128,
    pub total_principal_deposited: i128,
    pub balance_discrepancy: i128,
}

/// Configuration a vault starts with.
#[derive(Clone, Copy, Debug, PartialEq, Eq, Structural)]
pub struct InitParams {
    /// Assets that must be deposited before the vault can be activated.
    pub funding_target: i128,
    /// Smallest deposit accepted.
    pub min_deposit: i128,
    /// Largest total a single account may deposit; zero means no limit.
    pub max_deposit_per_user: i128,
}

/// The observable state of a vault.
#[verifier::ext_equal]
pub struct VaultView {
    pub address: u32,
    pub admin: u32,
    pub operators: Set<u32>,
    pub state: VaultState,
    pub funding_target: i128,
    pub min_deposit: i128,
    pub max_deposit_per_user: i128,
    pub total_supply: i128,
    pub total_assets: i128,
    pub total_principal: i128,
    pub total_yield_distributed: i128,
    pub total_yield_claimed: i128,
    pub current_epoch: u32,
    pub epoch_yield: Map<u32, i128>,
    pub epoch_total_shares: Map<u32, i128>,
    pub epoch_total_assets: Map<u32, i128>,
    pub epoch_timestamp: Map<u32, u64>,
    pub asset: Map<u32, i128>,
    pub balances: Map<u32, i128>,
    pub deposited: Map<u32, i128>,
    pub yield_claimed: Map<u32, i128>,
    pub shortfall: Map<u32, i128>,
    pub last_interaction: Map<u32, u32>,
    pub invested: Set<u32>,
    pub claimed: Set<(u32, u32)>,
    pub epoch_activity: Map<u32, ActivityStats>,
    pub lifetime: ActivityStats,
    pub events: Seq<VaultEvent>,
}

/// The epoch at which `who` last changed its share balance (zero if never).
pub open spec fn last_interaction_of(v: VaultView, who: u32) -> u32 {
    if v.last_interaction.contains_key(who) {
        v.last_interaction[who]
    } else {
        0
    }
}

/// `who` may run the vault's operations: the admin or an operator.
pub open spec fn is_manager(v: VaultView, who: u32) -> bool {
    who == v.admin || v.operators.contains(who)
}

/// The key under which per-account, per-epoch records are kept.
pub open spec fn account_epoch_key(who: u32, epoch: u32) -> u64 {
    (who as int * 0x1_0000_0000 + epoch as int) as u64
}

proof fn lemma_account_epoch_key_injective(a: u32, e: u32, b: u32, f: u32)
    ensures
        account_epoch_key(a, e) == account_epoch_key(b, f) <==> (a == b && e == f),
{
    assert(0 <= a as int * 0x1_0000_0000 + e as int <= u64::MAX) by (nonlinear_arith)
        requires
            0 <= a <= u32::MAX,
            0 <= e <= u32::MAX,
    ;
    assert(0 <= b as int * 0x1_0000_0000 + f as int <= u64::MAX) by (nonlinear_arith)
        requires
            0 <= b <= u32::MAX,
            0 <= f <= u32::MAX,
    ;
    if a as int * 0x1_0000_0000 + e as int == b as int * 0x1_0000_0000 + f as int {
        assert(a == b && e == f) by (nonlinear_arith)
            requires
                a as int * 0x1_0000_0000 + e as int == b as int * 0x1_0000_0000 + f as int,
                0 <= e <= u32::MAX,
                0 <= f <= u32::MAX,
        ;
    }
}

fn account_epoch_key_exec(who: u32, epoch: u32) -> (k: u64)
    ensures
        k == account_epoch_key(who, epoch),
{
    assert(0 <= who as int * 0x1_0000_0000 + epoch as int <= u64::MAX) by (nonlinear_arith)
        requires
            0 <= who <= u32::MAX,
            0 <= epoch <= u32::MAX,
    ;
    (who as u64) * 0x1_0000_0000 + (epoch as u64)
}

/// A single-asset vault.
pub struct Vault {
    /// Per-epoch records.
    pub storage: EpochStorage,
    /// The underlying asset's ledger; the vault holds its assets under `address`.
    pub asset: TokenLedger,
    address: u32,
    admin: u32,
    operators: HashSet<u32>,
    state: VaultState,
    funding_target: i128,
    min_deposit: i128,
    max_deposit_per_user: i128,
    total_supply: i128,
    total_assets: i128,
    total_principal: i128,
    total_yield_distributed: i128,
    total_yield_claimed: i128,
    balances: HashMap<u32, i128>,
    deposited: HashMap<u32, i128>,
    user_yield_claimed: HashMap<u32, i128>,
    shortfall: HashMap<u32, i128>,
    last_epoch: HashMap<u32, u32>,
    invested: HashSet<u32>,
    snapshots: HashMap<u64, i128>,
    claimed: HashSet<u64>,
    epoch_activity: HashMap<u32, ActivityStats>,
    lifetime: ActivityStats,
    events: Vec<VaultEvent>,
}

impl View for Vault {
    type V = VaultView;

    closed spec fn view(&self) -> VaultView {
        VaultView {
            address: self.address,
            admin: self.admin,
            operators: self.operators@,
            state: self.state,
            funding_target: self.funding_target,
            min_deposit: self.min_deposit,
            max_deposit_per_user: self.max_deposit_per_user,
            total_supply: self.total_supply,
            total_assets: self.total_assets,
            total_principal: self.total_principal,
            total_yield_distributed: self.total_yield_distributed,
            total_yield_claimed: self.total_yield_claimed,
            current_epoch: self.storage.current(),
            epoch_yield: self.storage.yields(),
            epoch_total_shares: self.storage.totals(),
            epoch_total_assets: self.storage.assets(),
            epoch_timestamp: self.storage.timestamps(),
            asset: self.asset@,
            balances: self.balances@,
            deposited: self.deposited@,
            yield_claimed: self.user_yield_claimed@,
            shortfall: self.shortfall@,
            last_interaction: self.last_epoch@,
            invested: self.invested@,
            claimed: Set::new(|p: (u32, u32)| self.claimed@.contains(account_epoch_key(p.0, p.1))),
            epoch_activity: self.epoch_activity@,
            lifetime: self.lifetime,
            events: self.events@,
        }
    }
}

impl Vault {
    /// The shares `who` held when `epoch`'s yield was distributed: the
    /// balance recorded for that epoch, or the current balance for every
    /// epoch distributed since `who` last changed it.
    pub closed spec fn shares_at(&self, who: u32, epoch: u32) -> i128 {
        if epoch > last_interaction_of(self@, who) {
            value_or_zero(self@.balances, who)
        } else {
            value_or_zero(self.snapshots@, account_epoch_key(who, epoch))
        }
    }

    /// For every epoch distributed after `who` last changed its shares, the
    /// holding that epoch pays on is `who`'s current balance.
    pub proof fn lemma_shares_at_after_last_interaction(&self, who: u32, epoch: u32)
        requires
            epoch > last_interaction_of(self@, who),
        ensures
            self.shares_at(who, epoch) == value_or_zero(self@.balances, who),
    {
    }

    /// A new vault in the funding state, holding nothing, at epoch zero.
    pub fn new(params: InitParams, admin: u32, address: u32) -> (v: Vault)
        ensures
            v.wf(),
            v@.address == address,
            v@.admin == admin,
            v@.operators == Set::<u32>::empty(),
            v@.state == VaultState::Funding,
            v@.funding_target == params.funding_target,
            v@.min_deposit == params.min_deposit,
            v@.max_deposit_per_user == params.max_deposit_per_user,
            v@.total_supply == 0,
            v@.total_assets == 0,
            v@.total_principal == 0,
            v@.total_yield_distributed == 0,
            v@.total_yield_claimed == 0,
            v@.current_epoch == 0,
            v@.epoch_yield == Map::<u32, i128>::empty(),
            v@.epoch_total_shares == Map::<u32, i128>::empty(),
            v@.epoch_total_assets == Map::<u32, i128>::empty(),
            v@.epoch_timestamp == Map::<u32, u64>::empty(),
            v@.asset == Map::<u32, i128>::empty(),
            v@.balances == Map::<u32, i128>::empty(),
            v@.deposited == Map::<u32, i128>::empty(),
            v@.yield_claimed == Map::<u32, i128>::empty(),
            v@.shortfall == Map::<u32, i128>::empty(),
            v@.last_interaction == Map::<u32, u32>::empty(),
            v@.invested == Set::<u32>::empty(),
            v@.claimed == Set::<(u32, u32)>::empty(),
            v@.epoch_activity == Map::<u32, ActivityStats>::empty(),
            v@.lifetime == zero_stats(),
            v@.events == Seq::<VaultEvent>::empty(),
            forall|who: u32, epoch: u32| v.shares_at(who, epoch) == 0,
    {
        let v = Vault {
            storage: EpochStorage::new(),
            asset: TokenLedger::new(),
            address,
            admin,
            operators: HashSet::new(),
            state: VaultState::Funding,
            funding_target: params.funding_target,
            min_deposit: params.min_deposit,
            max_deposit_per_user: params.max_deposit_per_user,
            total_supply: 0,
            total_assets: 0,
            total_principal: 0,
            total_yield_distributed: 0,
            total_yield_claimed: 0,
            balances: HashMap::new(),
            deposited: HashMap::new(),
            user_yield_claimed: HashMap::new(),
            shortfall: HashMap::new(),
            last_epoch: HashMap::new(),
            invested: HashSet::new(),
            snapshots: HashMap::new(),
            claimed: HashSet::new(),
            epoch_activity: HashMap::new(),
            lifetime: ActivityStats::zero(),
            events: Vec::new(),
        };
        assert(v@.claimed =~= Set::<(u32, u32)>::empty());
        assert forall|accounts: Seq<u32>| accounts.no_duplicates() implies #[trigger] sum_balances(
            v@.balances,
            accounts,
        ) <= v@.total_supply by {
            lemma_sum_balances_empty(accounts);
        }
        v
    }
}

/// `Ledger::timestamp`: the close time of the current ledger, in seconds
/// since the Unix epoch. It is the time, so nothing is stated of it.
#[verifier::external_body]
pub(crate) fn ledger_timestamp(e: &Env) -> (t: u64) {
    e.ledger().timestamp()
}

/// `testutils::Ledger::set_timestamp`: moves the test host's ledger clock
/// to `timestamp`. It changes only the host's ledger, which no contract here
/// can speak of, so nothing is stated.
#[verifier::external_body]
pub(crate) fn set_ledger_timestamp(e: &Env, timestamp: u64) {
    soroban_sdk::testutils::Ledger::set_timestamp(&e.ledger(), timestamp)
}

/// Adding or removing an operator at ledger time `now`: only the admin may;
/// an addition is announced.
pub open spec fn spec_set_operator(v: VaultView, caller: u32, who: u32, enabled: bool, now: u64) -> (
    VaultView,
    Result<(), Error>,
) {
    if caller != v.admin {
        (v, Err(Error::NotAdmin))
    } else if enabled {
        (
            VaultView {
                operators: v.operators.insert(who),
                events: v.events.push(
                    VaultEvent::OperatorAdded { caller, operator: who, timestamp: now },
                ),
                ..v
            },
            Ok(()),
        )
    } else {
        (VaultView { operators: v.operators.remove(who), ..v }, Ok(()))
    }
}

/// Changing the funding target at ledger time `now`: a manager may, while
/// the vault is funding, to any non-negative amount; the change is announced.
pub open spec fn spec_set_funding_target(v: VaultView, caller: u32, target: i128, now: u64) -> (
    VaultView,
    Result<(), Error>,
) {
    if !is_manager(v, caller) {
        (v, Err(Error::NotOperator))
    } else if v.state != VaultState::Funding {
        (v, Err(Error::InvalidVaultState))
    } else if target < 0 {
        (v, Err(Error::ZeroAmount))
    } else {
        (
            VaultView {
                funding_target: target,
                events: v.events.push(
                    VaultEvent::FundingTargetSet { caller, target, timestamp: now },
                ),
                ..v
            },
            Ok(()),
        )
    }
}

/// Activating the vault: a manager may, while it is funding, once the
/// assets deposited reach the funding target.
pub open spec fn spec_activate_vault(v: VaultView, caller: u32) -> (VaultView, Result<(), Error>) {
    if !is_manager(v, caller) {
        (v, Err(Error::NotOperator))
    } else if v.state != VaultState::Funding {
        (v, Err(Error::InvalidVaultState))
    } else if v.total_assets < v.funding_target {
        (v, Err(Error::FundingTargetNotMet))
    } else {
        (VaultView { state: VaultState::Active, ..v }, Ok(()))
    }
}

impl Vault {
    /// Adds (`enabled`) or removes an operator, stamping the announcement
    /// with the current ledger time.
    pub fn set_operator(&mut self, e: &Env, caller: u32, who: u32, enabled: bool) -> (r: Result<
        (),
        Error,
    >)
        ensures
            old(self).wf() ==> final(self).wf(),
            exists|now: u64|
                (final(self)@, r) == #[trigger] spec_set_operator(
                    old(self)@,
                    caller,
                    who,
                    enabled,
                    now,
                ),
            forall|a: u32, ep: u32| #[trigger] final(self).shares_at(a, ep) == old(self).shares_at(a, ep),
    {
        let now = ledger_timestamp(e);
        self.set_operator_at(now, caller, who, enabled)
    }

    /// Adds (`enabled`) or removes an operator at ledger time `now`.
    pub fn set_operator_at(&mut self, now: u64, caller: u32, who: u32, enabled: bool) -> (r: Result<
        (),
        Error,
    >)
        ensures
            old(self).wf() ==> final(self).wf(),
            (final(self)@, r) == spec_set_operator(old(self)@, caller, who, enabled, now),
            forall|a: u32, e: u32| #[trigger] final(self).shares_at(a, e) == old(self).shares_at(a, e),
    {
        let ghost pre = *self;
        if caller != self.admin {
            return Err(Error::NotAdmin);
        }
        if enabled {
            self.operators.insert(who);
            self.events.push(VaultEvent::OperatorAdded { caller, operator: who, timestamp: now });
        } else {
            self.operators.remove(&who);
        }
        proof {
            if pre.wf() {
                lemma_balances_bounded_same(pre@, self@);
                lemma_wf_frame(&pre, self);
            }
        }
        Ok(())
    }

    /// Sets the funding target, stamping the announcement with the current
    /// ledger time.
    pub fn set_funding_target(&mut self, e: &Env, caller: u32, target: i128) -> (r: Result<
        (),
        Error,
    >)
        ensures
            old(self).wf() ==> final(self).wf(),
            exists|now: u64|
                (final(self)@, r) == #[trigger] spec_set_funding_target(
                    old(self)@,
                    caller,
                    target,
                    now,
                ),
            forall|a: u32, ep: u32| #[trigger] final(self).shares_at(a, ep) == old(self).shares_at(a, ep),
    {
        let now = ledger_timestamp(e);
        self.set_funding_target_at(now, caller, target)
    }

    /// Sets the funding target at ledger time `now`.
    pub fn set_funding_target_at(&mut self, now: u64, caller: u32, target: i128) -> (r: Result<
        (),
        Error,
    >)
        ensures
            old(self).wf() ==> final(self).wf(),
            (final(self)@, r) == spec_set_funding_target(old(self)@, caller, target, now),
            forall|a: u32, e: u32| #[trigger] final(self).shares_at(a, e) == old(self).shares_at(a, e),
    {
        let ghost pre = *self;
        if !(caller == self.admin || self.operators.contains(&caller)) {
            return Err(Error::NotOperator);
        }
        if self.state != VaultState::Funding {
            return Err(Error::InvalidVaultState);
        }
        match crate::math::assert_nonnegative(target) {
            Err(err) => {
                return Err(err);
            },
            Ok(()) => {},
        }
        self.funding_target = target;
        self.events.push(VaultEvent::FundingTargetSet { caller, target, timestamp: now });
        proof {
            if pre.wf() {
                lemma_balances_bounded_same(pre@, self@);
                lemma_wf_frame(&pre, self);
            }
        }
        Ok(())
    }

    /// Moves the vault from funding to active.
    pub fn activate_vault(&mut self, caller: u32) -> (r: Result<(), Error>)
        ensures
            old(self).wf() ==> final(self).wf(),
            (final(self)@, r) == spec_activate_vault(old(self)@, caller),
            forall|a: u32, e: u32| #[trigger] final(self).shares_at(a, e) == old(self).shares_at(a, e),
    {
        let ghost pre = *self;
        if !(caller == self.admin || self.operators.contains(&caller)) {
            return Err(Error::NotOperator);
        }
        if self.state != VaultState::Funding {
            return Err(Error::InvalidVaultState);
        }
        if self.total_assets < self.funding_target {
            return Err(Error::FundingTargetNotMet);
        }
        self.state = VaultState::Active;
        proof {
            if pre.wf() {
                lemma_balances_bounded_same(pre@, self@);
                lemma_wf_frame(&pre, self);
            }
        }
        Ok(())
    }

    /// The vault's lifecycle state.
    pub fn state(&self) -> (r: VaultState)
        ensures
            r == self@.state,
    {
        self.state
    }

    /// The account under which the vault holds its assets.
    pub fn address(&self) -> (r: u32)
        ensures
            r == self@.address,
    {
        self.address
    }

    /// The admin account.
    pub fn admin(&self) -> (r: u32)
        ensures
            r == self@.admin,
    {
        self.admin
    }

    /// Whether `who` is an operator.
    pub fn is_operator(&self, who: u32) -> (r: bool)
        ensures
            r == self@.operators.contains(who),
    {
        self.operators.contains(&who)
    }

    /// Assets that must be deposited before activation.
    pub fn funding_target(&self) -> (r: i128)
        ensures
            r == self@.funding_target,
    {
        self.funding_target
    }

    /// Smallest deposit accepted.
    pub fn min_deposit(&self) -> (r: i128)
        ensures
            r == self@.min_deposit,
    {
        self.min_deposit
    }

    /// Largest total one account may deposit; zero means no limit.
    pub fn max_deposit_per_user(&self) -> (r: i128)
        ensures
            r == self@.max_deposit_per_user,
    {
        self.max_deposit_per_user
    }

    /// Shares in existence.
    pub fn total_supply(&self) -> (r: i128)
        ensures
            r == self@.total_supply,
    {
        self.total_supply
    }

    /// Assets the vault accounts for: deposits and distributed yield, less
    /// what has been paid out.
    pub fn total_assets(&self) -> (r: i128)
        ensures
            r == self@.total_assets,
    {
        self.total_assets
    }

    /// The shares held by `who`.
    pub fn balance(&self, who: u32) -> (r: i128)
        ensures
            r == value_or_zero(self@.balances, who),
    {
        match self.balances.get(&who) {
            Some(b) => *b,
            None => 0,
        }
    }

    /// The raw balance of the asset held by the vault.
    pub fn vault_asset_balance(&self) -> (r: i128)
        ensures
            r == balance_of(self@.asset, self@.address),
    {
        self.asset.balance(self.address)
    }

    /// The current epoch: the number of yield distributions so far.
    pub fn current_epoch(&self) -> (r: u32)
        ensures
            r == self@.current_epoch,
    {
        crate::storage::get_current_epoch(&self.storage)
    }

    /// The yield distributed in `epoch` (zero if none was).
    pub fn epoch_yield(&self, epoch: u32) -> (r: i128)
        ensures
            r == value_or_zero(self@.epoch_yield, epoch),
    {
        get_epoch_yield(&self.storage, epoch)
    }

    /// What was recorded for `epoch`'s distribution.
    pub fn get_epoch_data(&self, epoch: u32) -> (r: EpochData)
        ensures
            r == (EpochData {
                epoch,
                yield_amount: value_or_zero(self@.epoch_yield, epoch),
                total_shares: value_or_zero(self@.epoch_total_shares, epoch),
                timestamp: timestamp_or_zero(self@.epoch_timestamp, epoch),
            }),
    {
        EpochData {
            epoch,
            yield_amount: get_epoch_yield(&self.storage, epoch),
            total_shares: get_epoch_total_shares(&self.storage, epoch),
            timestamp: crate::storage::get_epoch_timestamp(&self.storage, epoch),
        }
    }

    /// The epoch at which `who` last changed its share balance (zero if never).
    pub fn last_interaction_epoch(&self, who: u32) -> (r: u32)
        ensures
            r == last_interaction_of(self@, who),
    {
        match self.last_epoch.get(&who) {
            Some(e) => *e,
            None => 0,
        }
    }

    /// Yield owed to `who` that the vault could not pay when it was claimed.
    pub fn get_yield_shortfall(&self, who: u32) -> (r: i128)
        ensures
            r == value_or_zero(self@.shortfall, who),
    {
        match self.shortfall.get(&who) {
            Some(b) => *b,
            None => 0,
        }
    }

    /// Activity recorded in `epoch` (all zero if none was).
    pub fn get_epoch_activity(&self, epoch: u32) -> (r: ActivityStats)
        ensures
            r == stats_at(self@.epoch_activity, epoch),
    {
        match self.epoch_activity.get(&epoch) {
            Some(s) => *s,
            None => ActivityStats::zero(),
        }
    }

    /// Activity over the vault's lifetime.
    pub fn get_lifetime_activity(&self) -> (r: ActivityStats)
        ensures
            r == self@.lifetime,
    {
        self.lifetime
    }

    /// The yield accounting set against the assets held: unclaimed yield is
    /// distributed less claimed, and the discrepancy is the raw asset
    /// balance less the principal and the unclaimed yield it should cover.
    pub fn get_yield_reconciliation(&self) -> (r: YieldReconciliation)
        requires
            in_i128(self@.total_yield_distributed - self@.total_yield_claimed),
            in_i128(balance_of(self@.asset, self@.address) - (self@.total_principal + (
            self@.total_yield_distributed - self@.total_yield_claimed))),
            in_i128(self@.total_principal + (self@.total_yield_distributed - self@.total_yield_claimed)),
        ensures
            r.total_yield_distributed == self@.total_yield_distributed,
            r.total_yield_claimed == self@.total_yield_claimed,
            r.total_yield_unclaimed == self@.total_yield_distributed - self@.total_yield_claimed,
            r.vault_asset_balance == balance_of(self@.asset, self@.address),
            r.total_principal_deposited == self@.total_principal,
            r.balance_discrepancy == balance_discrepancy(self@),
    {
        let unclaimed = self.total_yield_distributed - self.total_yield_claimed;
        let held = self.asset.balance(self.address);
        let expected = self.total_principal + unclaimed;
        YieldReconciliation {
            total_yield_distributed: self.total_yield_distributed,
            total_yield_claimed: self.total_yield_claimed,
            total_yield_unclaimed: unclaimed,
            vault_asset_balance: held,
            total_principal_deposited: self.total_principal,
            balance_discrepancy: held - expected,
        }
    }
}

/// Shares minted for `assets` at the current exchange rate, virtual offset
/// included, rounded down.
pub open spec fn spec_convert_to_shares(v: VaultView, assets: i128) -> int {
    spec_mul_div(
        assets as int,
        v.total_supply + VIRTUAL_OFFSET,
        v.total_assets + VIRTUAL_OFFSET,
    )
}

/// The error a deposit of `assets` for `receiver` is refused with, if any.
pub open spec fn deposit_error(v: VaultView, assets: i128, receiver: u32) -> Option<Error> {
    if assets <= 0 {
        Some(Error::ZeroAmount)
    } else if assets < v.min_deposit {
        Some(Error::BelowMinimumDeposit)
    } else if v.max_deposit_per_user > 0 && value_or_zero(v.deposited, receiver) + assets
        > v.max_deposit_per_user {
        Some(Error::ExceedsMaximumDeposit)
    } else if v.state == VaultState::Funding && v.funding_target > 0 && v.total_assets + assets
        > v.funding_target {
        Some(Error::FundingTargetExceeded)
    } else {
        None
    }
}

/// The arithmetic of a deposit stays within `i128` (and `u32` for the
/// counters), and `caller` holds the assets it pays in.
pub open spec fn deposit_fits(v: VaultView, caller: u32, assets: i128, receiver: u32) -> bool {
    &&& (v.max_deposit_per_user > 0 && assets > 0 ==> value_or_zero(v.deposited, receiver) + assets
        <= i128::MAX)
    &&& deposit_error(v, assets, receiver) is None ==> {
        let shares = spec_convert_to_shares(v, assets);
        &&& in_i128(v.total_supply + VIRTUAL_OFFSET)
        &&& in_i128(v.total_assets + VIRTUAL_OFFSET)
        &&& v.total_assets + VIRTUAL_OFFSET != 0
        &&& in_i128(shares)
        &&& balance_of(v.asset, caller) >= assets
        &&& (caller != v.address ==> balance_of(v.asset, v.address) + assets <= i128::MAX)
        &&& in_i128(value_or_zero(v.balances, receiver) + shares)
        &&& in_i128(v.total_supply + shares)
        &&& v.total_assets + assets <= i128::MAX
        &&& v.total_principal + assets <= i128::MAX
        &&& value_or_zero(v.deposited, receiver) + assets <= i128::MAX
        &&& deposit_fits_stats(stats_at(v.epoch_activity, v.current_epoch), assets)
        &&& deposit_fits_stats(v.lifetime, assets)
    }
}

/// The vault after `receiver` is recorded as having interacted in the
/// current epoch.
pub open spec fn spec_checkpoint(v: VaultView, who: u32) -> VaultView {
    let last = last_interaction_of(v, who);
    VaultView {
        last_interaction: v.last_interaction.insert(
            who,
            if last < v.current_epoch {
                v.current_epoch
            } else {
                last
            },
        ),
        ..v
    }
}

/// A deposit: `caller` pays `assets` into the vault and `receiver` is
/// minted the shares they convert to.
pub open spec fn spec_deposit(v: VaultView, caller: u32, assets: i128, receiver: u32) -> (
    VaultView,
    Result<i128, Error>,
) {
    match deposit_error(v, assets, receiver) {
        Some(err) => (v, Err(err)),
        None => {
            let shares = spec_convert_to_shares(v, assets) as i128;
            let first = !v.invested.contains(receiver);
            let w = spec_checkpoint(v, receiver);
            (
                VaultView {
                    asset: spec_transfer(v.asset, caller, v.address, assets),
                    balances: v.balances.insert(
                        receiver,
                        (value_or_zero(v.balances, receiver) + shares) as i128,
                    ),
                    total_supply: (v.total_supply + shares) as i128,
                    total_assets: (v.total_assets + assets) as i128,
                    total_principal: (v.total_principal + assets) as i128,
                    deposited: v.deposited.insert(
                        receiver,
                        (value_or_zero(v.deposited, receiver) + assets) as i128,
                    ),
                    invested: v.invested.insert(receiver),
                    epoch_activity: v.epoch_activity.insert(
                        v.current_epoch,
                        stats_with_deposit(
                            stats_at(v.epoch_activity, v.current_epoch),
                            assets,
                            first,
                        ),
                    ),
                    lifetime: stats_with_deposit(v.lifetime, assets, first),
                    events: v.events.push(VaultEvent::Deposit { caller, receiver, assets, shares }),
                    ..w
                },
                Ok(shares),
            )
        },
    }
}

fn record_deposit(s: ActivityStats, assets: i128, first: bool) -> (r: ActivityStats)
    requires
        deposit_fits_stats(s, assets),
    ensures
        r == stats_with_deposit(s, assets, first),
{
    ActivityStats {
        deposits_count: s.deposits_count + 1,
        deposits_volume: s.deposits_volume + assets,
        new_investors: if first {
            s.new_investors + 1
        } else {
            s.new_investors
        },
        ..s
    }
}

impl Vault {
    /// Records that `who`'s balance is about to change in the current epoch:
    /// the balance held through every epoch distributed since the last
    /// change is written down, so that those epochs keep being paid on it.
    fn checkpoint(&mut self, who: u32)
        ensures
            final(self)@ == spec_checkpoint(old(self)@, who),
            forall|a: u32, e: u32|
                (a != who || e <= old(self)@.current_epoch) ==> #[trigger] final(self).shares_at(a, e)
                    == old(self).shares_at(a, e),
    {
        let last = self.last_interaction_epoch(who);
        let cur = crate::storage::get_current_epoch(&self.storage);
        if last < cur {
            let s = self.balance(who);
            let mut ep = last;
            let ghost old_snap = self.snapshots@;
            let ghost v0 = self@;
            while ep < cur
                invariant
                    last <= ep <= cur,
                    self@ == v0,
                    s == value_or_zero(v0.balances, who),
                    self.storage.current() == cur,
                    forall|a: u32, e: u32|
                        #[trigger] value_or_zero(self.snapshots@, account_epoch_key(a, e)) == if a
                            == who && last < e <= ep {
                            s
                        } else {
                            value_or_zero(old_snap, account_epoch_key(a, e))
                        },
                decreases cur - ep,
            {
                ep = ep + 1;
                let k = account_epoch_key_exec(who, ep);
                let ghost prev = self.snapshots@;
                self.snapshots.insert(k, s);
                assert forall|a: u32, e: u32|
                    #[trigger] value_or_zero(self.snapshots@, account_epoch_key(a, e)) == if a == who
                        && last < e <= ep {
                        s
                    } else {
                        value_or_zero(old_snap, account_epoch_key(a, e))
                    } by {
                    lemma_account_epoch_key_injective(a, e, who, ep);
                    assert(value_or_zero(prev, account_epoch_key(a, e)) == if a == who && last < e
                        <= ep - 1 {
                        s
                    } else {
                        value_or_zero(old_snap, account_epoch_key(a, e))
                    });
                }
            }
            self.last_epoch.insert(who, cur);
        } else {
            self.last_epoch.insert(who, last);
        }
    }

    /// Shares that `assets` would mint now, rounded down.
    pub fn convert_to_shares(&self, e: &Env, assets: i128) -> (r: i128)
        requires
            in_i128(self@.total_supply + VIRTUAL_OFFSET),
            in_i128(self@.total_assets + VIRTUAL_OFFSET),
            self@.total_assets + VIRTUAL_OFFSET != 0,
            in_i128(spec_convert_to_shares(self@, assets)),
        ensures
            r == spec_convert_to_shares(self@, assets),
    {
        mul_div(e, assets, self.total_supply + VIRTUAL_OFFSET, self.total_assets + VIRTUAL_OFFSET)
    }

    /// Deposits `assets` from `caller` and mints the resulting shares to
    /// `receiver`. Refused with `ZeroAmount` for a non-positive amount,
    /// `BelowMinimumDeposit` under the minimum, and `ExceedsMaximumDeposit`
    /// when the receiver's deposits would pass the per-account limit.
    pub fn deposit(&mut self, e: &Env, caller: u32, assets: i128, receiver: u32) -> (r: Result<
        i128,
        Error,
    >)
        requires
            deposit_fits(old(self)@, caller, assets, receiver),
        ensures
            old(self).wf() && spec_convert_to_shares(old(self)@, assets) >= 0 ==> final(self).wf(),
            (final(self)@, r) == spec_deposit(old(self)@, caller, assets, receiver),
            forall|a: u32, ep: u32|
                (a != receiver || ep <= old(self)@.current_epoch) ==> #[trigger] final(self).shares_at(
                    a,
                    ep,
                ) == old(self).shares_at(a, ep),
            forall|a: u32, ep: u32|
                ep <= old(self)@.current_epoch ==> #[trigger] final(self).pending_for_epoch(a, ep)
                    == old(self).pending_for_epoch(a, ep),
    {
        let ghost pre = *self;
        match crate::math::assert_nonnegative(assets) {
            Err(err) => {
                return Err(err);
            },
            Ok(()) => {},
        }
        if assets == 0 {
            return Err(Error::ZeroAmount);
        }
        if assets < self.min_deposit {
            return Err(Error::BelowMinimumDeposit);
        }
        let prior = match self.deposited.get(&receiver) {
            Some(d) => *d,
            None => 0,
        };
        if self.max_deposit_per_user > 0 && prior + assets > self.max_deposit_per_user {
            return Err(Error::ExceedsMaximumDeposit);
        }
        if self.state == VaultState::Funding && self.funding_target > 0 {
            let past_target = match self.total_assets.checked_add(assets) {
                Some(total) => total > self.funding_target,
                None => true,
            };
            if past_target {
                return Err(Error::FundingTargetExceeded);
            }
        }
        let shares = self.convert_to_shares(e, assets);
        let ghost v0 = self@;
        let address = self.address;
        self.asset.transfer(caller, address, assets);
        self.checkpoint(receiver);
        let ghost mid = *self;
        let bal = self.balance(receiver);
        self.balances.insert(receiver, bal + shares);
        self.total_supply = self.total_supply + shares;
        self.total_assets = self.total_assets + assets;
        self.total_principal = self.total_principal + assets;
        self.deposited.insert(receiver, prior + assets);
        let first = !self.invested.contains(&receiver);
        self.invested.insert(receiver);
        let cur = crate::storage::get_current_epoch(&self.storage);
        let stats = self.get_epoch_activity(cur);
        self.epoch_activity.insert(cur, record_deposit(stats, assets, first));
        self.lifetime = record_deposit(self.lifetime, assets, first);
        self.events.push(VaultEvent::Deposit { caller, receiver, assets, shares });
        assert forall|a: u32, ep: u32|
            (a != receiver || ep <= v0.current_epoch) implies #[trigger] self.shares_at(a, ep)
                == mid.shares_at(a, ep) by {
            assert(last_interaction_of(self@, a) == last_interaction_of(mid@, a));
        }
        proof {
            if pre.wf() && shares >= 0 {
                lemma_balances_bounded_after_mint(
                    pre@.balances,
                    pre@.total_supply as int,
                    receiver,
                    (bal + shares) as i128,
                );
                assert forall|who: u32| #[trigger] value_or_zero(self@.balances, who) >= 0 by {
                    assert(value_or_zero(pre@.balances, who) >= 0);
                }
                lemma_wf_frame(&pre, self);
            }
        }
        Ok(shares)
    }
}

/// The error a distribution of `amount` by `caller` is refused with, if any.
pub open spec fn distribute_error(v: VaultView, caller: u32, amount: i128) -> Option<Error> {
    if !is_manager(v, caller) {
        Some(Error::NotOperator)
    } else if v.state != VaultState::Active {
        Some(Error::InvalidVaultState)
    } else if amount <= 0 {
        Some(Error::ZeroAmount)
    } else {
        None
    }
}

/// The arithmetic of a distribution stays in range, and `caller` holds the
/// yield it pays in.
pub open spec fn distribute_fits(v: VaultView, caller: u32, amount: i128) -> bool {
    distribute_error(v, caller, amount) is None ==> {
        &&& v.current_epoch < u32::MAX
        &&& balance_of(v.asset, caller) >= amount
        &&& (caller != v.address ==> balance_of(v.asset, v.address) + amount <= i128::MAX)
        &&& v.total_assets + amount <= i128::MAX
        &&& v.total_yield_distributed + amount <= i128::MAX
    }
}

/// A yield distribution at ledger time `now`: `caller` pays `amount` into
/// the vault and a new epoch is opened that records the yield and the share
/// supply it is divided over.
pub open spec fn spec_distribute_yield(v: VaultView, caller: u32, amount: i128, now: u64) -> (
    VaultView,
    Result<u32, Error>,
) {
    match distribute_error(v, caller, amount) {
        Some(err) => (v, Err(err)),
        None => {
            let epoch = (v.current_epoch + 1) as u32;
            (
                VaultView {
                    asset: spec_transfer(v.asset, caller, v.address, amount),
                    current_epoch: epoch,
                    epoch_yield: v.epoch_yield.insert(epoch, amount),
                    epoch_total_shares: v.epoch_total_shares.insert(epoch, v.total_supply),
                    epoch_total_assets: v.epoch_total_assets.insert(
                        epoch,
                        (v.total_assets + amount) as i128,
                    ),
                    epoch_timestamp: v.epoch_timestamp.insert(epoch, now),
                    total_assets: (v.total_assets + amount) as i128,
                    total_yield_distributed: (v.total_yield_distributed + amount) as i128,
                    events: v.events.push(
                        VaultEvent::YieldDistributed { epoch, amount, timestamp: now },
                    ),
                    ..v
                },
                Ok(epoch),
            )
        },
    }
}

/// What a claim pays out of a pending total: all of it when the vault's
/// asset balance covers it, otherwise whatever the balance holds.
pub open spec fn claim_payout(v: VaultView, total: int) -> int {
    let available = balance_of(v.asset, v.address);
    if total <= available {
        total
    } else if available > 0 {
        available as int
    } else {
        0
    }
}

/// The epochs `1..=current` of `who`, as claimed pairs.
pub open spec fn epochs_through(who: u32, current: u32) -> Set<(u32, u32)> {
    Set::new(|p: (u32, u32)| p.0 == who && 1 <= p.1 <= current)
}

/// The vault after `who` claims a pending total of `total`: every epoch so
/// far is marked claimed, the payout moves to `who`, and what could not be
/// paid is added to `who`'s shortfall.
pub open spec fn spec_claim_apply(v: VaultView, who: u32, total: int) -> VaultView {
    let paid = claim_payout(v, total);
    VaultView {
        claimed: v.claimed.union(epochs_through(who, v.current_epoch)),
        asset: if paid > 0 {
            spec_transfer(v.asset, v.address, who, paid as i128)
        } else {
            v.asset
        },
        shortfall: if total > paid {
            v.shortfall.insert(who, (value_or_zero(v.shortfall, who) + (total - paid)) as i128)
        } else {
            v.shortfall
        },
        yield_claimed: v.yield_claimed.insert(
            who,
            (value_or_zero(v.yield_claimed, who) + paid) as i128,
        ),
        total_yield_claimed: (v.total_yield_claimed + paid) as i128,
        total_assets: (v.total_assets - paid) as i128,
        epoch_activity: v.epoch_activity.insert(
            v.current_epoch,
            stats_with_claim(stats_at(v.epoch_activity, v.current_epoch), paid as i128),
        ),
        lifetime: stats_with_claim(v.lifetime, paid as i128),
        events: if total > paid {
            v.events.push(
                VaultEvent::PartialYieldClaim {
                    user: who,
                    paid: paid as i128,
                    shortfall: (total - paid) as i128,
                },
            )
        } else {
            v.events
        },
        ..v
    }
}

fn record_claim(s: ActivityStats, amount: i128) -> (r: ActivityStats)
    requires
        claim_fits_stats(s, amount),
    ensures
        r == stats_with_claim(s, amount),
{
    ActivityStats {
        yield_claims_count: s.yield_claims_count + 1,
        yield_claims_volume: s.yield_claims_volume + amount,
        ..s
    }
}

impl Vault {
    /// The yield `who` is owed for `epoch`: its shares at that epoch times
    /// the epoch's yield, over the epoch's share supply, rounded down. Zero
    /// for epoch zero, a future epoch, an epoch already claimed, or an epoch
    /// with no shares recorded.
    pub open spec fn pending_for_epoch(&self, who: u32, epoch: u32) -> int {
        let v = self@;
        let total = value_or_zero(v.epoch_total_shares, epoch);
        if epoch == 0 || epoch > v.current_epoch || v.claimed.contains((who, epoch)) || total == 0 {
            0
        } else {
            spec_mul_div(
                self.shares_at(who, epoch) as int,
                value_or_zero(v.epoch_yield, epoch) as int,
                total as int,
            )
        }
    }

    /// The yield `who` is owed over epochs `1..=n`.
    pub open spec fn pending_sum(&self, who: u32, n: nat) -> int
        decreases n,
    {
        if n == 0 {
            0
        } else {
            self.pending_sum(who, (n - 1) as nat) + self.pending_for_epoch(who, n as u32)
        }
    }

    /// The per-epoch yield of `who` for `epoch` fits in `i128`.
    pub open spec fn epoch_term_in_range(&self, who: u32, epoch: u32) -> bool {
        let v = self@;
        let total = value_or_zero(v.epoch_total_shares, epoch);
        (1 <= epoch <= v.current_epoch && total != 0) ==> in_i128(
            spec_mul_div(
                self.shares_at(who, epoch) as int,
                value_or_zero(v.epoch_yield, epoch) as int,
                total as int,
            ),
        )
    }

    /// Every per-epoch yield of `who`, and every running total of them,
    /// fits in `i128`.
    pub open spec fn yield_computable(&self, who: u32) -> bool {
        &&& forall|epoch: u32| #[trigger] self.epoch_term_in_range(who, epoch)
        &&& forall|k: nat| k <= self@.current_epoch ==> in_i128(#[trigger] self.pending_sum(who, k))
    }

    /// A claim by `who` stays within range everywhere it writes.
    pub open spec fn claim_fits(&self, who: u32) -> bool {
        let v = self@;
        let total = self.pending_sum(who, v.current_epoch as nat);
        let paid = claim_payout(v, total);
        &&& self.yield_computable(who)
        &&& total > 0 ==> {
            &&& (who != v.address ==> balance_of(v.asset, who) + paid <= i128::MAX)
            &&& in_i128(value_or_zero(v.shortfall, who) + (total - paid))
            &&& in_i128(value_or_zero(v.yield_claimed, who) + paid)
            &&& in_i128(v.total_yield_claimed + paid)
            &&& in_i128(v.total_assets - paid)
            &&& claim_fits_stats(stats_at(v.epoch_activity, v.current_epoch), paid as i128)
            &&& claim_fits_stats(v.lifetime, paid as i128)
        }
    }

    /// Distributes `amount` of yield from `caller` as a new epoch, stamped
    /// with the current ledger time, and returns the epoch's number.
    pub fn distribute_yield(&mut self, e: &Env, caller: u32, amount: i128) -> (r: Result<
        u32,
        Error,
    >)
        requires
            distribute_fits(old(self)@, caller, amount),
        ensures
            old(self).wf() ==> final(self).wf(),
            exists|now: u64|
                (final(self)@, r) == #[trigger] spec_distribute_yield(
                    old(self)@,
                    caller,
                    amount,
                    now,
                ),
            forall|a: u32, ep: u32| #[trigger] final(self).shares_at(a, ep) == old(self).shares_at(a, ep),
            forall|a: u32, ep: u32|
                ep <= old(self)@.current_epoch ==> #[trigger] final(self).pending_for_epoch(a, ep)
                    == old(self).pending_for_epoch(a, ep),
    {
        let now = ledger_timestamp(e);
        self.distribute_yield_at(now, caller, amount)
    }

    /// Distributes `amount` of yield from `caller` as a new epoch at ledger
    /// time `now` and returns the epoch's number.
    pub fn distribute_yield_at(&mut self, now: u64, caller: u32, amount: i128) -> (r: Result<
        u32,
        Error,
    >)
        requires
            distribute_fits(old(self)@, caller, amount),
        ensures
            old(self).wf() ==> final(self).wf(),
            (final(self)@, r) == spec_distribute_yield(old(self)@, caller, amount, now),
            forall|a: u32, e: u32| #[trigger] final(self).shares_at(a, e) == old(self).shares_at(a, e),
            forall|a: u32, ep: u32|
                ep <= old(self)@.current_epoch ==> #[trigger] final(self).pending_for_epoch(a, ep)
                    == old(self).pending_for_epoch(a, ep),
    {
        let ghost pre = *self;
        if !(caller == self.admin || self.operators.contains(&caller)) {
            return Err(Error::NotOperator);
        }
        if self.state != VaultState::Active {
            return Err(Error::InvalidVaultState);
        }
        match crate::math::assert_nonnegative(amount) {
            Err(err) => {
                return Err(err);
            },
            Ok(()) => {},
        }
        if amount == 0 {
            return Err(Error::ZeroAmount);
        }
        let address = self.address;
        self.asset.transfer(caller, address, amount);
        let epoch = crate::storage::get_current_epoch(&self.storage) + 1;
        put_current_epoch(&mut self.storage, epoch);
        put_epoch_yield(&mut self.storage, epoch, amount);
        let supply = self.total_supply;
        put_epoch_total_shares(&mut self.storage, epoch, supply);
        self.total_assets = self.total_assets + amount;
        let assets_now = self.total_assets;
        crate::storage::put_epoch_total_assets(&mut self.storage, epoch, assets_now);
        crate::storage::put_epoch_timestamp(&mut self.storage, epoch, now);
        self.total_yield_distributed = self.total_yield_distributed + amount;
        self.events.push(VaultEvent::YieldDistributed { epoch, amount, timestamp: now });
        proof {
            if pre.wf() {
                lemma_wf_after_distribution(&pre, self);
            }
        }
        Ok(epoch)
    }

    fn shares_at_exec(&self, who: u32, epoch: u32) -> (r: i128)
        ensures
            r == self.shares_at(who, epoch),
    {
        if epoch > self.last_interaction_epoch(who) {
            self.balance(who)
        } else {
            match self.snapshots.get(&account_epoch_key_exec(who, epoch)) {
                Some(s) => *s,
                None => 0,
            }
        }
    }

    /// The yield `who` can still claim for `epoch`.
    pub fn pending_yield_for_epoch(&self, e: &Env, who: u32, epoch: u32) -> (r: i128)
        requires
            self.epoch_term_in_range(who, epoch),
        ensures
            r == self.pending_for_epoch(who, epoch),
    {
        let total = get_epoch_total_shares(&self.storage, epoch);
        let cur = crate::storage::get_current_epoch(&self.storage);
        if epoch == 0 || epoch > cur || total == 0 {
            return 0;
        }
        if self.claimed.contains(&account_epoch_key_exec(who, epoch)) {
            return 0;
        }
        let shares = self.shares_at_exec(who, epoch);
        let amount = get_epoch_yield(&self.storage, epoch);
        mul_div(e, shares, amount, total)
    }

    /// The yield `who` can still claim over all epochs so far.
    pub fn pending_yield(&self, e: &Env, who: u32) -> (r: i128)
        requires
            self.yield_computable(who),
        ensures
            r == self.pending_sum(who, self@.current_epoch as nat),
    {
        let cur = crate::storage::get_current_epoch(&self.storage);
        let mut sum: i128 = 0;
        let mut ep: u32 = 0;
        while ep < cur
            invariant
                ep <= cur,
                cur == self@.current_epoch,
                self.yield_computable(who),
                sum == self.pending_sum(who, ep as nat),
            decreases cur - ep,
        {
            ep = ep + 1;
            assert(self.epoch_term_in_range(who, ep));
            let term = self.pending_yield_for_epoch(e, who, ep);
            assert(in_i128(self.pending_sum(who, ep as nat)));
            sum = sum + term;
        }
        sum
    }
}

/// With every epoch `1..=n` of `who` claimed, nothing is pending over them.
proof fn lemma_pending_sum_zero_when_claimed(v: &Vault, who: u32, n: nat)
    requires
        forall|e: u32| 1 <= e <= n ==> #[trigger] v@.claimed.contains((who, e)),
    ensures
        v.pending_sum(who, n) == 0,
    decreases n,
{
    if n > 0 {
        lemma_pending_sum_zero_when_claimed(v, who, (n - 1) as nat);
        if n <= u32::MAX {
            assert(v@.claimed.contains((who, n as u32)));
        }
    }
}

impl Vault {
    /// Claims all the yield `who` is owed. Every epoch so far is marked
    /// claimed; the vault pays out as much of the total as its asset balance
    /// covers, returns that amount, and records the rest as `who`'s
    /// shortfall. Refused with `NoYieldToClaim` when nothing is owed.
    pub fn claim_yield(&mut self, e: &Env, who: u32) -> (r: Result<i128, Error>)
        requires
            old(self).claim_fits(who),
        ensures
            old(self).wf() ==> final(self).wf(),
            ({
                let total = old(self).pending_sum(who, old(self)@.current_epoch as nat);
                if total <= 0 {
                    &&& r == Err::<i128, Error>(Error::NoYieldToClaim)
                    &&& final(self)@ == old(self)@
                } else {
                    &&& r == Ok::<i128, Error>(claim_payout(old(self)@, total) as i128)
                    &&& final(self)@ == spec_claim_apply(old(self)@, who, total)
                }
            }),
            forall|a: u32, ep: u32| #[trigger] final(self).shares_at(a, ep) == old(self).shares_at(a, ep),
            r is Ok ==> final(self).pending_sum(who, final(self)@.current_epoch as nat) == 0,
    {
        let ghost pre = *self;
        let total = self.pending_yield(e, who);
        if total <= 0 {
            return Err(Error::NoYieldToClaim);
        }
        let ghost v0 = self@;
        let ghost old_claimed = self.claimed@;
        let cur = crate::storage::get_current_epoch(&self.storage);
        let mut ep: u32 = 0;
        while ep < cur
            invariant
                ep <= cur,
                cur == v0.current_epoch,
                self.storage == old(self).storage,
                self.asset == old(self).asset,
                self.balances == old(self).balances,
                self.last_epoch == old(self).last_epoch,
                self.snapshots == old(self).snapshots,
                self.address == old(self).address,
                self.admin == old(self).admin,
                self.operators == old(self).operators,
                self.state == old(self).state,
                self.funding_target == old(self).funding_target,
                self.min_deposit == old(self).min_deposit,
                self.max_deposit_per_user == old(self).max_deposit_per_user,
                self.total_supply == old(self).total_supply,
                self.total_assets == old(self).total_assets,
                self.total_principal == old(self).total_principal,
                self.total_yield_distributed == old(self).total_yield_distributed,
                self.total_yield_claimed == old(self).total_yield_claimed,
                self.deposited == old(self).deposited,
                self.user_yield_claimed == old(self).user_yield_claimed,
                self.shortfall == old(self).shortfall,
                self.invested == old(self).invested,
                self.epoch_activity == old(self).epoch_activity,
                self.lifetime == old(self).lifetime,
                self.events == old(self).events,
                forall|a: u32, f: u32|
                    #[trigger] self.claimed@.contains(account_epoch_key(a, f)) <==> (
                    old_claimed.contains(account_epoch_key(a, f)) || (a == who && 1 <= f <= ep)),
            decreases cur - ep,
        {
            ep = ep + 1;
            let k = account_epoch_key_exec(who, ep);
            let ghost prev = self.claimed@;
            self.claimed.insert(k);
            assert forall|a: u32, f: u32|
                #[trigger] self.claimed@.contains(account_epoch_key(a, f)) <==> (
                old_claimed.contains(account_epoch_key(a, f)) || (a == who && 1 <= f <= ep)) by {
                lemma_account_epoch_key_injective(a, f, who, ep);
                assert(prev.contains(account_epoch_key(a, f)) <==> (old_claimed.contains(
                    account_epoch_key(a, f),
                ) || (a == who && 1 <= f <= ep - 1)));
            }
        }
        let address = self.address;
        let available = self.asset.balance(address);
        let paid: i128 = if total <= available {
            total
        } else if available > 0 {
            available
        } else {
            0
        };
        if paid > 0 {
            self.asset.transfer(address, who, paid);
        }
        if total > paid {
            let sf = self.get_yield_shortfall(who);
            self.shortfall.insert(who, sf + (total - paid));
            self.events.push(
                VaultEvent::PartialYieldClaim { user: who, paid, shortfall: total - paid },
            );
        }
        let yc = match self.user_yield_claimed.get(&who) {
            Some(c) => *c,
            None => 0,
        };
        self.user_yield_claimed.insert(who, yc + paid);
        self.total_yield_claimed = self.total_yield_claimed + paid;
        self.total_assets = self.total_assets - paid;
        let stats = self.get_epoch_activity(cur);
        self.epoch_activity.insert(cur, record_claim(stats, paid));
        self.lifetime = record_claim(self.lifetime, paid);
        assert(self@.claimed =~= v0.claimed.union(epochs_through(who, v0.current_epoch)));
        proof {
            assert forall|f: u32| 1 <= f <= self@.current_epoch implies #[trigger] self@.claimed.contains(
                (who, f),
            ) by {
                assert(self.claimed@.contains(account_epoch_key(who, f)));
            }
            lemma_pending_sum_zero_when_claimed(self, who, self@.current_epoch as nat);
        }
        proof {
            if pre.wf() {
                lemma_balances_bounded_same(pre@, self@);
                lemma_wf_frame(&pre, self);
            }
        }
        Ok(paid)
    }
}

impl Vault {
    /// Mints `amount` of the underlying asset to `to` (the asset contract's
    /// own operation, reached through the vault's ledger).
    pub fn mint_asset(&mut self, to: u32, amount: i128)
        requires
            amount >= 0,
            balance_of(old(self)@.asset, to) + amount <= i128::MAX,
        ensures
            old(self).wf() ==> final(self).wf(),
            final(self)@ == (VaultView { asset: spec_mint(old(self)@.asset, to, amount), ..old(self)@ }),
            forall|a: u32, e: u32| #[trigger] final(self).shares_at(a, e) == old(self).shares_at(a, e),
    {
        let ghost pre = *self;
        self.asset.mint(to, amount);
        proof {
            if pre.wf() {
                lemma_balances_bounded_same(pre@, self@);
                lemma_wf_frame(&pre, self);
            }
        }
    }

    /// Moves `amount` of the underlying asset from `from` to `to` (the asset
    /// contract's own operation, reached through the vault's ledger).
    pub fn transfer_asset(&mut self, from: u32, to: u32, amount: i128)
        requires
            0 <= amount <= balance_of(old(self)@.asset, from),
            from != to ==> balance_of(old(self)@.asset, to) + amount <= i128::MAX,
        ensures
            old(self).wf() ==> final(self).wf(),
            final(self)@ == (VaultView {
                asset: spec_transfer(old(self)@.asset, from, to, amount),
                ..old(self)@
            }),
            forall|a: u32, e: u32| #[trigger] final(self).shares_at(a, e) == old(self).shares_at(a, e),
    {
        let ghost pre = *self;
        self.asset.transfer(from, to, amount);
        proof {
            if pre.wf() {
                lemma_balances_bounded_same(pre@, self@);
                lemma_wf_frame(&pre, self);
            }
        }
    }
}

/// Changing the minimum deposit: a manager may, to any non-negative amount.
pub open spec fn spec_set_min_deposit(v: VaultView, caller: u32, min_deposit: i128) -> (
    VaultView,
    Result<(), Error>,
) {
    if !is_manager(v, caller) {
        (v, Err(Error::NotOperator))
    } else if min_deposit < 0 {
        (v, Err(Error::ZeroAmount))
    } else {
        (VaultView { min_deposit, ..v }, Ok(()))
    }
}

impl Vault {
    /// Sets the smallest deposit accepted.
    pub fn set_min_deposit(&mut self, caller: u32, min_deposit: i128) -> (r: Result<(), Error>)
        ensures
            old(self).wf() ==> final(self).wf(),
            (final(self)@, r) == spec_set_min_deposit(old(self)@, caller, min_deposit),
            forall|a: u32, e: u32| #[trigger] final(self).shares_at(a, e) == old(self).shares_at(a, e),
    {
        let ghost pre = *self;
        if !(caller == self.admin || self.operators.contains(&caller)) {
            return Err(Error::NotOperator);
        }
        match crate::math::assert_nonnegative(min_deposit) {
            Err(err) => {
                return Err(err);
            },
            Ok(()) => {},
        }
        self.min_deposit = min_deposit;
        proof {
            if pre.wf() {
                lemma_balances_bounded_same(pre@, self@);
                lemma_wf_frame(&pre, self);
            }
        }
        Ok(())
    }
}

/// The first deposit into an empty vault mints exactly as many shares as
/// assets deposited; more generally, whenever shares and assets stand at
/// 1:1, a deposit converts 1:1.
pub proof fn lemma_deposit_at_par_is_one_to_one(v: VaultView, assets: i128)
    requires
        v.total_supply == v.total_assets,
        v.total_assets + VIRTUAL_OFFSET > 0,
    ensures
        spec_convert_to_shares(v, assets) == assets,
{
    crate::math::lemma_mul_div_same_divisor(assets as int, v.total_assets + VIRTUAL_OFFSET);
}

/// Once yield has raised the assets above the share supply, a deposit
/// mints no more shares than the assets it brings.
pub proof fn lemma_deposit_above_par_mints_fewer_shares(v: VaultView, assets: i128)
    requires
        assets >= 0,
        0 <= v.total_supply <= v.total_assets,
    ensures
        0 <= spec_convert_to_shares(v, assets) <= assets,
{
    let n = v.total_supply + VIRTUAL_OFFSET;
    let d = v.total_assets + VIRTUAL_OFFSET;
    assert(assets * n >= 0) by (nonlinear_arith)
        requires
            assets >= 0,
            n > 0,
    ;
    crate::math::lemma_mul_div_is_floor(assets as int, n, d);
    let q = spec_convert_to_shares(v, assets);
    assert(q <= assets) by (nonlinear_arith)
        requires
            d * q <= assets * n,
            0 < n <= d,
            assets >= 0,
    ;
}

/// A claim accounts for every unit owed: what it pays plus what it adds to
/// the claimant's shortfall is the pending total; the payout is never
/// negative nor more than owed, leaves the vault's asset balance and reaches
/// the claimant's, and is added to the yield claimed.
pub proof fn lemma_claim_accounts_for_all_owed(v: VaultView, who: u32, total: int)
    requires
        total > 0,
        in_i128(total),
        in_i128(value_or_zero(v.shortfall, who) + total),
        who != v.address ==> balance_of(v.asset, who) + total <= i128::MAX,
        in_i128(v.total_yield_claimed + claim_payout(v, total)),
    ensures
        ({
            let w = spec_claim_apply(v, who, total);
            let paid = claim_payout(v, total);
            &&& 0 <= paid <= total
            &&& paid <= balance_of(v.asset, v.address) || paid == 0
            &&& paid + (value_or_zero(w.shortfall, who) - value_or_zero(v.shortfall, who)) == total
            &&& who != v.address ==> balance_of(w.asset, v.address) == balance_of(v.asset, v.address)
                - paid
            &&& who != v.address ==> balance_of(w.asset, who) == balance_of(v.asset, who) + paid
            &&& w.total_yield_claimed == v.total_yield_claimed + paid
        }),
{
    let paid = claim_payout(v, total);
    let w = spec_claim_apply(v, who, total);
    assert(0 <= paid <= total);
    if paid > 0 {
        crate::token::lemma_transfer_conserves(v.asset, v.address, who, paid as i128, who);
    }
    assert(paid + (value_or_zero(w.shortfall, who) - value_or_zero(v.shortfall, who)) == total);
}

/// No holder is owed more for an epoch than the epoch's yield, as long as
/// the shares it is paid on are no more than the supply recorded for it.
pub proof fn lemma_epoch_payout_within_yield(vault: &Vault, who: u32, epoch: u32)
    requires
        0 <= vault.shares_at(who, epoch) <= value_or_zero(vault@.epoch_total_shares, epoch),
        value_or_zero(vault@.epoch_yield, epoch) >= 0,
    ensures
        0 <= vault.pending_for_epoch(who, epoch) <= value_or_zero(vault@.epoch_yield, epoch),
{
    let s = vault.shares_at(who, epoch) as int;
    let y = value_or_zero(vault@.epoch_yield, epoch) as int;
    let t = value_or_zero(vault@.epoch_total_shares, epoch) as int;
    if t != 0 {
        assert(s * y >= 0) by (nonlinear_arith)
            requires
                s >= 0,
                y >= 0,
        ;
        assert(s * y <= t * y) by (nonlinear_arith)
            requires
                0 <= s <= t,
                y >= 0,
        ;
        crate::math::lemma_mul_div_is_floor(s, y, t);
        let q = spec_mul_div(s, y, t);
        assert(q <= y) by (nonlinear_arith)
            requires
                t * q <= s * y,
                s * y <= t * y,
                t > 0,
        ;
    }
}

/// `s` with one more withdrawal of `assets`, and one more exiting investor
/// when `exit` holds.
pub open spec fn stats_with_withdrawal(s: ActivityStats, assets: i128, exit: bool) -> ActivityStats {
    ActivityStats {
        withdrawals_count: (s.withdrawals_count + 1) as u32,
        withdrawals_volume: (s.withdrawals_volume + assets) as i128,
        exiting_investors: if exit {
            (s.exiting_investors + 1) as u32
        } else {
            s.exiting_investors
        },
        ..s
    }
}

/// `s` with one more share transfer of `shares`.
pub open spec fn stats_with_transfer(s: ActivityStats, shares: i128) -> ActivityStats {
    ActivityStats {
        transfers_count: (s.transfers_count + 1) as u32,
        transfers_volume: (s.transfers_volume + shares) as i128,
        ..s
    }
}

/// Room in `s` to count one more withdrawal of `assets`.
pub open spec fn withdrawal_fits_stats(s: ActivityStats, assets: i128) -> bool {
    &&& s.withdrawals_count < u32::MAX
    &&& s.exiting_investors < u32::MAX
    &&& in_i128(s.withdrawals_volume + assets)
}

/// Room in `s` to count one more transfer of `shares`.
pub open spec fn transfer_fits_stats(s: ActivityStats, shares: i128) -> bool {
    &&& s.transfers_count < u32::MAX
    &&& in_i128(s.transfers_volume + shares)
}

fn record_withdrawal(s: ActivityStats, assets: i128, exit: bool) -> (r: ActivityStats)
    requires
        withdrawal_fits_stats(s, assets),
    ensures
        r == stats_with_withdrawal(s, assets, exit),
{
    ActivityStats {
        withdrawals_count: s.withdrawals_count + 1,
        withdrawals_volume: s.withdrawals_volume + assets,
        exiting_investors: if exit {
            s.exiting_investors + 1
        } else {
            s.exiting_investors
        },
        ..s
    }
}

fn record_transfer(s: ActivityStats, shares: i128) -> (r: ActivityStats)
    requires
        transfer_fits_stats(s, shares),
    ensures
        r == stats_with_transfer(s, shares),
{
    ActivityStats {
        transfers_count: s.transfers_count + 1,
        transfers_volume: s.transfers_volume + shares,
        ..s
    }
}

/// Shares burned to withdraw `assets`, virtual offset included, rounded up
/// so that the vault never pays out more than the shares are worth.
pub open spec fn spec_shares_for_withdrawal(v: VaultView, assets: i128) -> int {
    crate::math::spec_mul_div_ceil(
        assets as int,
        v.total_supply + VIRTUAL_OFFSET,
        v.total_assets + VIRTUAL_OFFSET,
    )
}

/// Assets paid for redeeming `shares`, virtual offset included, rounded down.
pub open spec fn spec_convert_to_assets(v: VaultView, shares: i128) -> int {
    spec_mul_div(shares as int, v.total_assets + VIRTUAL_OFFSET, v.total_supply + VIRTUAL_OFFSET)
}

/// The arithmetic of `owner` giving up `shares` for `assets` paid to
/// `receiver` stays in range, the owner holds the shares and the vault the
/// assets.
pub open spec fn exit_fits(v: VaultView, owner: u32, shares: int, assets: int, receiver: u32) -> bool {
    &&& 0 <= shares <= value_or_zero(v.balances, owner)
    &&& 0 <= assets <= balance_of(v.asset, v.address)
    &&& (receiver != v.address ==> balance_of(v.asset, receiver) + assets <= i128::MAX)
    &&& in_i128(v.total_supply - shares)
    &&& in_i128(v.total_assets - assets)
    &&& in_i128(v.total_principal - assets)
    &&& withdrawal_fits_stats(stats_at(v.epoch_activity, v.current_epoch), assets as i128)
    &&& withdrawal_fits_stats(v.lifetime, assets as i128)
}

/// The vault after `owner` burns `shares` and `receiver` is paid `assets`;
/// the owner exits when no shares are left.
pub open spec fn spec_exit(v: VaultView, owner: u32, shares: i128, assets: i128, receiver: u32) -> VaultView {
    let remaining = (value_or_zero(v.balances, owner) - shares) as i128;
    let w = spec_checkpoint(v, owner);
    VaultView {
        asset: spec_transfer(v.asset, v.address, receiver, assets),
        balances: v.balances.insert(owner, remaining),
        total_supply: (v.total_supply - shares) as i128,
        total_assets: (v.total_assets - assets) as i128,
        total_principal: (v.total_principal - assets) as i128,
        epoch_activity: v.epoch_activity.insert(
            v.current_epoch,
            stats_with_withdrawal(stats_at(v.epoch_activity, v.current_epoch), assets, remaining == 0),
        ),
        lifetime: stats_with_withdrawal(v.lifetime, assets, remaining == 0),
        events: v.events.push(
            VaultEvent::Withdraw { caller: owner, receiver, owner, assets, shares },
        ),
        ..w
    }
}

/// The error a withdrawal or redemption of `amount` is refused with, if any.
pub open spec fn exit_error(v: VaultView, amount: i128) -> Option<Error> {
    if amount <= 0 {
        Some(Error::ZeroAmount)
    } else if v.state != VaultState::Active {
        Some(Error::InvalidVaultState)
    } else {
        None
    }
}

/// The conversions of a withdrawal of `assets` are defined and in range,
/// and the exit it makes fits.
pub open spec fn withdraw_fits(v: VaultView, owner: u32, assets: i128, receiver: u32) -> bool {
    exit_error(v, assets) is None ==> {
        &&& in_i128(v.total_supply + VIRTUAL_OFFSET)
        &&& in_i128(v.total_assets + VIRTUAL_OFFSET)
        &&& v.total_assets + VIRTUAL_OFFSET != 0
        &&& in_i128(spec_shares_for_withdrawal(v, assets))
        &&& exit_fits(v, owner, spec_shares_for_withdrawal(v, assets), assets as int, receiver)
    }
}

/// A withdrawal: `owner` burns the shares `assets` is worth, rounded up,
/// and `receiver` is paid `assets`.
pub open spec fn spec_withdraw(v: VaultView, owner: u32, assets: i128, receiver: u32) -> (
    VaultView,
    Result<i128, Error>,
) {
    match exit_error(v, assets) {
        Some(err) => (v, Err(err)),
        None => {
            let shares = spec_shares_for_withdrawal(v, assets) as i128;
            (spec_exit(v, owner, shares, assets, receiver), Ok(shares))
        },
    }
}

/// The conversions of a redemption of `shares` are defined and in range,
/// and the exit it makes fits.
pub open spec fn redeem_fits(v: VaultView, owner: u32, shares: i128, receiver: u32) -> bool {
    exit_error(v, shares) is None ==> {
        &&& in_i128(v.total_supply + VIRTUAL_OFFSET)
        &&& in_i128(v.total_assets + VIRTUAL_OFFSET)
        &&& v.total_supply + VIRTUAL_OFFSET != 0
        &&& in_i128(spec_convert_to_assets(v, shares))
        &&& exit_fits(v, owner, shares as int, spec_convert_to_assets(v, shares), receiver)
    }
}

/// A redemption: `owner` burns `shares` and `receiver` is paid what they
/// are worth, rounded down.
pub open spec fn spec_redeem(v: VaultView, owner: u32, shares: i128, receiver: u32) -> (
    VaultView,
    Result<i128, Error>,
) {
    match exit_error(v, shares) {
        Some(err) => (v, Err(err)),
        None => {
            let assets = spec_convert_to_assets(v, shares) as i128;
            (spec_exit(v, owner, shares, assets, receiver), Ok(assets))
        },
    }
}

/// The arithmetic of a share transfer stays in range and `from` holds the
/// shares.
pub open spec fn transfer_fits(v: VaultView, from: u32, to: u32, shares: i128) -> bool {
    shares > 0 ==> {
        &&& shares <= value_or_zero(v.balances, from)
        &&& (from != to ==> value_or_zero(v.balances, to) + shares <= i128::MAX)
        &&& transfer_fits_stats(stats_at(v.epoch_activity, v.current_epoch), shares)
        &&& transfer_fits_stats(v.lifetime, shares)
    }
}

/// A share transfer from `from` to `to`; refused with `ZeroAmount` for a
/// non-positive amount.
pub open spec fn spec_transfer_shares(v: VaultView, from: u32, to: u32, shares: i128) -> (
    VaultView,
    Result<(), Error>,
) {
    if shares <= 0 {
        (v, Err(Error::ZeroAmount))
    } else {
        let w = spec_checkpoint(spec_checkpoint(v, from), to);
        let debited = v.balances.insert(from, (value_or_zero(v.balances, from) - shares) as i128);
        (
            VaultView {
                balances: debited.insert(to, (value_or_zero(debited, to) + shares) as i128),
                epoch_activity: v.epoch_activity.insert(
                    v.current_epoch,
                    stats_with_transfer(stats_at(v.epoch_activity, v.current_epoch), shares),
                ),
                lifetime: stats_with_transfer(v.lifetime, shares),
                ..w
            },
            Ok(()),
        )
    }
}

impl Vault {
    fn exit_position(&mut self, owner: u32, shares: i128, assets: i128, receiver: u32)
        requires
            exit_fits(old(self)@, owner, shares as int, assets as int, receiver),
        ensures
            old(self).wf() ==> final(self).wf(),
            final(self)@ == spec_exit(old(self)@, owner, shares, assets, receiver),
            forall|a: u32, ep: u32|
                (a != owner || ep <= old(self)@.current_epoch) ==> #[trigger] final(self).shares_at(
                    a,
                    ep,
                ) == old(self).shares_at(a, ep),
    {
        let ghost pre = *self;
        let address = self.address;
        self.asset.transfer(address, receiver, assets);
        self.checkpoint(owner);
        let ghost mid = *self;
        let bal = self.balance(owner);
        let remaining = bal - shares;
        self.balances.insert(owner, remaining);
        self.total_supply = self.total_supply - shares;
        self.total_assets = self.total_assets - assets;
        self.total_principal = self.total_principal - assets;
        let cur = crate::storage::get_current_epoch(&self.storage);
        let stats = self.get_epoch_activity(cur);
        self.epoch_activity.insert(cur, record_withdrawal(stats, assets, remaining == 0));
        self.lifetime = record_withdrawal(self.lifetime, assets, remaining == 0);
        self.events.push(VaultEvent::Withdraw { caller: owner, receiver, owner, assets, shares });
        proof {
            if pre.wf() {
                lemma_balances_bounded_after_burn(
                    pre@.balances,
                    pre@.total_supply as int,
                    owner,
                    remaining,
                );
            }
        }
        assert forall|a: u32, ep: u32|
            (a != owner || ep <= old(self)@.current_epoch) implies #[trigger] self.shares_at(a, ep)
                == mid.shares_at(a, ep) by {
            assert(last_interaction_of(self@, a) == last_interaction_of(mid@, a));
        }
        proof {
            if pre.wf() {
                assert(self@.balances =~= pre@.balances.insert(owner, remaining));
                assert forall|who: u32| #[trigger] value_or_zero(self@.balances, who) >= 0 by {
                    assert(value_or_zero(pre@.balances, who) >= 0);
                }
                lemma_wf_frame(&pre, self);
            }
        }
    }

    /// Withdraws exactly `assets` to `receiver`, burning from `owner` the
    /// shares they are worth rounded up, and returns the shares burned.
    /// Refused with `ZeroAmount` for a non-positive amount and
    /// `InvalidVaultState` unless the vault is active.
    pub fn withdraw(&mut self, e: &Env, owner: u32, assets: i128, receiver: u32) -> (r: Result<
        i128,
        Error,
    >)
        requires
            withdraw_fits(old(self)@, owner, assets, receiver),
        ensures
            old(self).wf() ==> final(self).wf(),
            (final(self)@, r) == spec_withdraw(old(self)@, owner, assets, receiver),
            forall|a: u32, ep: u32|
                (a != owner || ep <= old(self)@.current_epoch) ==> #[trigger] final(self).shares_at(
                    a,
                    ep,
                ) == old(self).shares_at(a, ep),
            forall|a: u32, ep: u32|
                ep <= old(self)@.current_epoch ==> #[trigger] final(self).pending_for_epoch(a, ep)
                    == old(self).pending_for_epoch(a, ep),
    {
        match crate::math::assert_nonnegative(assets) {
            Err(err) => {
                return Err(err);
            },
            Ok(()) => {},
        }
        if assets == 0 {
            return Err(Error::ZeroAmount);
        }
        if self.state != VaultState::Active {
            return Err(Error::InvalidVaultState);
        }
        let shares = crate::math::mul_div_ceil(
            e,
            assets,
            self.total_supply + VIRTUAL_OFFSET,
            self.total_assets + VIRTUAL_OFFSET,
        );
        self.exit_position(owner, shares, assets, receiver);
        Ok(shares)
    }

    /// Redeems `shares` of `owner`, paying `receiver` what they are worth
    /// rounded down, and returns the assets paid. Refused with `ZeroAmount`
    /// for a non-positive amount and `InvalidVaultState` unless the vault is
    /// active.
    pub fn redeem(&mut self, e: &Env, owner: u32, shares: i128, receiver: u32) -> (r: Result<
        i128,
        Error,
    >)
        requires
            redeem_fits(old(self)@, owner, shares, receiver),
        ensures
            old(self).wf() ==> final(self).wf(),
            (final(self)@, r) == spec_redeem(old(self)@, owner, shares, receiver),
            forall|a: u32, ep: u32|
                (a != owner || ep <= old(self)@.current_epoch) ==> #[trigger] final(self).shares_at(
                    a,
                    ep,
                ) == old(self).shares_at(a, ep),
            forall|a: u32, ep: u32|
                ep <= old(self)@.current_epoch ==> #[trigger] final(self).pending_for_epoch(a, ep)
                    == old(self).pending_for_epoch(a, ep),
    {
        match crate::math::assert_nonnegative(shares) {
            Err(err) => {
                return Err(err);
            },
            Ok(()) => {},
        }
        if shares == 0 {
            return Err(Error::ZeroAmount);
        }
        if self.state != VaultState::Active {
            return Err(Error::InvalidVaultState);
        }
        let assets = mul_div(
            e,
            shares,
            self.total_assets + VIRTUAL_OFFSET,
            self.total_supply + VIRTUAL_OFFSET,
        );
        self.exit_position(owner, shares, assets, receiver);
        Ok(assets)
    }

    /// Moves `shares` from `from` to `to`. Refused with `ZeroAmount` for a
    /// non-positive amount.
    pub fn transfer(&mut self, from: u32, to: u32, shares: i128) -> (r: Result<(), Error>)
        requires
            transfer_fits(old(self)@, from, to, shares),
        ensures
            old(self).wf() ==> final(self).wf(),
            (final(self)@, r) == spec_transfer_shares(old(self)@, from, to, shares),
            forall|a: u32, ep: u32|
                ((a != from && a != to) || ep <= old(self)@.current_epoch)
                    ==> #[trigger] final(self).shares_at(a, ep) == old(self).shares_at(a, ep),
            forall|a: u32, ep: u32|
                ep <= old(self)@.current_epoch ==> #[trigger] final(self).pending_for_epoch(a, ep)
                    == old(self).pending_for_epoch(a, ep),
    {
        let ghost pre = *self;
        match crate::math::assert_nonnegative(shares) {
            Err(err) => {
                return Err(err);
            },
            Ok(()) => {},
        }
        if shares == 0 {
            return Err(Error::ZeroAmount);
        }
        self.checkpoint(from);
        self.checkpoint(to);
        let ghost mid = *self;
        let fb = self.balance(from);
        self.balances.insert(from, fb - shares);
        let tb = self.balance(to);
        self.balances.insert(to, tb + shares);
        let cur = crate::storage::get_current_epoch(&self.storage);
        let stats = self.get_epoch_activity(cur);
        self.epoch_activity.insert(cur, record_transfer(stats, shares));
        self.lifetime = record_transfer(self.lifetime, shares);
        assert forall|a: u32, ep: u32|
            ((a != from && a != to) || ep <= old(self)@.current_epoch) implies #[trigger] self.shares_at(
                a,
                ep,
            ) == mid.shares_at(a, ep) by {
            assert(last_interaction_of(self@, a) == last_interaction_of(mid@, a));
        }
        proof {
            if pre.wf() {
                lemma_balances_bounded_after_burn(
                    pre@.balances,
                    pre@.total_supply as int,
                    from,
                    (fb - shares) as i128,
                );
                let debited = pre@.balances.insert(from, (fb - shares) as i128);
                lemma_balances_bounded_after_mint(
                    debited,
                    pre@.total_supply - shares,
                    to,
                    (tb + shares) as i128,
                );
                assert forall|who: u32| #[trigger] value_or_zero(self@.balances, who) >= 0 by {
                    assert(value_or_zero(pre@.balances, who) >= 0);
                }
                lemma_wf_frame(&pre, self);
            }
        }
        Ok(())
    }
}

/// Why a previewed deposit would not go through (`Accepted` when it would).
#[derive(Clone, Copy, Debug, PartialEq, Eq, Structural)]
pub enum SafePreviewDepositReason {
    Accepted,
    ZeroAmount,
    BelowMinimumDeposit,
    ExceedsMaximumDeposit,
    FundingTargetExceeded,
}

/// Outcome of previewing a deposit: whether it would go through, the
/// shares it would mint (zero when it would not), and why not.
#[derive(Clone, Copy, Debug, PartialEq, Eq, Structural)]
pub struct SafePreviewDepositResult {
    pub ok: bool,
    pub shares: i128,
    pub reason: SafePreviewDepositReason,
}

/// Why a previewed mint would not go through (`Accepted` when it would).
#[derive(Clone, Copy, Debug, PartialEq, Eq, Structural)]
pub enum SafePreviewMintReason {
    Accepted,
    ZeroAmount,
    BelowMinimumDeposit,
    ExceedsMaximumDeposit,
    FundingTargetExceeded,
}

/// Outcome of previewing a mint: whether it would go through, the assets
/// it would cost (zero when it would not), and why not.
#[derive(Clone, Copy, Debug, PartialEq, Eq, Structural)]
pub struct SafePreviewMintResult {
    pub ok: bool,
    pub assets: i128,
    pub reason: SafePreviewMintReason,
}

/// The deposit limits a paying-in of `assets` would break, checked in
/// order: the minimum, the per-account maximum (when one is set), and,
/// while funding, a non-zero funding target.
pub open spec fn limit_breach(v: VaultView, assets: int) -> Option<SafePreviewDepositReason> {
    if assets < v.min_deposit {
        Some(SafePreviewDepositReason::BelowMinimumDeposit)
    } else if v.max_deposit_per_user > 0 && assets > v.max_deposit_per_user {
        Some(SafePreviewDepositReason::ExceedsMaximumDeposit)
    } else if v.state == VaultState::Funding && v.funding_target > 0 && v.total_assets + assets
        > v.funding_target {
        Some(SafePreviewDepositReason::FundingTargetExceeded)
    } else {
        None
    }
}

/// Why a deposit of `assets` would be refused, or `Accepted`.
pub open spec fn deposit_preview_reason(v: VaultView, assets: i128) -> SafePreviewDepositReason {
    if assets <= 0 {
        SafePreviewDepositReason::ZeroAmount
    } else {
        match limit_breach(v, assets as int) {
            Some(reason) => reason,
            None => SafePreviewDepositReason::Accepted,
        }
    }
}

/// The assets minting `shares` costs, virtual offset included, rounded up.
pub open spec fn spec_assets_for_mint(v: VaultView, shares: i128) -> int {
    crate::math::spec_mul_div_ceil(
        shares as int,
        v.total_assets + VIRTUAL_OFFSET,
        v.total_supply + VIRTUAL_OFFSET,
    )
}

/// The same reason, for a mint.
pub open spec fn as_mint_reason(r: SafePreviewDepositReason) -> SafePreviewMintReason {
    match r {
        SafePreviewDepositReason::Accepted => SafePreviewMintReason::Accepted,
        SafePreviewDepositReason::ZeroAmount => SafePreviewMintReason::ZeroAmount,
        SafePreviewDepositReason::BelowMinimumDeposit => SafePreviewMintReason::BelowMinimumDeposit,
        SafePreviewDepositReason::ExceedsMaximumDeposit => SafePreviewMintReason::ExceedsMaximumDeposit,
        SafePreviewDepositReason::FundingTargetExceeded => SafePreviewMintReason::FundingTargetExceeded,
    }
}

/// Why minting `shares` would be refused, or `Accepted`; the limits apply to
/// the assets the mint costs.
pub open spec fn mint_preview_reason(v: VaultView, shares: i128) -> SafePreviewMintReason {
    if shares <= 0 {
        SafePreviewMintReason::ZeroAmount
    } else {
        match limit_breach(v, spec_assets_for_mint(v, shares)) {
            Some(reason) => as_mint_reason(reason),
            None => SafePreviewMintReason::Accepted,
        }
    }
}

/// The exchange rate is defined and the conversions a preview makes stay
/// in range.
pub open spec fn preview_rate_fits(v: VaultView) -> bool {
    &&& in_i128(v.total_supply + VIRTUAL_OFFSET)
    &&& in_i128(v.total_assets + VIRTUAL_OFFSET)
    &&& v.total_assets + VIRTUAL_OFFSET > 0
    &&& v.total_supply + VIRTUAL_OFFSET > 0
}

/// Changing the deposit limits: a manager may, to non-negative amounts
/// (a maximum of zero means no maximum).
pub open spec fn spec_set_deposit_limits(v: VaultView, caller: u32, min: i128, max: i128) -> (
    VaultView,
    Result<(), Error>,
) {
    if !is_manager(v, caller) {
        (v, Err(Error::NotOperator))
    } else if min < 0 || max < 0 {
        (v, Err(Error::ZeroAmount))
    } else {
        (VaultView { min_deposit: min, max_deposit_per_user: max, ..v }, Ok(()))
    }
}

impl Vault {
    fn limit_breach_exec(&self, assets: i128) -> (r: Option<SafePreviewDepositReason>)
        requires
            in_i128(self@.total_assets + assets),
        ensures
            r == limit_breach(self@, assets as int),
    {
        if assets < self.min_deposit {
            Some(SafePreviewDepositReason::BelowMinimumDeposit)
        } else if self.max_deposit_per_user > 0 && assets > self.max_deposit_per_user {
            Some(SafePreviewDepositReason::ExceedsMaximumDeposit)
        } else if self.state == VaultState::Funding && self.funding_target > 0 && self.total_assets
            + assets > self.funding_target {
            Some(SafePreviewDepositReason::FundingTargetExceeded)
        } else {
            None
        }
    }

    /// Previews a deposit of `assets`: whether it would be accepted, the
    /// shares it would mint, and otherwise why it would be refused.
    pub fn safe_preview_deposit(&self, e: &Env, assets: i128) -> (r: SafePreviewDepositResult)
        requires
            preview_rate_fits(self@),
            assets > 0 ==> in_i128(self@.total_assets + assets),
            in_i128(spec_convert_to_shares(self@, assets)),
        ensures
            r.reason == deposit_preview_reason(self@, assets),
            r.ok == (r.reason == SafePreviewDepositReason::Accepted),
            r.shares == (if r.ok {
                spec_convert_to_shares(self@, assets)
            } else {
                0
            }),
    {
        if assets <= 0 {
            return SafePreviewDepositResult {
                ok: false,
                shares: 0,
                reason: SafePreviewDepositReason::ZeroAmount,
            };
        }
        match self.limit_breach_exec(assets) {
            Some(reason) => SafePreviewDepositResult { ok: false, shares: 0, reason },
            None => SafePreviewDepositResult {
                ok: true,
                shares: self.convert_to_shares(e, assets),
                reason: SafePreviewDepositReason::Accepted,
            },
        }
    }

    /// Previews minting `shares`: whether it would be accepted, the assets
    /// it would cost, and otherwise why it would be refused.
    pub fn safe_preview_mint(&self, e: &Env, shares: i128) -> (r: SafePreviewMintResult)
        requires
            preview_rate_fits(self@),
            shares > 0 ==> in_i128(spec_assets_for_mint(self@, shares)),
            shares > 0 ==> in_i128(self@.total_assets + spec_assets_for_mint(self@, shares)),
        ensures
            r.reason == mint_preview_reason(self@, shares),
            r.ok == (r.reason == SafePreviewMintReason::Accepted),
            r.assets == (if r.ok {
                spec_assets_for_mint(self@, shares)
            } else {
                0
            }),
    {
        if shares <= 0 {
            return SafePreviewMintResult {
                ok: false,
                assets: 0,
                reason: SafePreviewMintReason::ZeroAmount,
            };
        }
        let assets = crate::math::mul_div_ceil(
            e,
            shares,
            self.total_assets + VIRTUAL_OFFSET,
            self.total_supply + VIRTUAL_OFFSET,
        );
        match self.limit_breach_exec(assets) {
            Some(reason) => {
                let mint_reason = match reason {
                    SafePreviewDepositReason::Accepted => SafePreviewMintReason::Accepted,
                    SafePreviewDepositReason::ZeroAmount => SafePreviewMintReason::ZeroAmount,
                    SafePreviewDepositReason::BelowMinimumDeposit => SafePreviewMintReason::BelowMinimumDeposit,
                    SafePreviewDepositReason::ExceedsMaximumDeposit => SafePreviewMintReason::ExceedsMaximumDeposit,
                    SafePreviewDepositReason::FundingTargetExceeded => SafePreviewMintReason::FundingTargetExceeded,
                };
                SafePreviewMintResult { ok: false, assets: 0, reason: mint_reason }
            },
            None => SafePreviewMintResult { ok: true, assets, reason: SafePreviewMintReason::Accepted },
        }
    }

    /// Sets the smallest deposit and the per-account maximum (zero for none).
    pub fn set_deposit_limits(&mut self, caller: u32, min: i128, max: i128) -> (r: Result<(), Error>)
        ensures
            old(self).wf() ==> final(self).wf(),
            (final(self)@, r) == spec_set_deposit_limits(old(self)@, caller, min, max),
            forall|a: u32, e: u32| #[trigger] final(self).shares_at(a, e) == old(self).shares_at(a, e),
    {
        let ghost pre = *self;
        if !(caller == self.admin || self.operators.contains(&caller)) {
            return Err(Error::NotOperator);
        }
        if min < 0 || max < 0 {
            return Err(Error::ZeroAmount);
        }
        self.min_deposit = min;
        self.max_deposit_per_user = max;
        proof {
            if pre.wf() {
                lemma_balances_bounded_same(pre@, self@);
                lemma_wf_frame(&pre, self);
            }
        }
        Ok(())
    }
}

/// A deposit the preview accepts goes through for a receiver that has not
/// deposited before, and mints exactly the shares the preview showed.
pub proof fn lemma_accepted_preview_matches_deposit(
    v: VaultView,
    caller: u32,
    assets: i128,
    receiver: u32,
)
    requires
        deposit_preview_reason(v, assets) == SafePreviewDepositReason::Accepted,
        value_or_zero(v.deposited, receiver) == 0,
    ensures
        deposit_error(v, assets, receiver) is None,
        spec_deposit(v, caller, assets, receiver).1 == Ok::<i128, Error>(
            spec_convert_to_shares(v, assets) as i128,
        ),
{
}

/// `floor(ceil(x * n / d) * d / n) >= x`: converting an amount one way
/// rounding up and back rounding down never loses anything.
proof fn lemma_round_trip_up_then_down(x: int, n: int, d: int)
    requires
        x >= 0,
        n > 0,
        d > 0,
    ensures
        spec_mul_div(crate::math::spec_mul_div_ceil(x, n, d), d, n) >= x,
{
    assert(x * n >= 0) by (nonlinear_arith)
        requires
            x >= 0,
            n > 0,
    ;
    crate::math::lemma_mul_div_ceil_is_ceiling(x, n, d);
    let c = crate::math::spec_mul_div_ceil(x, n, d);
    assert(c * d >= 0) by (nonlinear_arith)
        requires
            c >= 0,
            d > 0,
    ;
    crate::math::lemma_mul_div_is_floor(c, d, n);
    let q = spec_mul_div(c, d, n);
    assert(q >= x) by (nonlinear_arith)
        requires
            x * n <= d * c,
            c * d < n * (q + 1),
            n > 0,
    ;
}

/// Paying the assets a mint preview quotes buys at least the shares asked
/// for: the mint cost rounds up and the deposit conversion rounds down, so
/// rounding never works against the vault.
pub proof fn lemma_mint_cost_buys_requested_shares(v: VaultView, shares: i128)
    requires
        shares >= 0,
        v.total_supply + VIRTUAL_OFFSET > 0,
        v.total_assets + VIRTUAL_OFFSET > 0,
        in_i128(spec_assets_for_mint(v, shares)),
    ensures
        spec_convert_to_shares(v, spec_assets_for_mint(v, shares) as i128) >= shares,
{
    lemma_round_trip_up_then_down(
        shares as int,
        v.total_assets + VIRTUAL_OFFSET,
        v.total_supply + VIRTUAL_OFFSET,
    );
}

/// The shares a withdrawal of `assets` burns are worth at least `assets`
/// when redeemed: a withdrawal never takes out more than it pays for.
pub proof fn lemma_withdrawal_burns_enough_shares(v: VaultView, assets: i128)
    requires
        assets >= 0,
        v.total_supply + VIRTUAL_OFFSET > 0,
        v.total_assets + VIRTUAL_OFFSET > 0,
        in_i128(spec_shares_for_withdrawal(v, assets)),
    ensures
        spec_convert_to_assets(v, spec_shares_for_withdrawal(v, assets) as i128) >= assets,
{
    lemma_round_trip_up_then_down(
        assets as int,
        v.total_supply + VIRTUAL_OFFSET,
        v.total_assets + VIRTUAL_OFFSET,
    );
}

/// One whole share, in share units (shares carry the asset's six decimals).
pub const SHARE_UNIT: i128 = 1_000_000;

/// The assets one whole share was worth right after `epoch`'s
/// distribution, by the totals recorded then (virtual offset included,
/// rounded down).
pub open spec fn spec_price_per_share_at(v: VaultView, epoch: u32) -> int {
    spec_mul_div(
        SHARE_UNIT as int,
        value_or_zero(v.epoch_total_assets, epoch) + VIRTUAL_OFFSET,
        value_or_zero(v.epoch_total_shares, epoch) + VIRTUAL_OFFSET,
    )
}

impl Vault {
    /// The price of one whole share right after `epoch`'s distribution.
    pub fn price_per_share_history(&self, e: &Env, epoch: u32) -> (r: i128)
        requires
            in_i128(value_or_zero(self@.epoch_total_assets, epoch) + VIRTUAL_OFFSET),
            in_i128(value_or_zero(self@.epoch_total_shares, epoch) + VIRTUAL_OFFSET),
            value_or_zero(self@.epoch_total_shares, epoch) + VIRTUAL_OFFSET != 0,
            in_i128(spec_price_per_share_at(self@, epoch)),
        ensures
            r == spec_price_per_share_at(self@, epoch),
    {
        let assets = crate::storage::get_epoch_total_assets(&self.storage, epoch);
        let shares = get_epoch_total_shares(&self.storage, epoch);
        mul_div(e, SHARE_UNIT, assets + VIRTUAL_OFFSET, shares + VIRTUAL_OFFSET)
    }
}

/// The error a shortfall resolution is refused with, if any: the caller
/// must be a manager, the amount positive, the account must have a
/// shortfall, and the amount must not exceed it.
pub open spec fn resolve_error(v: VaultView, caller: u32, who: u32, amount: i128) -> Option<Error> {
    let owed = value_or_zero(v.shortfall, who);
    if !is_manager(v, caller) {
        Some(Error::NotOperator)
    } else if amount <= 0 {
        Some(Error::ZeroAmount)
    } else if owed == 0 {
        Some(Error::YieldShortfallNotFound)
    } else if amount > owed {
        Some(Error::InsufficientShortfall)
    } else {
        None
    }
}

/// The vault holds what a resolution pays, and its accounting stays in range.
pub open spec fn resolve_fits(v: VaultView, caller: u32, who: u32, amount: i128) -> bool {
    resolve_error(v, caller, who, amount) is None ==> {
        &&& amount <= balance_of(v.asset, v.address)
        &&& (who != v.address ==> balance_of(v.asset, who) + amount <= i128::MAX)
        &&& in_i128(value_or_zero(v.yield_claimed, who) + amount)
        &&& in_i128(v.total_yield_claimed + amount)
        &&& in_i128(v.total_assets - amount)
    }
}

/// Paying `amount` of `who`'s shortfall out of the vault's assets.
pub open spec fn spec_resolve_yield_shortfall(v: VaultView, caller: u32, who: u32, amount: i128) -> (
    VaultView,
    Result<(), Error>,
) {
    match resolve_error(v, caller, who, amount) {
        Some(err) => (v, Err(err)),
        None => (
            VaultView {
                asset: spec_transfer(v.asset, v.address, who, amount),
                shortfall: v.shortfall.insert(
                    who,
                    (value_or_zero(v.shortfall, who) - amount) as i128,
                ),
                yield_claimed: v.yield_claimed.insert(
                    who,
                    (value_or_zero(v.yield_claimed, who) + amount) as i128,
                ),
                total_yield_claimed: (v.total_yield_claimed + amount) as i128,
                total_assets: (v.total_assets - amount) as i128,
                events: v.events.push(VaultEvent::YieldShortfallResolved { user: who, amount }),
                ..v
            },
            Ok(()),
        ),
    }
}

impl Vault {
    /// Pays `amount` of `who`'s recorded shortfall out of the vault's assets
    /// (once they have been topped up) and reduces the shortfall by it.
    pub fn resolve_yield_shortfall(&mut self, caller: u32, who: u32, amount: i128) -> (r: Result<
        (),
        Error,
    >)
        requires
            resolve_fits(old(self)@, caller, who, amount),
        ensures
            old(self).wf() ==> final(self).wf(),
            (final(self)@, r) == spec_resolve_yield_shortfall(old(self)@, caller, who, amount),
            forall|a: u32, e: u32| #[trigger] final(self).shares_at(a, e) == old(self).shares_at(a, e),
    {
        let ghost pre = *self;
        if !(caller == self.admin || self.operators.contains(&caller)) {
            return Err(Error::NotOperator);
        }
        if amount <= 0 {
            return Err(Error::ZeroAmount);
        }
        let owed = self.get_yield_shortfall(who);
        if owed == 0 {
            return Err(Error::YieldShortfallNotFound);
        }
        if amount > owed {
            return Err(Error::InsufficientShortfall);
        }
        let address = self.address;
        self.asset.transfer(address, who, amount);
        self.shortfall.insert(who, owed - amount);
        let yc = match self.user_yield_claimed.get(&who) {
            Some(c) => *c,
            None => 0,
        };
        self.user_yield_claimed.insert(who, yc + amount);
        self.total_yield_claimed = self.total_yield_claimed + amount;
        self.total_assets = self.total_assets - amount;
        self.events.push(VaultEvent::YieldShortfallResolved { user: who, amount });
        proof {
            if pre.wf() {
                lemma_balances_bounded_same(pre@, self@);
                lemma_wf_frame(&pre, self);
            }
        }
        Ok(())
    }
}

/// A claim followed by resolving the whole shortfall it left pays the
/// claimant exactly the yield that was pending: the claim's payout and the
/// resolution add up to it, and the shortfall returns to what it was.
pub proof fn lemma_claim_then_full_resolution_pays_all_owed(
    v: VaultView,
    caller: u32,
    who: u32,
    total: int,
)
    requires
        total > 0,
        in_i128(total),
        value_or_zero(v.shortfall, who) == 0,
        value_or_zero(v.yield_claimed, who) == 0,
        is_manager(v, caller),
        claim_payout(v, total) < total,
    ensures
        ({
            let w = spec_claim_apply(v, who, total);
            let owed = value_or_zero(w.shortfall, who);
            let (x, r) = spec_resolve_yield_shortfall(w, caller, who, owed);
            &&& owed == total - claim_payout(v, total)
            &&& r == Ok::<(), Error>(())
            &&& value_or_zero(x.yield_claimed, who) == total
            &&& value_or_zero(x.shortfall, who) == 0
        }),
{
}

/// An account's position in the vault.
#[derive(Clone, Copy, Debug, PartialEq, Eq, Structural)]
pub struct UserPosition {
    /// Shares held.
    pub shares: i128,
    /// Yield still claimable over all epochs so far.
    pub pending_yield: i128,
    /// Yield paid out to the account so far.
    pub total_yield_claimed: i128,
    /// The account's part of the share supply, in basis points (rounded down;
    /// zero while no shares exist).
    pub share_percentage: i128,
}

/// Basis points in a whole.
pub const BPS_DENOMINATOR: i128 = 10_000;

/// `who`'s part of the share supply in basis points, rounded down.
pub open spec fn spec_share_percentage(v: VaultView, who: u32) -> int {
    if v.total_supply > 0 {
        spec_mul_div(value_or_zero(v.balances, who) as int, BPS_DENOMINATOR as int, v.total_supply as int)
    } else {
        0
    }
}

/// The basis points of the share supply that `accounts` hold, each account's
/// rounded down on its own.
pub open spec fn sum_share_percentages(v: VaultView, accounts: Seq<u32>) -> int
    decreases accounts.len(),
{
    if accounts.len() == 0 {
        0
    } else {
        sum_share_percentages(v, accounts.drop_last()) + spec_share_percentage(v, accounts.last())
    }
}

/// The share balances of `accounts`, in order.
pub open spec fn holdings_of(v: VaultView, accounts: Seq<u32>) -> Seq<int> {
    accounts.map_values(|a: u32| value_or_zero(v.balances, a) as int)
}

proof fn lemma_holdings_sums(v: VaultView, accounts: Seq<u32>)
    requires
        v.total_supply > 0,
    ensures
        crate::math::sum_of(holdings_of(v, accounts)) == sum_balances(v.balances, accounts),
        crate::math::sum_of_payouts(holdings_of(v, accounts), BPS_DENOMINATOR as int, v.total_supply as int)
            == sum_share_percentages(v, accounts),
    decreases accounts.len(),
{
    if accounts.len() > 0 {
        lemma_holdings_sums(v, accounts.drop_last());
        assert(holdings_of(v, accounts.drop_last()) =~= holdings_of(v, accounts).drop_last());
    }
}

/// The share percentages of the holders add up to the whole, less the
/// rounding: when `accounts` are distinct and hold the entire supply, their
/// basis points add up to at most 10 000 and lose less than one basis point
/// per account.
pub proof fn lemma_share_percentages_add_up_to_the_whole(vault: &Vault, accounts: Seq<u32>)
    requires
        vault.wf(),
        accounts.no_duplicates(),
        vault@.total_supply > 0,
        sum_balances(vault@.balances, accounts) == vault@.total_supply,
    ensures
        BPS_DENOMINATOR - accounts.len() < sum_share_percentages(vault@, accounts) <= BPS_DENOMINATOR,
{
    let v = vault@;
    lemma_holdings_sums(v, accounts);
    let h = holdings_of(v, accounts);
    assert forall|i: int| 0 <= i < h.len() implies h[i] >= 0 by {
        assert(value_or_zero(v.balances, accounts[i]) >= 0);
    }
    crate::math::lemma_pro_rata_payouts_lose_under_one_unit_each(
        h,
        BPS_DENOMINATOR as int,
        v.total_supply as int,
    );
}

impl Vault {
    /// The position of `who`: shares, claimable yield, yield received, and
    /// part of the share supply.
    pub fn get_user_position(&self, e: &Env, who: u32) -> (r: UserPosition)
        requires
            self.yield_computable(who),
            in_i128(spec_share_percentage(self@, who)),
        ensures
            r.shares == value_or_zero(self@.balances, who),
            r.pending_yield == self.pending_sum(who, self@.current_epoch as nat),
            r.total_yield_claimed == value_or_zero(self@.yield_claimed, who),
            r.share_percentage == spec_share_percentage(self@, who),
    {
        let shares = self.balance(who);
        let pending_yield = self.pending_yield(e, who);
        let total_yield_claimed = match self.user_yield_claimed.get(&who) {
            Some(c) => *c,
            None => 0,
        };
        let share_percentage = if self.total_supply > 0 {
            mul_div(e, shares, BPS_DENOMINATOR, self.total_supply)
        } else {
            0
        };
        UserPosition { shares, pending_yield, total_yield_claimed, share_percentage }
    }
}

/// The shares held by `accounts` in a balance map.
pub open spec fn sum_balances(m: Map<u32, i128>, accounts: Seq<u32>) -> int
    decreases accounts.len(),
{
    if accounts.len() == 0 {
        0
    } else {
        sum_balances(m, accounts.drop_last()) + value_or_zero(m, accounts.last())
    }
}

/// No set of distinct accounts holds more shares than exist.
pub open spec fn balances_bounded(v: VaultView) -> bool {
    forall|accounts: Seq<u32>|
        accounts.no_duplicates() ==> #[trigger] sum_balances(v.balances, accounts) <= v.total_supply
}

impl Vault {
    /// The shares `accounts` held when `epoch` was distributed.
    pub open spec fn sum_shares_at(&self, accounts: Seq<u32>, epoch: u32) -> int
        decreases accounts.len(),
    {
        if accounts.len() == 0 {
            0
        } else {
            self.sum_shares_at(accounts.drop_last(), epoch) + self.shares_at(accounts.last(), epoch)
        }
    }

    /// The yield `accounts` are owed for `epoch`.
    pub open spec fn sum_pending_for_epoch(&self, accounts: Seq<u32>, epoch: u32) -> int
        decreases accounts.len(),
    {
        if accounts.len() == 0 {
            0
        } else {
            self.sum_pending_for_epoch(accounts.drop_last(), epoch) + self.pending_for_epoch(
                accounts.last(),
                epoch,
            )
        }
    }

    /// No set of distinct accounts held more shares at `epoch` than the
    /// supply recorded for it.
    pub open spec fn epoch_bounded(&self, epoch: u32) -> bool {
        forall|accounts: Seq<u32>|
            accounts.no_duplicates() ==> #[trigger] self.sum_shares_at(accounts, epoch)
                <= value_or_zero(self@.epoch_total_shares, epoch)
    }

    /// The share accounting is consistent: balances are non-negative and
    /// never add up to more than the supply; for every distributed epoch the
    /// holdings it is paid on are non-negative and never add up to more than
    /// the supply recorded for it, and its yield is non-negative; and no
    /// account has interacted in a future epoch. In particular the supply
    /// itself is never negative.
    pub open spec fn wf(&self) -> bool {
        &&& balances_bounded(self@)
        &&& self@.total_supply >= 0
        &&& forall|who: u32| #[trigger] value_or_zero(self@.balances, who) >= 0
        &&& forall|epoch: u32| 1 <= epoch <= self@.current_epoch ==> #[trigger] self.epoch_bounded(epoch)
        &&& forall|who: u32, epoch: u32|
            1 <= epoch <= self@.current_epoch ==> #[trigger] self.shares_at(who, epoch) >= 0
        &&& forall|epoch: u32|
            1 <= epoch <= self@.current_epoch ==> #[trigger] value_or_zero(self@.epoch_yield, epoch)
                >= 0
        &&& forall|who: u32| #[trigger] last_interaction_of(self@, who) <= self@.current_epoch
    }
}

/// Bounded balances leave the supply non-negative: the empty set of
/// accounts holds nothing.
proof fn lemma_supply_nonneg(v: VaultView)
    requires
        balances_bounded(v),
    ensures
        v.total_supply >= 0,
{
    let none = Seq::<u32>::empty();
    assert(none.no_duplicates());
    assert(sum_balances(v.balances, none) == 0);
}

proof fn lemma_no_duplicates_drop_last(accounts: Seq<u32>)
    requires
        accounts.len() > 0,
        accounts.no_duplicates(),
    ensures
        accounts.drop_last().no_duplicates(),
        !accounts.drop_last().contains(accounts.last()),
{
    let rest = accounts.drop_last();
    assert forall|i: int, j: int| 0 <= i < j < rest.len() implies rest[i] != rest[j] by {
        assert(rest[i] == accounts[i] && rest[j] == accounts[j]);
    }
    if rest.contains(accounts.last()) {
        let i = choose|i: int| 0 <= i < rest.len() && rest[i] == accounts.last();
        assert(accounts[i] == accounts[accounts.len() - 1]);
    }
}

proof fn lemma_push_no_duplicates(accounts: Seq<u32>, k: u32)
    requires
        accounts.no_duplicates(),
        !accounts.contains(k),
    ensures
        accounts.push(k).no_duplicates(),
        accounts.push(k).drop_last() == accounts,
        accounts.push(k).last() == k,
{
    let p = accounts.push(k);
    assert(p.drop_last() =~= accounts);
    assert forall|i: int, j: int| 0 <= i < j < p.len() implies p[i] != p[j] by {
        if j == accounts.len() {
            assert(p[i] == accounts[i]);
            assert(accounts.contains(accounts[i]));
        } else {
            assert(p[i] == accounts[i] && p[j] == accounts[j]);
        }
    }
}

/// Changing one account's balance changes the shares of any distinct
/// accounts by the difference, if it is among them.
proof fn lemma_sum_balances_insert(m: Map<u32, i128>, accounts: Seq<u32>, k: u32, x: i128)
    requires
        accounts.no_duplicates(),
    ensures
        sum_balances(m.insert(k, x), accounts) == sum_balances(m, accounts) + if accounts.contains(k) {
            x - value_or_zero(m, k)
        } else {
            0
        },
    decreases accounts.len(),
{
    if accounts.len() > 0 {
        let rest = accounts.drop_last();
        lemma_no_duplicates_drop_last(accounts);
        lemma_sum_balances_insert(m, rest, k, x);
        assert(accounts.contains(k) <==> (rest.contains(k) || accounts.last() == k)) by {
            if accounts.contains(k) {
                let i = choose|i: int| 0 <= i < accounts.len() && accounts[i] == k;
                if i < rest.len() {
                    assert(rest[i] == k);
                }
            }
            if rest.contains(k) {
                let i = choose|i: int| 0 <= i < rest.len() && rest[i] == k;
                assert(accounts[i] == k);
            }
            if accounts.last() == k {
                assert(accounts[accounts.len() - 1] == k);
            }
        }
    }
}

/// The shares accounts held at an epoch add up the same in two vault states
/// that agree on each account's holding at that epoch.
proof fn lemma_sum_shares_at_congruent(a: &Vault, b: &Vault, accounts: Seq<u32>, epoch: u32)
    requires
        forall|who: u32| #[trigger] a.shares_at(who, epoch) == b.shares_at(who, epoch),
    ensures
        a.sum_shares_at(accounts, epoch) == b.sum_shares_at(accounts, epoch),
    decreases accounts.len(),
{
    if accounts.len() > 0 {
        lemma_sum_shares_at_congruent(a, b, accounts.drop_last(), epoch);
        assert(a.shares_at(accounts.last(), epoch) == b.shares_at(accounts.last(), epoch));
    }
}

/// When every account held its current balance at `epoch`, the holdings at
/// `epoch` add up to the balances.
proof fn lemma_sum_shares_at_is_balances(v: &Vault, accounts: Seq<u32>, epoch: u32)
    requires
        forall|who: u32| #[trigger] v.shares_at(who, epoch) == value_or_zero(v@.balances, who),
    ensures
        v.sum_shares_at(accounts, epoch) == sum_balances(v@.balances, accounts),
    decreases accounts.len(),
{
    if accounts.len() > 0 {
        lemma_sum_shares_at_is_balances(v, accounts.drop_last(), epoch);
        assert(v.shares_at(accounts.last(), epoch) == value_or_zero(v@.balances, accounts.last()));
    }
}

/// The consistency of the share accounting carries over to a state whose
/// balances are within its supply, with the same epochs, no interaction in
/// a future epoch, and every holding at a distributed epoch unchanged.
proof fn lemma_wf_frame(old_vault: &Vault, new_vault: &Vault)
    requires
        old_vault.wf(),
        balances_bounded(new_vault@),
        forall|who: u32| #[trigger] value_or_zero(new_vault@.balances, who) >= 0,
        new_vault@.current_epoch == old_vault@.current_epoch,
        new_vault@.epoch_total_shares == old_vault@.epoch_total_shares,
        new_vault@.epoch_yield == old_vault@.epoch_yield,
        forall|who: u32| #[trigger]
            last_interaction_of(new_vault@, who) <= last_interaction_of(old_vault@, who)
                || last_interaction_of(new_vault@, who) == new_vault@.current_epoch,
        forall|who: u32, epoch: u32|
            epoch <= old_vault@.current_epoch ==> #[trigger] new_vault.shares_at(who, epoch)
                == old_vault.shares_at(who, epoch),
    ensures
        new_vault.wf(),
{
    lemma_supply_nonneg(new_vault@);
    assert forall|who: u32| #[trigger] last_interaction_of(new_vault@, who) <= new_vault@.current_epoch by {
        assert(last_interaction_of(old_vault@, who) <= old_vault@.current_epoch);
    }
    assert forall|who: u32, epoch: u32|
        1 <= epoch <= new_vault@.current_epoch implies #[trigger] new_vault.shares_at(who, epoch) >= 0 by {
        assert(old_vault.shares_at(who, epoch) >= 0);
    }
    assert forall|epoch: u32| 1 <= epoch <= new_vault@.current_epoch implies #[trigger] new_vault.epoch_bounded(
        epoch,
    ) by {
        assert(old_vault.epoch_bounded(epoch));
        assert forall|accounts: Seq<u32>| accounts.no_duplicates() implies #[trigger] new_vault.sum_shares_at(
            accounts,
            epoch,
        ) <= value_or_zero(new_vault@.epoch_total_shares, epoch) by {
            assert forall|who: u32| #[trigger] new_vault.shares_at(who, epoch) == old_vault.shares_at(
                who,
                epoch,
            ) by {}
            lemma_sum_shares_at_congruent(new_vault, old_vault, accounts, epoch);
            assert(old_vault.sum_shares_at(accounts, epoch) <= value_or_zero(
                old_vault@.epoch_total_shares,
                epoch,
            ));
        }
    }
}

/// Pro-rata payouts of a distributed epoch never exceed its yield: in a
/// consistent vault, the yield owed for `epoch` to any distinct accounts
/// adds up to at most the epoch's yield.
pub proof fn lemma_epoch_payouts_never_exceed_yield(vault: &Vault, accounts: Seq<u32>, epoch: u32)
    requires
        vault.wf(),
        accounts.no_duplicates(),
        1 <= epoch <= vault@.current_epoch,
    ensures
        vault.sum_pending_for_epoch(accounts, epoch) <= value_or_zero(vault@.epoch_yield, epoch),
{
    assert forall|i: int| 0 <= i < accounts.len() implies vault.shares_at(#[trigger] accounts[i], epoch)
        >= 0 by {}
    assert(value_or_zero(vault@.epoch_yield, epoch) >= 0);
    assert(vault.epoch_bounded(epoch));
    let t = value_or_zero(vault@.epoch_total_shares, epoch) as int;
    let y = value_or_zero(vault@.epoch_yield, epoch) as int;
    let holdings = Seq::new(accounts.len(), |i: int| vault.shares_at(accounts[i], epoch) as int);
    lemma_pending_sums_match_payouts(vault, accounts, epoch);
    lemma_holdings_sum(vault, accounts, epoch);
    if t > 0 {
        crate::math::lemma_pro_rata_payouts_never_exceed_distribution(holdings, y, t);
    } else {
        lemma_pending_zero_without_supply(vault, accounts, epoch);
    }
}

/// The holdings of `accounts` at `epoch`, as a sequence of integers, add up
/// to their total holding.
proof fn lemma_holdings_sum(vault: &Vault, accounts: Seq<u32>, epoch: u32)
    ensures
        crate::math::sum_of(
            Seq::new(accounts.len(), |i: int| vault.shares_at(accounts[i], epoch) as int),
        ) == vault.sum_shares_at(accounts, epoch),
    decreases accounts.len(),
{
    let holdings = Seq::new(accounts.len(), |i: int| vault.shares_at(accounts[i], epoch) as int);
    if accounts.len() > 0 {
        let rest = accounts.drop_last();
        lemma_holdings_sum(vault, rest, epoch);
        assert(holdings.drop_last() =~= Seq::new(
            rest.len(),
            |i: int| vault.shares_at(rest[i], epoch) as int,
        ));
    }
}

/// Each account's pending yield for a distributed epoch it has not claimed
/// is its pro-rata payout; a claimed epoch pays nothing, which is no more.
proof fn lemma_pending_sums_match_payouts(vault: &Vault, accounts: Seq<u32>, epoch: u32)
    requires
        1 <= epoch <= vault@.current_epoch,
        value_or_zero(vault@.epoch_total_shares, epoch) > 0 ==> value_or_zero(vault@.epoch_yield, epoch) >= 0,
        forall|i: int| 0 <= i < accounts.len() ==> vault.shares_at(#[trigger] accounts[i], epoch) >= 0,
    ensures
        value_or_zero(vault@.epoch_total_shares, epoch) > 0 ==> vault.sum_pending_for_epoch(
            accounts,
            epoch,
        ) <= crate::math::sum_of_payouts(
            Seq::new(accounts.len(), |i: int| vault.shares_at(accounts[i], epoch) as int),
            value_or_zero(vault@.epoch_yield, epoch) as int,
            value_or_zero(vault@.epoch_total_shares, epoch) as int,
        ),
    decreases accounts.len(),
{
    let t = value_or_zero(vault@.epoch_total_shares, epoch) as int;
    let y = value_or_zero(vault@.epoch_yield, epoch) as int;
    let holdings = Seq::new(accounts.len(), |i: int| vault.shares_at(accounts[i], epoch) as int);
    if accounts.len() > 0 && t > 0 {
        let rest = accounts.drop_last();
        assert forall|i: int| 0 <= i < rest.len() implies vault.shares_at(#[trigger] rest[i], epoch)
            >= 0 by {
            assert(rest[i] == accounts[i]);
        }
        lemma_pending_sums_match_payouts(vault, rest, epoch);
        assert(holdings.drop_last() =~= Seq::new(
            rest.len(),
            |i: int| vault.shares_at(rest[i], epoch) as int,
        ));
        let last = accounts.last();
        assert(vault.shares_at(accounts[accounts.len() - 1], epoch) >= 0);
        let s = vault.shares_at(last, epoch) as int;
        assert(s * y >= 0) by (nonlinear_arith)
            requires
                s >= 0,
                y >= 0,
        ;
        crate::math::lemma_mul_div_is_floor(s, y, t);
    }
}

/// With no supply recorded for an epoch, nothing is owed for it.
proof fn lemma_pending_zero_without_supply(vault: &Vault, accounts: Seq<u32>, epoch: u32)
    requires
        value_or_zero(vault@.epoch_total_shares, epoch) <= 0,
        vault.epoch_bounded(epoch),
        accounts.no_duplicates(),
        forall|i: int| 0 <= i < accounts.len() ==> vault.shares_at(#[trigger] accounts[i], epoch) >= 0,
    ensures
        vault.sum_pending_for_epoch(accounts, epoch) <= 0,
    decreases accounts.len(),
{
    if accounts.len() > 0 {
        let rest = accounts.drop_last();
        lemma_no_duplicates_drop_last(accounts);
        assert forall|i: int| 0 <= i < rest.len() implies vault.shares_at(#[trigger] rest[i], epoch)
            >= 0 by {
            assert(rest[i] == accounts[i]);
        }
        lemma_pending_zero_without_supply(vault, rest, epoch);
        if value_or_zero(vault@.epoch_total_shares, epoch) < 0 {
            assert(vault.sum_shares_at(accounts, epoch) <= value_or_zero(
                vault@.epoch_total_shares,
                epoch,
            ));
            lemma_holdings_nonneg(vault, accounts, epoch);
        }
    }
}

proof fn lemma_holdings_nonneg(vault: &Vault, accounts: Seq<u32>, epoch: u32)
    requires
        forall|i: int| 0 <= i < accounts.len() ==> vault.shares_at(#[trigger] accounts[i], epoch) >= 0,
    ensures
        vault.sum_shares_at(accounts, epoch) >= 0,
    decreases accounts.len(),
{
    if accounts.len() > 0 {
        let rest = accounts.drop_last();
        assert forall|i: int| 0 <= i < rest.len() implies vault.shares_at(#[trigger] rest[i], epoch)
            >= 0 by {
            assert(rest[i] == accounts[i]);
        }
        lemma_holdings_nonneg(vault, rest, epoch);
        assert(vault.shares_at(accounts[accounts.len() - 1], epoch) >= 0);
    }
}

proof fn lemma_balances_bounded_same(a: VaultView, b: VaultView)
    requires
        balances_bounded(a),
        b.balances == a.balances,
        b.total_supply == a.total_supply,
        forall|who: u32| #[trigger] value_or_zero(a.balances, who) >= 0,
    ensures
        balances_bounded(b),
        forall|who: u32| #[trigger] value_or_zero(b.balances, who) >= 0,
{
}

proof fn lemma_balances_bounded_after_mint(m: Map<u32, i128>, supply: int, k: u32, x: i128)
    requires
        forall|accounts: Seq<u32>|
            accounts.no_duplicates() ==> #[trigger] sum_balances(m, accounts) <= supply,
        x >= value_or_zero(m, k),
    ensures
        forall|accounts: Seq<u32>|
            accounts.no_duplicates() ==> #[trigger] sum_balances(m.insert(k, x), accounts) <= supply
                + (x - value_or_zero(m, k)),
{
    assert forall|accounts: Seq<u32>| accounts.no_duplicates() implies #[trigger] sum_balances(
        m.insert(k, x),
        accounts,
    ) <= supply + (x - value_or_zero(m, k)) by {
        lemma_sum_balances_insert(m, accounts, k, x);
    }
}

proof fn lemma_balances_bounded_after_burn(m: Map<u32, i128>, supply: int, k: u32, x: i128)
    requires
        forall|accounts: Seq<u32>|
            accounts.no_duplicates() ==> #[trigger] sum_balances(m, accounts) <= supply,
        x <= value_or_zero(m, k),
        x >= 0,
    ensures
        forall|accounts: Seq<u32>|
            accounts.no_duplicates() ==> #[trigger] sum_balances(m.insert(k, x), accounts) <= supply
                - (value_or_zero(m, k) - x),
{
    assert forall|accounts: Seq<u32>| accounts.no_duplicates() implies #[trigger] sum_balances(
        m.insert(k, x),
        accounts,
    ) <= supply - (value_or_zero(m, k) - x) by {
        lemma_sum_balances_insert(m, accounts, k, x);
        if !accounts.contains(k) {
            lemma_push_no_duplicates(accounts, k);
            assert(sum_balances(m, accounts.push(k)) <= supply);
        }
    }
}

/// A new epoch opened over the current balances keeps the share accounting
/// consistent: every account held its current balance at the new epoch, so
/// their holdings add up to at most the supply it records.
proof fn lemma_wf_after_distribution(pre: &Vault, post: &Vault)
    requires
        pre.wf(),
        post@.balances == pre@.balances,
        post@.total_supply == pre@.total_supply,
        post@.last_interaction == pre@.last_interaction,
        post@.current_epoch == pre@.current_epoch + 1,
        post@.epoch_total_shares == pre@.epoch_total_shares.insert(
            post@.current_epoch,
            pre@.total_supply,
        ),
        post@.epoch_yield == pre@.epoch_yield.insert(
            post@.current_epoch,
            value_or_zero(post@.epoch_yield, post@.current_epoch),
        ),
        value_or_zero(post@.epoch_yield, post@.current_epoch) >= 0,
        forall|who: u32, epoch: u32| #[trigger] post.shares_at(who, epoch) == pre.shares_at(who, epoch),
    ensures
        post.wf(),
{
    let n = post@.current_epoch;
    assert forall|who: u32, epoch: u32|
        1 <= epoch <= post@.current_epoch implies #[trigger] post.shares_at(who, epoch) >= 0 by {
        if epoch < n {
            assert(pre.shares_at(who, epoch) >= 0);
        } else {
            assert(last_interaction_of(pre@, who) <= pre@.current_epoch);
            assert(value_or_zero(pre@.balances, who) >= 0);
        }
    }
    assert forall|epoch: u32|
        1 <= epoch <= post@.current_epoch implies #[trigger] value_or_zero(post@.epoch_yield, epoch)
            >= 0 by {
        if epoch < n {
            assert(value_or_zero(pre@.epoch_yield, epoch) >= 0);
        }
    }
    assert forall|epoch: u32| 1 <= epoch <= post@.current_epoch implies #[trigger] post.epoch_bounded(
        epoch,
    ) by {
        if epoch < n {
            assert(pre.epoch_bounded(epoch));
            assert forall|accounts: Seq<u32>| accounts.no_duplicates() implies #[trigger] post.sum_shares_at(
                accounts,
                epoch,
            ) <= value_or_zero(post@.epoch_total_shares, epoch) by {
                lemma_sum_shares_at_congruent(post, pre, accounts, epoch);
                assert(pre.sum_shares_at(accounts, epoch) <= value_or_zero(
                    pre@.epoch_total_shares,
                    epoch,
                ));
            }
        } else {
            assert forall|who: u32| #[trigger] post.shares_at(who, n) == value_or_zero(
                post@.balances,
                who,
            ) by {
                assert(last_interaction_of(pre@, who) <= pre@.current_epoch);
            }
            assert forall|accounts: Seq<u32>| accounts.no_duplicates() implies #[trigger] post.sum_shares_at(
                accounts,
                epoch,
            ) <= value_or_zero(post@.epoch_total_shares, epoch) by {
                lemma_sum_shares_at_is_balances(post, accounts, n);
                assert(sum_balances(pre@.balances, accounts) <= pre@.total_supply);
            }
        }
    }
    assert forall|who: u32| #[trigger] last_interaction_of(post@, who) <= post@.current_epoch by {
        assert(last_interaction_of(pre@, who) <= pre@.current_epoch);
    }
}

proof fn lemma_sum_balances_empty(accounts: Seq<u32>)
    ensures
        sum_balances(Map::<u32, i128>::empty(), accounts) == 0,
    decreases accounts.len(),
{
    if accounts.len() > 0 {
        lemma_sum_balances_empty(accounts.drop_last());
    }
}

impl Vault {
    /// Every event the vault has announced, oldest first.
    pub fn events(&self) -> (r: &Vec<VaultEvent>)
        ensures
            r@ == self@.events,
    {
        &self.events
    }
}

/// The per-deposit limits apply in every lifecycle state alike: whether a
/// deposit is refused for a non-positive amount, for falling under the
/// minimum or for passing the per-account maximum does not depend on the
/// state (only the funding-target cap is particular to funding).
pub proof fn lemma_deposit_limits_apply_in_every_state(
    v: VaultView,
    state: VaultState,
    assets: i128,
    receiver: u32,
)
    ensures
        ({
            let w = VaultView { state, ..v };
            &&& (deposit_error(w, assets, receiver) == Some(Error::ZeroAmount)) <==> (deposit_error(
                v,
                assets,
                receiver,
            ) == Some(Error::ZeroAmount))
            &&& (deposit_error(w, assets, receiver) == Some(Error::BelowMinimumDeposit)) <==> (
            deposit_error(v, assets, receiver) == Some(Error::BelowMinimumDeposit))
            &&& (deposit_error(w, assets, receiver) == Some(Error::ExceedsMaximumDeposit)) <==> (
            deposit_error(v, assets, receiver) == Some(Error::ExceedsMaximumDeposit))
        }),
{
}

/// While the vault is funding toward a positive target, no deposit is
/// accepted that would take its assets past the target.
pub proof fn lemma_funding_deposits_stop_at_the_target(
    v: VaultView,
    caller: u32,
    assets: i128,
    receiver: u32,
)
    requires
        v.state == VaultState::Funding,
        v.funding_target > 0,
        spec_deposit(v, caller, assets, receiver).1 is Ok,
    ensures
        spec_deposit(v, caller, assets, receiver).0.total_assets <= v.funding_target,
{
}

/// What an exit does to the books: `receiver` (not the vault) gains exactly
/// `assets` of the asset, the vault loses as much and every other account
/// keeps its asset balance; `owner` loses exactly `shares` shares and every
/// other account keeps its shares; the supply falls by `shares` and the
/// vault's recorded assets by `assets`.
pub open spec fn exit_outcome(
    v: VaultView,
    w: VaultView,
    owner: u32,
    shares: int,
    assets: int,
    receiver: u32,
) -> bool {
    &&& balance_of(w.asset, receiver) == balance_of(v.asset, receiver) + assets
    &&& balance_of(w.asset, v.address) == balance_of(v.asset, v.address) - assets
    &&& forall|a: u32|
        a != receiver && a != v.address ==> #[trigger] balance_of(w.asset, a) == balance_of(
            v.asset,
            a,
        )
    &&& value_or_zero(w.balances, owner) == value_or_zero(v.balances, owner) - shares
    &&& forall|a: u32|
        a != owner ==> #[trigger] value_or_zero(w.balances, a) == value_or_zero(v.balances, a)
    &&& w.total_supply == v.total_supply - shares
    &&& w.total_assets == v.total_assets - assets
}

proof fn lemma_exit_outcome(v: VaultView, owner: u32, shares: i128, assets: i128, receiver: u32)
    requires
        exit_fits(v, owner, shares as int, assets as int, receiver),
        receiver != v.address,
    ensures
        exit_outcome(v, spec_exit(v, owner, shares, assets, receiver), owner, shares as int, assets as int, receiver),
{
    let w = spec_exit(v, owner, shares, assets, receiver);
    crate::token::lemma_transfer_conserves(v.asset, v.address, receiver, assets, v.address);
    assert forall|a: u32| a != receiver && a != v.address implies #[trigger] balance_of(w.asset, a)
        == balance_of(v.asset, a) by {
        crate::token::lemma_transfer_conserves(v.asset, v.address, receiver, assets, a);
    }
}

/// A withdrawal goes through exactly when the amount is positive and the
/// vault is active. Then the receiver (when it is not the vault) is paid
/// exactly the assets asked for, out of the vault's balance, while every
/// other account, the owner among them, keeps its asset balance; the shares
/// returned as burned come off the owner's holding and the supply alone.
/// A refused withdrawal changes nothing.
pub proof fn lemma_withdraw_pays_the_receiver(v: VaultView, owner: u32, assets: i128, receiver: u32)
    requires
        withdraw_fits(v, owner, assets, receiver),
        receiver != v.address,
    ensures
        spec_withdraw(v, owner, assets, receiver).1 is Ok <==> (assets > 0 && v.state
            == VaultState::Active),
        ({
            let (w, r) = spec_withdraw(v, owner, assets, receiver);
            match r {
                Ok(burned) => burned >= 0 && exit_outcome(
                    v,
                    w,
                    owner,
                    burned as int,
                    assets as int,
                    receiver,
                ),
                Err(_) => w == v,
            }
        }),
{
    if exit_error(v, assets) is None {
        let shares = spec_shares_for_withdrawal(v, assets) as i128;
        lemma_exit_outcome(v, owner, shares, assets, receiver);
    }
}

/// A redemption goes through exactly when the amount is positive and the
/// vault is active. Then the owner's holding and the supply lose exactly
/// the shares redeemed, and the receiver (when it is not the vault) is paid
/// exactly the assets returned, out of the vault's balance, while every
/// other account, the owner among them, keeps its asset balance. A refused
/// redemption changes nothing.
pub proof fn lemma_redeem_pays_the_receiver(v: VaultView, owner: u32, shares: i128, receiver: u32)
    requires
        redeem_fits(v, owner, shares, receiver),
        receiver != v.address,
    ensures
        spec_redeem(v, owner, shares, receiver).1 is Ok <==> (shares > 0 && v.state
            == VaultState::Active),
        ({
            let (w, r) = spec_redeem(v, owner, shares, receiver);
            match r {
                Ok(paid) => paid >= 0 && exit_outcome(
                    v,
                    w,
                    owner,
                    shares as int,
                    paid as int,
                    receiver,
                ),
                Err(_) => w == v,
            }
        }),
{
    if exit_error(v, shares) is None {
        let assets = spec_convert_to_assets(v, shares) as i128;
        lemma_exit_outcome(v, owner, shares, assets, receiver);
    }
}

/// A deposit is accepted exactly when the amount is positive, not under the
/// minimum, keeps everything the receiver has deposited within the
/// per-account maximum (when there is one), and, while funding toward a
/// positive target, keeps the vault's assets within the target. An accepted
/// deposit adds the amount to the receiver's running deposited total (so
/// the maximum bounds the sum of all its accepted deposits), moves the
/// amount from the caller (when it is not the vault) into the vault leaving
/// every other asset balance as it was, and credits the returned shares to
/// the receiver and the supply alone. A refused deposit changes nothing.
pub proof fn lemma_deposit_accumulates_and_pays_in(
    v: VaultView,
    caller: u32,
    assets: i128,
    receiver: u32,
)
    requires
        deposit_fits(v, caller, assets, receiver),
    ensures
        spec_deposit(v, caller, assets, receiver).1 is Ok <==> {
            &&& assets > 0
            &&& assets >= v.min_deposit
            &&& v.max_deposit_per_user > 0 ==> value_or_zero(v.deposited, receiver) + assets
                <= v.max_deposit_per_user
            &&& !(v.state == VaultState::Funding && v.funding_target > 0 && v.total_assets + assets
                > v.funding_target)
        },
        ({
            let (w, r) = spec_deposit(v, caller, assets, receiver);
            match r {
                Ok(minted) => {
                    &&& value_or_zero(w.deposited, receiver) == value_or_zero(v.deposited, receiver)
                        + assets
                    &&& forall|a: u32|
                        a != receiver ==> #[trigger] value_or_zero(w.deposited, a) == value_or_zero(
                            v.deposited,
                            a,
                        )
                    &&& v.max_deposit_per_user > 0 ==> value_or_zero(w.deposited, receiver)
                        <= v.max_deposit_per_user
                    &&& caller != v.address ==> {
                        &&& balance_of(w.asset, caller) == balance_of(v.asset, caller) - assets
                        &&& balance_of(w.asset, v.address) == balance_of(v.asset, v.address) + assets
                    }
                    &&& forall|a: u32|
                        a != caller && a != v.address ==> #[trigger] balance_of(w.asset, a)
                            == balance_of(v.asset, a)
                    &&& value_or_zero(w.balances, receiver) == value_or_zero(v.balances, receiver)
                        + minted
                    &&& forall|a: u32|
                        a != receiver ==> #[trigger] value_or_zero(w.balances, a) == value_or_zero(
                            v.balances,
                            a,
                        )
                    &&& w.total_supply == v.total_supply + minted
                    &&& w.total_assets == v.total_assets + assets
                },
                Err(_) => w == v,
            }
        }),
{
    if deposit_error(v, assets, receiver) is None {
        let w = spec_deposit(v, caller, assets, receiver).0;
        crate::token::lemma_transfer_conserves(v.asset, caller, v.address, assets, caller);
        assert forall|a: u32| a != caller && a != v.address implies #[trigger] balance_of(w.asset, a)
            == balance_of(v.asset, a) by {
            crate::token::lemma_transfer_conserves(v.asset, caller, v.address, assets, a);
        }
    }
}

/// Activation goes through exactly when the caller is the admin or an
/// operator, the vault is funding, and the assets deposited have reached
/// the funding target; a manager asking before the target is met is told
/// `FundingTargetNotMet`. Activation changes the state to active and
/// nothing else; a refusal changes nothing.
pub proof fn lemma_activation_needs_the_target_met(v: VaultView, caller: u32)
    ensures
        spec_activate_vault(v, caller).1 is Ok <==> (is_manager(v, caller) && v.state
            == VaultState::Funding && v.total_assets >= v.funding_target),
        is_manager(v, caller) && v.state == VaultState::Funding && v.total_assets
            < v.funding_target ==> spec_activate_vault(v, caller).1 == Err::<(), Error>(
            Error::FundingTargetNotMet,
        ),
        ({
            let (w, r) = spec_activate_vault(v, caller);
            match r {
                Ok(_) => w == VaultView { state: VaultState::Active, ..v },
                Err(_) => w == v,
            }
        }),
{
}

/// The deposit preview agrees with the deposit itself: for a receiver with
/// no earlier deposits it reports `Accepted` exactly when a deposit of the
/// same amount would be accepted, and then the shares the deposit mints.
/// Once the vault is active the funding target refuses neither a previewed
/// deposit nor a previewed mint.
pub proof fn lemma_deposit_preview_agrees_with_deposit(
    v: VaultView,
    caller: u32,
    assets: i128,
    receiver: u32,
    shares: i128,
)
    requires
        value_or_zero(v.deposited, receiver) == 0,
    ensures
        (deposit_preview_reason(v, assets) == SafePreviewDepositReason::Accepted) <==> spec_deposit(
            v,
            caller,
            assets,
            receiver,
        ).1 is Ok,
        deposit_preview_reason(v, assets) == SafePreviewDepositReason::Accepted ==> spec_deposit(
            v,
            caller,
            assets,
            receiver,
        ).1 == Ok::<i128, Error>(spec_convert_to_shares(v, assets) as i128),
        v.state == VaultState::Active ==> deposit_preview_reason(v, assets)
            != SafePreviewDepositReason::FundingTargetExceeded,
        v.state == VaultState::Active ==> mint_preview_reason(v, shares)
            != SafePreviewMintReason::FundingTargetExceeded,
{
}

/// The asset ledger `w` is `v` with exactly `amount` moved from `from` to
/// `to` (two different accounts): every other balance is as it was.
pub open spec fn moved_exactly(v: Map<u32, i128>, w: Map<u32, i128>, from: u32, to: u32, amount: int) -> bool {
    &&& balance_of(w, from) == balance_of(v, from) - amount
    &&& balance_of(w, to) == balance_of(v, to) + amount
    &&& forall|a: u32| a != from && a != to ==> #[trigger] balance_of(w, a) == balance_of(v, a)
}

proof fn lemma_moved_exactly(ledger: Map<u32, i128>, from: u32, to: u32, amount: i128)
    requires
        from != to,
        0 <= amount <= balance_of(ledger, from),
        balance_of(ledger, to) + amount <= i128::MAX,
    ensures
        moved_exactly(ledger, spec_transfer(ledger, from, to, amount), from, to, amount as int),
{
    crate::token::lemma_transfer_conserves(ledger, from, to, amount, from);
    assert forall|a: u32| a != from && a != to implies #[trigger] balance_of(
        spec_transfer(ledger, from, to, amount),
        a,
    ) == balance_of(ledger, a) by {
        crate::token::lemma_transfer_conserves(ledger, from, to, amount, a);
    }
}

/// A share transfer goes through exactly when the amount is positive; it
/// then moves exactly that many shares from `from` to `to` (when they
/// differ), leaves every other holding, the supply and every asset balance
/// as they were. A refused transfer changes nothing.
pub proof fn lemma_share_transfer_moves_exactly(v: VaultView, from: u32, to: u32, shares: i128)
    requires
        transfer_fits(v, from, to, shares),
    ensures
        spec_transfer_shares(v, from, to, shares).1 is Ok <==> shares > 0,
        ({
            let (w, r) = spec_transfer_shares(v, from, to, shares);
            match r {
                Ok(_) => {
                    &&& from != to ==> {
                        &&& value_or_zero(w.balances, from) == value_or_zero(v.balances, from) - shares
                        &&& value_or_zero(w.balances, to) == value_or_zero(v.balances, to) + shares
                    }
                    &&& from == to ==> value_or_zero(w.balances, from) == value_or_zero(v.balances, from)
                    &&& forall|a: u32|
                        a != from && a != to ==> #[trigger] value_or_zero(w.balances, a)
                            == value_or_zero(v.balances, a)
                    &&& w.total_supply == v.total_supply
                    &&& w.asset == v.asset
                },
                Err(_) => w == v,
            }
        }),
{
}

/// A claim of a positive pending total pays `who` (not the vault) all of it
/// when the vault's asset balance covers it and otherwise everything the
/// vault holds; exactly that amount leaves the vault for `who`, every other
/// asset balance stays, the unpaid rest is added to `who`'s shortfall, and
/// the amount paid is added to what `who` has been paid.
pub proof fn lemma_claim_pays_the_claimant(v: VaultView, who: u32, total: int)
    requires
        total > 0,
        who != v.address,
        balance_of(v.asset, who) + claim_payout(v, total) <= i128::MAX,
        in_i128(value_or_zero(v.yield_claimed, who) + claim_payout(v, total)),
        in_i128(value_or_zero(v.shortfall, who) + total),
    ensures
        ({
            let paid = claim_payout(v, total);
            let available = balance_of(v.asset, v.address);
            let w = spec_claim_apply(v, who, total);
            &&& 0 <= paid <= total
            &&& paid == total || (paid == available && available >= 0) || (paid == 0 && available < 0)
            &&& total <= available ==> paid == total
            &&& moved_exactly(v.asset, w.asset, v.address, who, paid)
            &&& value_or_zero(w.shortfall, who) == value_or_zero(v.shortfall, who) + (total - paid)
            &&& value_or_zero(w.yield_claimed, who) == value_or_zero(v.yield_claimed, who) + paid
            &&& w.balances == v.balances
            &&& w.total_supply == v.total_supply
        }),
{
    let paid = claim_payout(v, total);
    if paid > 0 {
        lemma_moved_exactly(v.asset, v.address, who, paid as i128);
    }
}

/// A shortfall resolution goes through exactly when the caller is the admin
/// or an operator, the amount is positive, `who` has a shortfall and the
/// amount does not exceed it. It then pays `who` (not the vault) exactly the
/// amount out of the vault, leaves every other asset balance, takes the
/// amount off `who`'s shortfall and adds it to what `who` has been paid. A
/// refused resolution changes nothing.
pub proof fn lemma_resolution_pays_the_account(v: VaultView, caller: u32, who: u32, amount: i128)
    requires
        resolve_fits(v, caller, who, amount),
        who != v.address,
    ensures
        spec_resolve_yield_shortfall(v, caller, who, amount).1 is Ok <==> {
            &&& is_manager(v, caller)
            &&& amount > 0
            &&& value_or_zero(v.shortfall, who) != 0
            &&& amount <= value_or_zero(v.shortfall, who)
        },
        ({
            let (w, r) = spec_resolve_yield_shortfall(v, caller, who, amount);
            match r {
                Ok(_) => {
                    &&& moved_exactly(v.asset, w.asset, v.address, who, amount as int)
                    &&& value_or_zero(w.shortfall, who) == value_or_zero(v.shortfall, who) - amount
                    &&& value_or_zero(w.yield_claimed, who) == value_or_zero(v.yield_claimed, who)
                        + amount
                    &&& w.balances == v.balances
                },
                Err(_) => w == v,
            }
        }),
{
    if resolve_error(v, caller, who, amount) is None {
        lemma_moved_exactly(v.asset, v.address, who, amount);
    }
}

/// A distribution goes through exactly when the caller is the admin or an
/// operator, the vault is active and the amount is positive. It then opens
/// the next epoch, records for it the amount as its yield and the current
/// supply as the shares it is divided over, moves exactly the amount from
/// the caller (not the vault) into the vault leaving every other asset
/// balance, and leaves every share holding and the supply as they were. A
/// refused distribution changes nothing.
pub proof fn lemma_distribution_opens_the_next_epoch(
    v: VaultView,
    caller: u32,
    amount: i128,
    now: u64,
)
    requires
        distribute_fits(v, caller, amount),
        caller != v.address,
    ensures
        spec_distribute_yield(v, caller, amount, now).1 is Ok <==> (is_manager(v, caller) && v.state
            == VaultState::Active && amount > 0),
        ({
            let (w, r) = spec_distribute_yield(v, caller, amount, now);
            match r {
                Ok(epoch) => {
                    &&& epoch == v.current_epoch + 1
                    &&& w.current_epoch == epoch
                    &&& value_or_zero(w.epoch_yield, epoch) == amount
                    &&& value_or_zero(w.epoch_total_shares, epoch) == v.total_supply
                    &&& moved_exactly(v.asset, w.asset, caller, v.address, amount as int)
                    &&& w.balances == v.balances
                    &&& w.total_supply == v.total_supply
                    &&& w.total_assets == v.total_assets + amount
                },
                Err(_) => w == v,
            }
        }),
{
    if distribute_error(v, caller, amount) is None {
        lemma_moved_exactly(v.asset, caller, v.address, amount);
    }
}

/// What the vault's asset balance holds beyond the principal deposited and
/// the yield distributed but not yet claimed.
pub open spec fn balance_discrepancy(v: VaultView) -> int {
    balance_of(v.asset, v.address) - (v.total_principal + (v.total_yield_distributed
        - v.total_yield_claimed))
}

/// A deposit from an account other than the vault keeps the books
/// balanced: the assets it brings in are matched by the principal recorded.
pub proof fn lemma_deposit_keeps_books_balanced(v: VaultView, caller: u32, assets: i128, receiver: u32)
    requires
        deposit_fits(v, caller, assets, receiver),
        caller != v.address,
    ensures
        balance_discrepancy(spec_deposit(v, caller, assets, receiver).0) == balance_discrepancy(v),
{
    if deposit_error(v, assets, receiver) is None {
        crate::token::lemma_transfer_conserves(v.asset, caller, v.address, assets, v.address);
    }
}

/// A distribution from an account other than the vault keeps the books
/// balanced: the yield it brings in is matched by the yield recorded.
pub proof fn lemma_distribution_keeps_books_balanced(
    v: VaultView,
    caller: u32,
    amount: i128,
    now: u64,
)
    requires
        distribute_fits(v, caller, amount),
        caller != v.address,
    ensures
        balance_discrepancy(spec_distribute_yield(v, caller, amount, now).0) == balance_discrepancy(
            v,
        ),
{
    if distribute_error(v, caller, amount) is None {
        crate::token::lemma_transfer_conserves(v.asset, caller, v.address, amount, v.address);
    }
}

/// A claim by an account other than the vault keeps the books balanced:
/// what it pays out is matched by the yield recorded as claimed.
pub proof fn lemma_claim_keeps_books_balanced(v: VaultView, who: u32, total: int)
    requires
        total > 0,
        who != v.address,
        balance_of(v.asset, who) + claim_payout(v, total) <= i128::MAX,
        in_i128(v.total_yield_claimed + claim_payout(v, total)),
    ensures
        balance_discrepancy(spec_claim_apply(v, who, total)) == balance_discrepancy(v),
{
    let paid = claim_payout(v, total);
    if paid > 0 {
        crate::token::lemma_transfer_conserves(v.asset, v.address, who, paid as i128, v.address);
    }
}

/// A withdrawal or redemption paid to an account other than the vault keeps
/// the books balanced: what it pays out is matched by the principal removed.
pub proof fn lemma_exit_keeps_books_balanced(
    v: VaultView,
    owner: u32,
    shares: i128,
    assets: i128,
    receiver: u32,
)
    requires
        exit_fits(v, owner, shares as int, assets as int, receiver),
        receiver != v.address,
    ensures
        balance_discrepancy(spec_exit(v, owner, shares, assets, receiver)) == balance_discrepancy(v),
{
    crate::token::lemma_transfer_conserves(v.asset, v.address, receiver, assets, v.address);
}

/// Resolving a shortfall of an account other than the vault keeps the
/// books balanced: what it pays out is matched by the yield recorded as
/// claimed.
pub proof fn lemma_resolution_keeps_books_balanced(v: VaultView, caller: u32, who: u32, amount: i128)
    requires
        resolve_fits(v, caller, who, amount),
        who != v.address,
    ensures
        balance_discrepancy(spec_resolve_yield_shortfall(v, caller, who, amount).0)
            == balance_discrepancy(v),
{
    if resolve_error(v, caller, who, amount) is None {
        crate::token::lemma_transfer_conserves(v.asset, v.address, who, amount, v.address);
    }
}

/// One step of the vault's life that its books see: activation, or a
/// movement of assets in or out.
pub enum BookStep {
    /// `caller` activates the vault.
    Activate { caller: u32 },
    /// `caller` deposits `assets` for `receiver`.
    Deposit { caller: u32, assets: i128, receiver: u32 },
    /// `caller` distributes `amount` of yield at ledger time `now`.
    Distribute { caller: u32, amount: i128, now: u64 },
    /// `who` claims a pending total of `total`.
    Claim { who: u32, total: i128 },
    /// A withdrawal or redemption burns `shares` of `owner` and pays
    /// `assets` to `receiver`.
    Exit { owner: u32, shares: i128, assets: i128, receiver: u32 },
    /// `caller` pays `amount` of `who`'s shortfall.
    Resolve { caller: u32, who: u32, amount: i128 },
}

/// The vault after `step`.
pub open spec fn apply_book_step(v: VaultView, step: BookStep) -> VaultView {
    match step {
        BookStep::Activate { caller } => spec_activate_vault(v, caller).0,
        BookStep::Deposit { caller, assets, receiver } => spec_deposit(v, caller, assets, receiver).0,
        BookStep::Distribute { caller, amount, now } => spec_distribute_yield(v, caller, amount, now).0,
        BookStep::Claim { who, total } => spec_claim_apply(v, who, total as int),
        BookStep::Exit { owner, shares, assets, receiver } => spec_exit(
            v,
            owner,
            shares,
            assets,
            receiver,
        ),
        BookStep::Resolve { caller, who, amount } => spec_resolve_yield_shortfall(
            v,
            caller,
            who,
            amount,
        ).0,
    }
}

/// `step` can be taken from `v` (its arithmetic fits, and for a claim
/// something is owed), and the account that pays or is paid is not the
/// vault itself.
pub open spec fn book_step_fits(v: VaultView, step: BookStep) -> bool {
    match step {
        BookStep::Activate { .. } => true,
        BookStep::Deposit { caller, assets, receiver } => {
            &&& deposit_fits(v, caller, assets, receiver)
            &&& caller != v.address
        },
        BookStep::Distribute { caller, amount, now } => {
            &&& distribute_fits(v, caller, amount)
            &&& caller != v.address
        },
        BookStep::Claim { who, total } => {
            &&& total > 0
            &&& who != v.address
            &&& balance_of(v.asset, who) + claim_payout(v, total as int) <= i128::MAX
            &&& in_i128(v.total_yield_claimed + claim_payout(v, total as int))
        },
        BookStep::Exit { owner, shares, assets, receiver } => {
            &&& exit_fits(v, owner, shares as int, assets as int, receiver)
            &&& receiver != v.address
        },
        BookStep::Resolve { caller, who, amount } => {
            &&& resolve_fits(v, caller, who, amount)
            &&& who != v.address
        },
    }
}

/// The vault after taking `steps` in order.
pub open spec fn apply_book_steps(v: VaultView, steps: Seq<BookStep>) -> VaultView
    decreases steps.len(),
{
    if steps.len() == 0 {
        v
    } else {
        apply_book_step(apply_book_steps(v, steps.drop_last()), steps.last())
    }
}

/// Every one of `steps` can be taken from the state the ones before it reach.
pub open spec fn book_steps_fit(v: VaultView, steps: Seq<BookStep>) -> bool
    decreases steps.len(),
{
    if steps.len() == 0 {
        true
    } else {
        book_steps_fit(v, steps.drop_last()) && book_step_fits(
            apply_book_steps(v, steps.drop_last()),
            steps.last(),
        )
    }
}

/// The books stay balanced over any sequence of activations, deposits,
/// distributions, claims, withdrawals or redemptions, and shortfall
/// resolutions by accounts other than the vault: the reconciliation discrepancy after them is what
/// it was before (zero for a vault that started balanced).
pub proof fn lemma_books_stay_balanced(v: VaultView, steps: Seq<BookStep>)
    requires
        book_steps_fit(v, steps),
    ensures
        balance_discrepancy(apply_book_steps(v, steps)) == balance_discrepancy(v),
    decreases steps.len(),
{
    if steps.len() > 0 {
        let rest = steps.drop_last();
        lemma_books_stay_balanced(v, rest);
        let w = apply_book_steps(v, rest);
        match steps.last() {
            BookStep::Activate { .. } => {},
            BookStep::Deposit { caller, assets, receiver } => {
                lemma_deposit_keeps_books_balanced(w, caller, assets, receiver);
            },
            BookStep::Distribute { caller, amount, now } => {
                lemma_distribution_keeps_books_balanced(w, caller, amount, now);
            },
            BookStep::Claim { who, total } => {
                lemma_claim_keeps_books_balanced(w, who, total as int);
            },
            BookStep::Exit { owner, shares, assets, receiver } => {
                lemma_exit_keeps_books_balanced(w, owner, shares, assets, receiver);
            },
            BookStep::Resolve { caller, who, amount } => {
                lemma_resolution_keeps_books_balanced(w, caller, who, amount);
            },
        }
    }
}

/// Once yield has raised the assets above the share supply, minting shares
/// costs at least as many assets as shares.
pub proof fn lemma_mint_above_par_costs_at_least_shares(v: VaultView, shares: i128)
    requires
        shares >= 0,
        0 <= v.total_supply <= v.total_assets,
    ensures
        spec_assets_for_mint(v, shares) >= shares,
{
    let n = v.total_assets + VIRTUAL_OFFSET;
    let d = v.total_supply + VIRTUAL_OFFSET;
    assert(shares * n >= 0) by (nonlinear_arith)
        requires
            shares >= 0,
            n > 0,
    ;
    crate::math::lemma_mul_div_ceil_is_ceiling(shares as int, n, d);
    let c = spec_assets_for_mint(v, shares);
    assert(c >= shares) by (nonlinear_arith)
        requires
            shares * n <= d * c,
            0 < d <= n,
            shares >= 0,
    ;
}

} // verus!
