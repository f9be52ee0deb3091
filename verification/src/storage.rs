//! Per-epoch records: the yield distributed in each epoch, the total share
//! supply it was distributed over, the assets held right after it, the
//! ledger time of the distribution, and the current epoch counter.
//!
//! A record that was never written reads as zero, so an epoch that saw no
//! distribution (or data that predates this layout) never makes a read fail.
use std::collections::HashMap;
use vstd::prelude::*;

verus! {

broadcast use vstd::std_specs::hash::group_hash_axioms;

/// The value stored under `key`, or zero when nothing is.
pub open spec fn value_or_zero<K>(m: Map<K, i128>, key: K) -> i128 {
    if m.contains_key(key) {
        m[key]
    } else {
        0
    }
}

/// Epoch-indexed storage of the vault.
pub struct EpochStorage {
    current_epoch: u32,
    epoch_yield: HashMap<u32, i128>,
    epoch_total_shares: HashMap<u32, i128>,
    epoch_total_assets: HashMap<u32, i128>,
    epoch_timestamp: HashMap<u32, u64>,
}

impl EpochStorage {
    /// The current epoch number.
    pub closed spec fn current(&self) -> u32 {
        self.current_epoch
    }

    /// Yield recorded per epoch.
    pub closed spec fn yields(&self) -> Map<u32, i128> {
        self.epoch_yield@
    }

    /// Total share supply recorded per epoch.
    pub closed spec fn totals(&self) -> Map<u32, i128> {
        self.epoch_total_shares@
    }

    /// Total assets recorded per epoch, right after its distribution.
    pub closed spec fn assets(&self) -> Map<u32, i128> {
        self.epoch_total_assets@
    }

    /// Ledger time recorded per epoch, at its distribution.
    pub closed spec fn timestamps(&self) -> Map<u32, u64> {
        self.epoch_timestamp@
    }

    /// Empty storage: epoch zero, no records.
    pub fn new() -> (s: EpochStorage)
        ensures
            s.current() == 0,
            s.yields() == Map::<u32, i128>::empty(),
            s.totals() == Map::<u32, i128>::empty(),
            s.assets() == Map::<u32, i128>::empty(),
            s.timestamps() == Map::<u32, u64>::empty(),
    {
        EpochStorage {
            current_epoch: 0,
            epoch_yield: HashMap::new(),
            epoch_total_shares: HashMap::new(),
            epoch_total_assets: HashMap::new(),
            epoch_timestamp: HashMap::new(),
        }
    }
}

/// Records the yield distributed in `epoch`, replacing any earlier record.
pub fn put_epoch_yield(storage: &mut EpochStorage, epoch: u32, amount: i128)
    ensures
        final(storage).yields() == old(storage).yields().insert(epoch, amount),
        final(storage).totals() == old(storage).totals(),
        final(storage).assets() == old(storage).assets(),
        final(storage).current() == old(storage).current(),
        final(storage).timestamps() == old(storage).timestamps(),
{
    storage.epoch_yield.insert(epoch, amount);
}

/// The yield recorded for `epoch`, zero when none was.
pub fn get_epoch_yield(storage: &EpochStorage, epoch: u32) -> (r: i128)
    ensures
        r == value_or_zero(storage.yields(), epoch),
{
    match storage.epoch_yield.get(&epoch) {
        Some(v) => *v,
        None => 0,
    }
}

/// Records the share supply that `epoch`'s yield is divided over.
pub fn put_epoch_total_shares(storage: &mut EpochStorage, epoch: u32, total_shares: i128)
    ensures
        final(storage).totals() == old(storage).totals().insert(epoch, total_shares),
        final(storage).yields() == old(storage).yields(),
        final(storage).assets() == old(storage).assets(),
        final(storage).current() == old(storage).current(),
        final(storage).timestamps() == old(storage).timestamps(),
{
    storage.epoch_total_shares.insert(epoch, total_shares);
}

/// The share supply recorded for `epoch`, zero when none was.
pub fn get_epoch_total_shares(storage: &EpochStorage, epoch: u32) -> (r: i128)
    ensures
        r == value_or_zero(storage.totals(), epoch),
{
    match storage.epoch_total_shares.get(&epoch) {
        Some(v) => *v,
        None => 0,
    }
}

/// Records the vault's total assets right after `epoch`'s distribution.
pub fn put_epoch_total_assets(storage: &mut EpochStorage, epoch: u32, total_assets: i128)
    ensures
        final(storage).assets() == old(storage).assets().insert(epoch, total_assets),
        final(storage).yields() == old(storage).yields(),
        final(storage).totals() == old(storage).totals(),
        final(storage).current() == old(storage).current(),
        final(storage).timestamps() == old(storage).timestamps(),
{
    storage.epoch_total_assets.insert(epoch, total_assets);
}

/// The total assets recorded for `epoch`, zero when none was.
pub fn get_epoch_total_assets(storage: &EpochStorage, epoch: u32) -> (r: i128)
    ensures
        r == value_or_zero(storage.assets(), epoch),
{
    match storage.epoch_total_assets.get(&epoch) {
        Some(v) => *v,
        None => 0,
    }
}

/// The ledger time recorded for `epoch`, zero when none was.
pub open spec fn timestamp_or_zero(m: Map<u32, u64>, epoch: u32) -> u64 {
    if m.contains_key(epoch) {
        m[epoch]
    } else {
        0
    }
}

/// Records the ledger time of `epoch`'s distribution.
pub fn put_epoch_timestamp(storage: &mut EpochStorage, epoch: u32, timestamp: u64)
    ensures
        final(storage).timestamps() == old(storage).timestamps().insert(epoch, timestamp),
        final(storage).yields() == old(storage).yields(),
        final(storage).totals() == old(storage).totals(),
        final(storage).assets() == old(storage).assets(),
        final(storage).current() == old(storage).current(),
{
    storage.epoch_timestamp.insert(epoch, timestamp);
}

/// The ledger time recorded for `epoch`, zero when none was.
pub fn get_epoch_timestamp(storage: &EpochStorage, epoch: u32) -> (r: u64)
    ensures
        r == timestamp_or_zero(storage.timestamps(), epoch),
{
    match storage.epoch_timestamp.get(&epoch) {
        Some(v) => *v,
        None => 0,
    }
}

/// Sets the current epoch number.
pub fn put_current_epoch(storage: &mut EpochStorage, epoch: u32)
    ensures
        final(storage).current() == epoch,
        final(storage).yields() == old(storage).yields(),
        final(storage).totals() == old(storage).totals(),
        final(storage).assets() == old(storage).assets(),
        final(storage).timestamps() == old(storage).timestamps(),
{
    storage.current_epoch = epoch;
}

/// The current epoch number.
pub fn get_current_epoch(storage: &EpochStorage) -> (r: u32)
    ensures
        r == storage.current(),
{
    storage.current_epoch
}

/// Reading a record back after writing it gives the written value, and
/// writing one epoch's record leaves every other epoch's record as it was.
pub proof fn lemma_epoch_record_read_after_write(m: Map<u32, i128>, epoch: u32, amount: i128, other: u32)
    ensures
        value_or_zero(m.insert(epoch, amount), epoch) == amount,
        other != epoch ==> value_or_zero(m.insert(epoch, amount), other) == value_or_zero(m, other),
{
}

/// A record that was never written reads as zero.
pub proof fn lemma_missing_epoch_record_is_zero(epoch: u32)
    ensures
        value_or_zero(Map::<u32, i128>::empty(), epoch) == 0,
{
}

} // verus!
