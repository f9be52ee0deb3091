//! The vault's underlying asset: a fungible token ledger of balances per
//! account.
use std::collections::HashMap;
use vstd::prelude::*;

use crate::storage::value_or_zero;

verus! {

broadcast use vstd::std_specs::hash::group_hash_axioms;

/// Balances of the asset, per account id.
pub struct TokenLedger {
    balances: HashMap<u32, i128>,
}

impl View for TokenLedger {
    type V = Map<u32, i128>;

    closed spec fn view(&self) -> Map<u32, i128> {
        self.balances@
    }
}

/// The balance of `who` in a ledger view; zero for an account never credited.
pub open spec fn balance_of(ledger: Map<u32, i128>, who: u32) -> i128 {
    value_or_zero(ledger, who)
}

/// The ledger after minting `amount` to `to`.
pub open spec fn spec_mint(ledger: Map<u32, i128>, to: u32, amount: i128) -> Map<u32, i128> {
    ledger.insert(to, (balance_of(ledger, to) + amount) as i128)
}

/// The ledger after moving `amount` from `from` to `to`.
pub open spec fn spec_transfer(ledger: Map<u32, i128>, from: u32, to: u32, amount: i128) -> Map<
    u32,
    i128,
> {
    let debited = ledger.insert(from, (balance_of(ledger, from) - amount) as i128);
    debited.insert(to, (balance_of(debited, to) + amount) as i128)
}

impl TokenLedger {
    /// A ledger where every balance is zero.
    pub fn new() -> (t: TokenLedger)
        ensures
            t@ == Map::<u32, i128>::empty(),
    {
        TokenLedger { balances: HashMap::new() }
    }

    /// The balance of `who`.
    pub fn balance(&self, who: u32) -> (r: i128)
        ensures
            r == balance_of(self@, who),
    {
        match self.balances.get(&who) {
            Some(b) => *b,
            None => 0,
        }
    }

    /// Creates `amount` new units in `to`'s balance. A negative amount, or a
    /// balance that would leave `i128`, is outside the ledger's domain.
    pub fn mint(&mut self, to: u32, amount: i128)
        requires
            amount >= 0,
            balance_of(old(self)@, to) + amount <= i128::MAX,
        ensures
            final(self)@ == spec_mint(old(self)@, to, amount),
    {
        let b = self.balance(to);
        self.balances.insert(to, b + amount);
    }

    /// Moves `amount` from `from` to `to`. The amount must be non-negative
    /// and covered by `from`'s balance (the token contract rejects the
    /// transfer otherwise).
    pub fn transfer(&mut self, from: u32, to: u32, amount: i128)
        requires
            0 <= amount <= balance_of(old(self)@, from),
            from != to ==> balance_of(old(self)@, to) + amount <= i128::MAX,
        ensures
            final(self)@ == spec_transfer(old(self)@, from, to, amount),
    {
        let fb = self.balance(from);
        self.balances.insert(from, fb - amount);
        let tb = self.balance(to);
        self.balances.insert(to, tb + amount);
    }
}

/// A transfer moves value without creating or destroying it: the two
/// balances it touches sum to the same amount before and after, and every
/// other balance is unchanged.
pub proof fn lemma_transfer_conserves(ledger: Map<u32, i128>, from: u32, to: u32, amount: i128, other: u32)
    requires
        0 <= amount <= balance_of(ledger, from),
        from != to ==> balance_of(ledger, to) + amount <= i128::MAX,
    ensures
        from != to ==> balance_of(spec_transfer(ledger, from, to, amount), from)
            + balance_of(spec_transfer(ledger, from, to, amount), to) == balance_of(ledger, from)
            + balance_of(ledger, to),
        from != to ==> balance_of(spec_transfer(ledger, from, to, amount), from) == balance_of(ledger, from) - amount,
        from != to ==> balance_of(spec_transfer(ledger, from, to, amount), to) == balance_of(ledger, to) + amount,
        from == to ==> balance_of(spec_transfer(ledger, from, to, amount), from) == balance_of(ledger, from),
        other != from && other != to ==> balance_of(spec_transfer(ledger, from, to, amount), other)
            == balance_of(ledger, other),
{
}

} // verus!
