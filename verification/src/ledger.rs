//! The currency ledger consumed by purchases: balances per account and
//! an all-or-nothing transfer of funds between two of them.

use std::collections::HashMap;

use vstd::prelude::*;

use crate::model::{bal, pay_ok, step_pay};
use crate::types::Error;

verus! {

broadcast use vstd::std_specs::hash::group_hash_axioms;

/// Account -> currency balance; an account never seen holds zero.
pub struct Ledger {
    balances: HashMap<u64, u64>,
}

impl View for Ledger {
    type V = Map<u64, u64>;

    closed spec fn view(&self) -> Map<u64, u64> {
        self.balances@
    }
}

impl Ledger {
    /// An empty ledger; every account holds zero.
    pub fn new() -> (l: Ledger)
        ensures
            l@ == Map::<u64, u64>::empty(),
    {
        Ledger { balances: HashMap::new() }
    }

    /// The balance of `account`.
    pub fn balance_of(&self, account: u64) -> (b: u64)
        ensures
            b == bal(self@, account),
    {
        match self.balances.get(&account) {
            Some(b) => *b,
            None => 0,
        }
    }

    /// Credits `amount` to `account`; fails with `Overflow`, and changes
    /// nothing, when the balance cannot take it.
    pub fn deposit(&mut self, account: u64, amount: u64) -> (res: Result<(), Error>)
        ensures
            match res {
                Ok(()) => bal(old(self)@, account) + amount <= u64::MAX && final(self)@ == old(
                    self,
                )@.insert(account, (bal(old(self)@, account) + amount) as u64),
                Err(e) => e == Error::Overflow && bal(old(self)@, account) + amount > u64::MAX
                    && *final(self) == *old(self),
            },
    {
        let held = self.balance_of(account);
        if amount > u64::MAX - held {
            return Err(Error::Overflow);
        }
        self.balances.insert(account, held + amount);
        Ok(())
    }

    /// Moves `value` from `from` to `to`, all or nothing: it fails with
    /// `LedgerError`, and changes nothing, when the payer's balance does
    /// not cover the value or the payee's balance cannot take it.
    pub fn make_transfer(&mut self, from: u64, to: u64, value: u64) -> (res: Result<(), Error>)
        ensures
            match res {
                Ok(()) => pay_ok(old(self)@, from, to, value) && final(self)@ == step_pay(
                    old(self)@,
                    from,
                    to,
                    value,
                ),
                Err(e) => e == Error::LedgerError && !pay_ok(old(self)@, from, to, value)
                    && *final(self) == *old(self),
            },
    {
        let held_from = self.balance_of(from);
        if held_from < value {
            return Err(Error::LedgerError);
        }
        if from == to {
            return Ok(());
        }
        let held_to = self.balance_of(to);
        if value > u64::MAX - held_to {
            return Err(Error::LedgerError);
        }
        self.balances.insert(from, held_from - value);
        self.balances.insert(to, held_to + value);
        Ok(())
    }
}

} // verus!
