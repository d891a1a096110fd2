//! The executable store: the six mappings as hash maps, the indexed
//! ownership registry primitives, and the token lifecycle engine.

use std::collections::HashMap;

use vstd::prelude::*;

use crate::ledger::Ledger;
use crate::model::{
    breed_check, breed_child, buy_check, count_of, mint_check, reassign_check, revoke_check,
    set_price_check, slot, step_assign, step_buy, step_mint, step_pay, step_reassign,
    step_register, step_revoke, step_set_owner, step_set_price, transfer_check, Model,
};
use crate::types::{Error, Kitty};

verus! {

broadcast use vstd::std_specs::hash::group_hash_axioms;

/// The durable state: six coupled mappings emulating two dense indexed
/// lists, the global token counter, and the identifier nonce.
pub struct Store {
    tokens: HashMap<u64, Kitty>,
    owner: HashMap<u64, u64>,
    all_list: HashMap<u64, u64>,
    all_index: HashMap<u64, u64>,
    all_count: u64,
    owned_list: HashMap<u128, u64>,
    owned_index: HashMap<u64, u64>,
    owned_count: HashMap<u64, u64>,
    nonce: u64,
}

impl View for Store {
    type V = Model;

    closed spec fn view(&self) -> Model {
        Model {
            tokens: self.tokens@,
            owner: self.owner@,
            all_list: self.all_list@,
            all_index: self.all_index@,
            all_count: self.all_count,
            owned_list: self.owned_list@,
            owned_index: self.owned_index@,
            owned_count: self.owned_count@,
            nonce: self.nonce,
        }
    }
}

impl Store {
    /// An empty store; no token exists and nobody owns anything.
    pub fn new() -> (s: Store)
        ensures
            s@ == Model::init(),
            s@.wf(),
    {
        let s = Store {
            tokens: HashMap::new(),
            owner: HashMap::new(),
            all_list: HashMap::new(),
            all_index: HashMap::new(),
            all_count: 0,
            owned_list: HashMap::new(),
            owned_index: HashMap::new(),
            owned_count: HashMap::new(),
            nonce: 0,
        };
        proof {
            assert(s@ =~= Model::init());
            crate::model::lemma_init_wf();
        }
        s
    }

    // -- point queries --------------------------------------------------

    /// The record of a token, if it exists.
    pub fn kitty(&self, kitty_id: u64) -> (r: Option<Kitty>)
        ensures
            match r {
                Some(k) => self@.tokens.contains_key(kitty_id) && k == self@.tokens[kitty_id],
                None => !self@.tokens.contains_key(kitty_id),
            },
    {
        match self.tokens.get(&kitty_id) {
            Some(k) => Some(*k),
            None => None,
        }
    }

    /// The account owning a token, if the token exists.
    pub fn owner_of(&self, kitty_id: u64) -> (r: Option<u64>)
        ensures
            match r {
                Some(a) => self@.owner.contains_key(kitty_id) && a == self@.owner[kitty_id],
                None => !self@.owner.contains_key(kitty_id),
            },
    {
        match self.owner.get(&kitty_id) {
            Some(a) => Some(*a),
            None => None,
        }
    }

    /// How many tokens have ever been minted.
    pub fn all_kitties_count(&self) -> (c: u64)
        ensures
            c == self@.all_count,
    {
        self.all_count
    }

    /// The token at global index `index`, if that index is occupied.
    pub fn kitty_by_index(&self, index: u64) -> (r: Option<u64>)
        ensures
            match r {
                Some(t) => self@.all_list.contains_key(index) && t == self@.all_list[index],
                None => !self@.all_list.contains_key(index),
            },
    {
        match self.all_list.get(&index) {
            Some(t) => Some(*t),
            None => None,
        }
    }

    /// How many tokens `account` currently owns; an account never seen
    /// owns zero.
    pub fn owned_kitty_count(&self, account: u64) -> (c: u64)
        ensures
            c == count_of(self@, account),
    {
        match self.owned_count.get(&account) {
            Some(c) => *c,
            None => 0,
        }
    }

    /// The token at `account`'s per-owner index `index`, if occupied.
    pub fn kitty_of_owner_by_index(&self, account: u64, index: u64) -> (r: Option<u64>)
        ensures
            match r {
                Some(t) => self@.owned_list.contains_key(slot(account, index)) && t
                    == self@.owned_list[slot(account, index)],
                None => !self@.owned_list.contains_key(slot(account, index)),
            },
    {
        let key = slot_key(account, index);
        match self.owned_list.get(&key) {
            Some(t) => Some(*t),
            None => None,
        }
    }

    /// The nonce mixed into the next generated identifier.
    pub fn nonce(&self) -> (n: u64)
        ensures
            n == self@.nonce,
    {
        self.nonce
    }

    // -- indexed ownership registry -------------------------------------

    /// Inserts a new token into the global list at the current count and
    /// advances the count. The caller guarantees the identifier is fresh;
    /// the only failure is a full counter, reported before any write.
    pub fn register_global(&mut self, kitty_id: u64, new_kitty: Kitty) -> (res: Result<(), Error>)
        requires
            !old(self)@.tokens.contains_key(kitty_id),
        ensures
            match res {
                Ok(()) => old(self)@.all_count < u64::MAX && final(self)@ == step_register(
                    old(self)@,
                    kitty_id,
                    new_kitty,
                ),
                Err(e) => e == Error::Overflow && old(self)@.all_count == u64::MAX && *final(self)
                    == *old(self),
            },
    {
        if self.all_count == u64::MAX {
            return Err(Error::Overflow);
        }
        let index = self.all_count;
        self.tokens.insert(kitty_id, new_kitty);
        self.all_list.insert(index, kitty_id);
        self.all_index.insert(kitty_id, index);
        self.all_count = index + 1;
        proof {
            assert(self@ =~= step_register(old(self)@, kitty_id, new_kitty));
        }
        Ok(())
    }

    /// Appends a token to `account`'s per-owner list at the next free
    /// index, records the reverse index and lifts the count. The only
    /// failure is a full counter, reported before any write.
    pub fn assign_owner(&mut self, kitty_id: u64, account: u64) -> (res: Result<(), Error>)
        ensures
            match res {
                Ok(()) => count_of(old(self)@, account) < u64::MAX && final(self)@ == step_assign(
                    old(self)@,
                    account,
                    kitty_id,
                ),
                Err(e) => e == Error::Overflow && count_of(old(self)@, account) == u64::MAX
                    && *final(self) == *old(self),
            },
    {
        let count = self.owned_kitty_count(account);
        if count == u64::MAX {
            return Err(Error::Overflow);
        }
        let key = slot_key(account, count);
        self.owned_list.insert(key, kitty_id);
        self.owned_index.insert(kitty_id, count);
        self.owned_count.insert(account, count + 1);
        proof {
            assert(self@ =~= step_assign(old(self)@, account, kitty_id));
        }
        Ok(())
    }

    /// Removes a token from `account`'s per-owner list by swap-and-pop:
    /// unless the token sits in the last slot, the last slot's token
    /// moves into its place and the reverse index follows; then the last
    /// slot is deleted and the count drops. One leg of the atomic
    /// reassignment: the ownership record stays with the caller, so the
    /// full invariant is restored only once the token is assigned again.
    pub fn revoke_owner(&mut self, account: u64, kitty_id: u64) -> (res: Result<(), Error>)
        requires
            old(self)@.wf(),
        ensures
            res == revoke_check(old(self)@, account, kitty_id),
            res is Ok ==> final(self)@ == step_revoke(old(self)@, account, kitty_id),
            res is Err ==> *final(self) == *old(self),
    {
        let count = self.owned_kitty_count(account);
        if count == 0 {
            return Err(Error::Underflow);
        }
        let recorded = match self.owner.get(&kitty_id) {
            Some(o) => *o,
            None => return Err(Error::NotFound),
        };
        if recorded != account {
            return Err(Error::NotFound);
        }
        proof {
            // The invariant locates the token inside the list.
            assert(old(self)@.owned_index.contains_key(kitty_id) && old(
                self,
            )@.owned_index[kitty_id] < count && old(self)@.owned_list[slot(
                account,
                old(self)@.owned_index[kitty_id],
            )] == kitty_id);
            assert(old(self)@.owned_list.contains_key(slot(account, (count - 1) as u64)));
        }
        let index = *self.owned_index.get(&kitty_id).unwrap();
        let last_index = count - 1;
        if index != last_index {
            let last_key = slot_key(account, last_index);
            let last = *self.owned_list.get(&last_key).unwrap();
            let index_key = slot_key(account, index);
            self.owned_list.insert(index_key, last);
            self.owned_index.insert(last, index);
        }
        let last_key = slot_key(account, last_index);
        self.owned_list.remove(&last_key);
        self.owned_index.remove(&kitty_id);
        self.owned_count.insert(account, last_index);
        proof {
            assert(self@ =~= step_revoke(old(self)@, account, kitty_id));
        }
        Ok(())
    }

    /// Moves a token from `from` to `to` as one atomic unit: both
    /// failure conditions are validated before any write, then revoke,
    /// ownership record and append run to completion. A transfer to
    /// oneself succeeds and never overflows, since the count comes back
    /// down before it goes up.
    pub fn reassign_owner(&mut self, kitty_id: u64, from: u64, to: u64) -> (res: Result<(), Error>)
        requires
            old(self)@.wf(),
        ensures
            res == reassign_check(old(self)@, from, to, kitty_id),
            final(self)@.wf(),
            res is Ok ==> final(self)@ == step_reassign(old(self)@, from, to, kitty_id),
            res is Err ==> *final(self) == *old(self),
    {
        let recorded = match self.owner.get(&kitty_id) {
            Some(o) => *o,
            None => return Err(Error::NotFound),
        };
        if recorded != from {
            return Err(Error::NotFound);
        }
        if from != to {
            let count_to = self.owned_kitty_count(to);
            if count_to == u64::MAX {
                return Err(Error::Overflow);
            }
        }
        proof {
            crate::model::lemma_reassign_wf(old(self)@, from, to, kitty_id);
        }
        let revoked = self.revoke_owner(from, kitty_id);
        if revoked.is_err() {
            proof {
                assert(false);
            }
            return Err(Error::NotFound);
        }
        self.owner.insert(kitty_id, to);
        proof {
            assert(self@ =~= step_set_owner(
                step_revoke(old(self)@, from, kitty_id),
                kitty_id,
                to,
            ));
            assert(count_of(self@, to) < u64::MAX);
        }
        let assigned = self.assign_owner(kitty_id, to);
        if assigned.is_err() {
            proof {
                assert(false);
            }
            return Err(Error::Overflow);
        }
        proof {
            assert(final(self)@ == step_reassign(old(self)@, from, to, kitty_id));
        }
        Ok(())
    }

    // -- token lifecycle engine -----------------------------------------

    /// Records a new token for `to` as one atomic unit: identifier
    /// collision and both counters are validated before any write, then
    /// global registration, ownership record, per-owner append and the
    /// nonce tick run to completion.
    fn mint(&mut self, to: u64, kitty_id: u64, new_kitty: Kitty) -> (res: Result<(), Error>)
        requires
            old(self)@.wf(),
            new_kitty.id == kitty_id,
            new_kitty.gen <= old(self)@.all_count,
        ensures
            res == mint_check(old(self)@, to, kitty_id),
            final(self)@.wf(),
            res is Ok ==> final(self)@ == step_mint(old(self)@, to, kitty_id, new_kitty),
            res is Err ==> *final(self) == *old(self),
    {
        if self.owner.contains_key(&kitty_id) {
            return Err(Error::DuplicateId);
        }
        let owned = self.owned_kitty_count(to);
        if owned == u64::MAX {
            return Err(Error::Overflow);
        }
        if self.all_count == u64::MAX {
            return Err(Error::Overflow);
        }
        proof {
            crate::model::lemma_mint_wf(old(self)@, to, kitty_id, new_kitty);
        }
        let registered = self.register_global(kitty_id, new_kitty);
        if registered.is_err() {
            proof {
                assert(false);
            }
            return Err(Error::Overflow);
        }
        self.owner.insert(kitty_id, to);
        proof {
            assert(self@ =~= step_set_owner(
                step_register(old(self)@, kitty_id, new_kitty),
                kitty_id,
                to,
            ));
            assert(count_of(self@, to) < u64::MAX);
        }
        let assigned = self.assign_owner(kitty_id, to);
        if assigned.is_err() {
            proof {
                assert(false);
            }
            return Err(Error::Overflow);
        }
        self.nonce = self.nonce + 1;
        proof {
            assert(self@ =~= step_mint(old(self)@, to, kitty_id, new_kitty));
        }
        Ok(())
    }

    /// Mints a brand-new token for `sender` under the externally
    /// generated identifier, which doubles as its genetic payload: price
    /// zero, generation zero. Fails with `DuplicateId` on an identifier
    /// collision and with `Overflow` when either counter is full, in that
    /// order, before any write; on success the nonce advances by one.
    pub fn create_kitty(&mut self, sender: u64, random_id: u64) -> (res: Result<u64, Error>)
        requires
            old(self)@.wf(),
        ensures
            final(self)@.wf(),
            match res {
                Ok(id) => {
                    &&& id == random_id
                    &&& mint_check(old(self)@, sender, random_id) is Ok
                    &&& final(self)@ == step_mint(
                        old(self)@,
                        sender,
                        random_id,
                        (Kitty { id: random_id, dna: random_id, price: 0, gen: 0 }),
                    )
                },
                Err(e) => {
                    &&& mint_check(old(self)@, sender, random_id) == Err::<(), Error>(e)
                    &&& *final(self) == *old(self)
                },
            },
    {
        let new_kitty = Kitty { id: random_id, dna: random_id, price: 0, gen: 0 };
        match self.mint(sender, random_id, new_kitty) {
            Ok(()) => Ok(random_id),
            Err(e) => Err(e),
        }
    }

    /// Overwrites the asking price of a token the caller owns. Fails
    /// with `NotFound` when the token does not exist and with `NotOwner`
    /// when the caller does not own it; no list or counter moves either
    /// way.
    pub fn set_price(&mut self, sender: u64, kitty_id: u64, new_price: u64) -> (res: Result<
        (),
        Error,
    >)
        requires
            old(self)@.wf(),
        ensures
            res == set_price_check(old(self)@, sender, kitty_id),
            final(self)@.wf(),
            res is Ok ==> final(self)@ == step_set_price(old(self)@, kitty_id, new_price),
            res is Err ==> *final(self) == *old(self),
    {
        let found = match self.tokens.get(&kitty_id) {
            Some(k) => *k,
            None => return Err(Error::NotFound),
        };
        let recorded = match self.owner.get(&kitty_id) {
            Some(o) => *o,
            None => return Err(Error::NotFound),
        };
        if recorded != sender {
            return Err(Error::NotOwner);
        }
        let updated = Kitty { price: new_price, ..found };
        self.tokens.insert(kitty_id, updated);
        proof {
            crate::model::lemma_set_price_wf(old(self)@, kitty_id, new_price);
            assert(self@ =~= step_set_price(old(self)@, kitty_id, new_price));
        }
        Ok(())
    }

    /// Moves a token the caller owns to `to`. Fails with `NotFound` when
    /// the token has no owner, with `NotOwner` when the caller is not
    /// that owner, and with `Overflow` when the recipient's counter is
    /// full -- all checked before any write. A transfer to oneself
    /// succeeds, leaving the caller's count unchanged.
    pub fn transfer(&mut self, sender: u64, to: u64, kitty_id: u64) -> (res: Result<(), Error>)
        requires
            old(self)@.wf(),
        ensures
            res == transfer_check(old(self)@, sender, to, kitty_id),
            final(self)@.wf(),
            res is Ok ==> final(self)@ == step_reassign(old(self)@, sender, to, kitty_id),
            res is Err ==> *final(self) == *old(self),
    {
        let recorded = match self.owner.get(&kitty_id) {
            Some(o) => *o,
            None => return Err(Error::NotFound),
        };
        if recorded != sender {
            return Err(Error::NotOwner);
        }
        self.reassign_owner(kitty_id, sender, to)
    }

    /// Buys a token from its current owner at its asking price, paying
    /// through the ledger. Every failure -- absence, self-purchase, the
    /// zero not-for-sale sentinel, a price above the buyer's maximum, a
    /// full counter, a refused payment -- is detected before any write,
    /// and the funds move before ownership does, so a failed payment
    /// never transfers ownership and a confirmed payment is always
    /// followed by it. The token stops being for sale the moment it is
    /// sold.
    pub fn buy_kitty(
        &mut self,
        ledger: &mut Ledger,
        sender: u64,
        kitty_id: u64,
        max_price: u64,
    ) -> (res: Result<(), Error>)
        requires
            old(self)@.wf(),
        ensures
            res == buy_check(old(self)@, old(ledger)@, sender, kitty_id, max_price),
            final(self)@.wf(),
            res is Ok ==> final(self)@ == step_buy(old(self)@, sender, kitty_id) && final(ledger)@
                == step_pay(
                old(ledger)@,
                sender,
                old(self)@.owner[kitty_id],
                old(self)@.tokens[kitty_id].price,
            ),
            res is Err ==> *final(self) == *old(self) && *final(ledger) == *old(ledger),
    {
        let found = match self.tokens.get(&kitty_id) {
            Some(k) => *k,
            None => return Err(Error::NotFound),
        };
        let seller = match self.owner.get(&kitty_id) {
            Some(o) => *o,
            None => return Err(Error::NotFound),
        };
        if seller == sender {
            return Err(Error::SelfPurchase);
        }
        let price = found.price;
        if price == 0 {
            return Err(Error::NotForSale);
        }
        if price > max_price {
            return Err(Error::PriceExceeded);
        }
        let owned = self.owned_kitty_count(sender);
        if owned == u64::MAX {
            return Err(Error::Overflow);
        }
        if ledger.make_transfer(sender, seller, price).is_err() {
            return Err(Error::LedgerError);
        }
        proof {
            crate::model::lemma_reassign_wf(old(self)@, seller, sender, kitty_id);
        }
        let moved = self.reassign_owner(kitty_id, seller, sender);
        if moved.is_err() {
            proof {
                assert(false);
            }
            return Err(Error::LedgerError);
        }
        let ghost mid: Model = self@;
        let updated = Kitty { price: 0, ..found };
        self.tokens.insert(kitty_id, updated);
        proof {
            crate::model::lemma_set_price_wf(mid, kitty_id, 0);
            assert(self@ =~= step_set_price(mid, kitty_id, 0));
            assert(final(self)@ == step_buy(old(self)@, sender, kitty_id));
        }
        Ok(())
    }

    /// Breeds a child from two existing parents for `sender`, under the
    /// externally generated identifier, which doubles as the steering
    /// word of the byte-wise payload mix. The caller need not own either
    /// parent, and the parents are neither consumed nor locked. Fails
    /// with `NotFound` when either parent is absent, then exactly as
    /// minting would, all before any write; on success the nonce
    /// advances by one.
    pub fn breed_kitty(
        &mut self,
        sender: u64,
        kitty_id_1: u64,
        kitty_id_2: u64,
        random_id: u64,
    ) -> (res: Result<u64, Error>)
        requires
            old(self)@.wf(),
        ensures
            final(self)@.wf(),
            match res {
                Ok(id) => {
                    &&& id == random_id
                    &&& breed_check(old(self)@, sender, kitty_id_1, kitty_id_2, random_id) is Ok
                    &&& final(self)@ == step_mint(
                        old(self)@,
                        sender,
                        random_id,
                        breed_child(old(self)@, kitty_id_1, kitty_id_2, random_id),
                    )
                },
                Err(e) => {
                    &&& breed_check(old(self)@, sender, kitty_id_1, kitty_id_2, random_id)
                        == Err::<(), Error>(e)
                    &&& *final(self) == *old(self)
                },
            },
    {
        let parent_1 = match self.tokens.get(&kitty_id_1) {
            Some(k) => *k,
            None => return Err(Error::NotFound),
        };
        let parent_2 = match self.tokens.get(&kitty_id_2) {
            Some(k) => *k,
            None => return Err(Error::NotFound),
        };
        if self.owner.contains_key(&random_id) {
            return Err(Error::DuplicateId);
        }
        let owned = self.owned_kitty_count(sender);
        if owned == u64::MAX {
            return Err(Error::Overflow);
        }
        if self.all_count == u64::MAX {
            return Err(Error::Overflow);
        }
        let larger_gen = if parent_1.gen >= parent_2.gen {
            parent_1.gen
        } else {
            parent_2.gen
        };
        let child_dna = crate::dna::mix(parent_1.dna, parent_2.dna, random_id);
        let child = Kitty { id: random_id, dna: child_dna, price: 0, gen: larger_gen + 1 };
        proof {
            assert(child == breed_child(old(self)@, kitty_id_1, kitty_id_2, random_id));
        }
        let minted = self.mint(sender, random_id, child);
        if minted.is_err() {
            proof {
                assert(false);
            }
            return Err(Error::Overflow);
        }
        Ok(random_id)
    }
}

/// The 128-bit key addressing slot `index` of `account`'s list.
fn slot_key(account: u64, index: u64) -> (k: u128)
    ensures
        k == slot(account, index),
{
    proof {
        assert((account as u128) * 0x1_0000_0000_0000_0000 + (index as u128) <= u128::MAX)
            by (nonlinear_arith);
    }
    (account as u128) * 0x1_0000_0000_0000_0000 + (index as u128)
}

} // verus!
