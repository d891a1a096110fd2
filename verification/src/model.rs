//! The mathematical model of the durable state: the six coupled mappings,
//! the global counter and the nonce, together with the well-formedness
//! predicate that every completed operation preserves and the step
//! functions that pin down what each mutation does.

use vstd::prelude::*;

use crate::types::{Error, Kitty};

verus! {

/// The whole durable state, as unbounded maps. The executable store's view
/// is a value of this type; every contract speaks of it.
#[verifier::ext_equal]
pub struct Model {
    /// Token identifier -> token record.
    pub tokens: Map<u64, Kitty>,
    /// Token identifier -> owning account. Total on minted tokens.
    pub owner: Map<u64, u64>,
    /// Global dense index (0..all_count) -> token identifier.
    pub all_list: Map<u64, u64>,
    /// Token identifier -> its global dense index.
    pub all_index: Map<u64, u64>,
    /// Number of tokens ever minted; append-only.
    pub all_count: u64,
    /// Composite key slot(owner, per-owner index) -> token identifier.
    pub owned_list: Map<u128, u64>,
    /// Token identifier -> its current per-owner dense index.
    pub owned_index: Map<u64, u64>,
    /// Owning account -> count of tokens currently owned.
    pub owned_count: Map<u64, u64>,
    /// Monotonically increasing counter mixed into identifier generation.
    pub nonce: u64,
}

/// The composite key addressing slot `index` of `owner`'s list: the two
/// 64-bit halves of one 128-bit key.
pub open spec fn slot(owner: u64, index: u64) -> u128 {
    ((owner as u128) * 0x1_0000_0000_0000_0000 + (index as u128)) as u128
}

/// Distinct (owner, index) pairs address distinct slots.
pub broadcast proof fn lemma_slot_injective(a1: u64, i1: u64, a2: u64, i2: u64)
    ensures
        #![trigger slot(a1, i1), slot(a2, i2)]
        slot(a1, i1) == slot(a2, i2) ==> (a1 == a2 && i1 == i2),
{
    assert((a1 as u128) * 0x1_0000_0000_0000_0000 + (i1 as u128) == (a2 as u128)
        * 0x1_0000_0000_0000_0000 + (i2 as u128) ==> a1 == a2 && i1 == i2) by (nonlinear_arith);
}

/// How many tokens `a` currently owns; absence of a counter entry reads
/// as zero.
pub open spec fn count_of(m: Model, a: u64) -> u64 {
    if m.owned_count.contains_key(a) {
        m.owned_count[a]
    } else {
        0
    }
}

/// The per-owner lists are dense, and the reverse index inverts them:
/// slot (a, j) is occupied exactly for j below a's count, the token stored
/// there records owner a and index j, and every owned token sits at the
/// slot its index records.
pub open spec fn wf_lists(m: Model) -> bool {
    &&& forall|a: u64, j: u64| #![trigger slot(a, j)]
        {
            &&& (m.owned_list.contains_key(slot(a, j)) <==> j < count_of(m, a))
            &&& (j < count_of(m, a) ==> {
                let t = m.owned_list[slot(a, j)];
                &&& m.owned_index.contains_key(t)
                &&& m.owned_index[t] == j
                &&& m.owner.contains_key(t)
                &&& m.owner[t] == a
            })
        }
    &&& forall|t: u64| #[trigger]
        m.owner.contains_key(t) ==> {
            &&& m.owned_index.contains_key(t)
            &&& m.owned_index[t] < count_of(m, m.owner[t])
            &&& m.owned_list.contains_key(slot(m.owner[t], m.owned_index[t]))
            &&& m.owned_list[slot(m.owner[t], m.owned_index[t])] == t
        }
    &&& forall|t: u64| #[trigger]
        m.owned_index.contains_key(t) ==> m.owner.contains_key(t)
}

/// The global list is dense, inverted by the global index, and the counter
/// equals the number of minted tokens.
pub open spec fn wf_global(m: Model) -> bool {
    &&& forall|j: u64| #[trigger]
        m.all_list.contains_key(j) <==> j < m.all_count
    &&& forall|j: u64| #![trigger m.all_list[j]]
        j < m.all_count ==> {
            &&& m.tokens.contains_key(m.all_list[j])
            &&& m.all_index.contains_key(m.all_list[j])
            &&& m.all_index[m.all_list[j]] == j
        }
    &&& forall|t: u64| #[trigger]
        m.tokens.contains_key(t) ==> {
            &&& m.all_index.contains_key(t)
            &&& m.all_index[t] < m.all_count
            &&& m.all_list[m.all_index[t]] == t
        }
    &&& forall|t: u64| #[trigger]
        m.all_index.contains_key(t) ==> m.tokens.contains_key(t)
    &&& m.tokens.dom().finite()
    &&& m.tokens.dom().len() == m.all_count
}

/// Ownership is total on minted tokens: a token has a record if and only
/// if it has an owner.
pub open spec fn wf_link(m: Model) -> bool {
    &&& forall|t: u64| #[trigger]
        m.tokens.contains_key(t) ==> m.owner.contains_key(t)
    &&& forall|t: u64| #[trigger]
        m.owner.contains_key(t) ==> m.tokens.contains_key(t)
    &&& m.owner.dom().finite()
}

/// Bookkeeping facts: a record's `id` field is its key, generations stay
/// below the number of minted tokens (so a child generation never
/// overflows), and the nonce advances exactly once per successful mint.
pub open spec fn wf_meta(m: Model) -> bool {
    &&& forall|t: u64| #[trigger]
        m.tokens.contains_key(t) ==> {
            &&& m.tokens[t].id == t
            &&& m.tokens[t].gen < m.all_count
        }
    &&& m.nonce == m.all_count
}

impl Model {
    /// Holds after every completed operation.
    pub open spec fn wf(self) -> bool {
        &&& wf_lists(self)
        &&& wf_global(self)
        &&& wf_link(self)
        &&& wf_meta(self)
    }

    /// The empty state: nothing minted, nothing owned.
    pub open spec fn init() -> Model {
        Model {
            tokens: Map::empty(),
            owner: Map::empty(),
            all_list: Map::empty(),
            all_index: Map::empty(),
            all_count: 0,
            owned_list: Map::empty(),
            owned_index: Map::empty(),
            owned_count: Map::empty(),
            nonce: 0,
        }
    }
}

/// The empty state is well formed.
pub proof fn lemma_init_wf()
    ensures
        Model::init().wf(),
{
    assert(Model::init().tokens.dom() =~= Set::<u64>::empty());
}

// ---------------------------------------------------------------------------
// Step functions: what each mutation does, stated once and shared by the
// contracts of the executable store and by the proved laws.
// ---------------------------------------------------------------------------

/// Registering token `id` globally: append it to the global list at the
/// current count, record its record and its global index, advance the
/// count.
pub open spec fn step_register(m: Model, id: u64, k: Kitty) -> Model {
    Model {
        tokens: m.tokens.insert(id, k),
        all_list: m.all_list.insert(m.all_count, id),
        all_index: m.all_index.insert(id, m.all_count),
        all_count: (m.all_count + 1) as u64,
        ..m
    }
}

/// Appending token `t` to `a`'s per-owner list at the next free index.
pub open spec fn step_assign(m: Model, a: u64, t: u64) -> Model {
    Model {
        owned_list: m.owned_list.insert(slot(a, count_of(m, a)), t),
        owned_index: m.owned_index.insert(t, count_of(m, a)),
        owned_count: m.owned_count.insert(a, (count_of(m, a) + 1) as u64),
        ..m
    }
}

/// Removing token `t` from `a`'s per-owner list by swap-and-pop: unless
/// `t` sits in the last slot, the last slot's token moves into `t`'s slot
/// and its reverse index follows; the last slot is deleted and the count
/// drops by one.
pub open spec fn step_revoke(m: Model, a: u64, t: u64) -> Model {
    let last_index = (count_of(m, a) - 1) as u64;
    let i = m.owned_index[t];
    let last = m.owned_list[slot(a, last_index)];
    Model {
        owned_list: (if i == last_index {
            m.owned_list
        } else {
            m.owned_list.insert(slot(a, i), last)
        }).remove(slot(a, last_index)),
        owned_index: (if i == last_index {
            m.owned_index
        } else {
            m.owned_index.insert(last, i)
        }).remove(t),
        owned_count: m.owned_count.insert(a, last_index),
        ..m
    }
}

/// Recording `a` as the owner of token `t`.
pub open spec fn step_set_owner(m: Model, t: u64, a: u64) -> Model {
    Model { owner: m.owner.insert(t, a), ..m }
}

/// Moving token `t` from `from` to `to` as one atomic unit: revoke,
/// re-record the owner, append to the recipient's list.
pub open spec fn step_reassign(m: Model, from: u64, to: u64, t: u64) -> Model {
    step_assign(step_set_owner(step_revoke(m, from, t), t, to), to, t)
}

/// Minting token `id` with record `k` for `to`: global registration,
/// ownership record, per-owner append, and one tick of the nonce.
pub open spec fn step_mint(m: Model, to: u64, id: u64, k: Kitty) -> Model {
    let m2 = step_assign(step_set_owner(step_register(m, id, k), id, to), to, id);
    Model { nonce: (m2.nonce + 1) as u64, ..m2 }
}

/// Overwriting the price of token `t`; every other attribute stays.
pub open spec fn step_set_price(m: Model, t: u64, p: u64) -> Model {
    Model {
        tokens: m.tokens.insert(t, (Kitty { price: p, ..m.tokens[t] })),
        ..m
    }
}

// ---------------------------------------------------------------------------
// Check functions: for each operation, the error it reports, if and only
// if, on the state it was called in. `Ok` means every validation passed.
// ---------------------------------------------------------------------------

/// Minting `id` for `to` fails on an identifier collision, then on either
/// counter reaching the top of its range.
pub open spec fn mint_check(m: Model, to: u64, id: u64) -> Result<(), Error> {
    if m.owner.contains_key(id) {
        Err(Error::DuplicateId)
    } else if count_of(m, to) == u64::MAX {
        Err(Error::Overflow)
    } else if m.all_count == u64::MAX {
        Err(Error::Overflow)
    } else {
        Ok(())
    }
}

/// Setting a price fails when the token does not exist, then when the
/// caller is not its owner.
pub open spec fn set_price_check(m: Model, sender: u64, t: u64) -> Result<(), Error> {
    if !m.tokens.contains_key(t) {
        Err(Error::NotFound)
    } else if m.owner[t] != sender {
        Err(Error::NotOwner)
    } else {
        Ok(())
    }
}

/// Revoking `t` from `a` fails when `a`'s counter is already zero, then
/// when `t` is not indexed under `a`.
pub open spec fn revoke_check(m: Model, a: u64, t: u64) -> Result<(), Error> {
    if count_of(m, a) == 0 {
        Err(Error::Underflow)
    } else if !m.owner.contains_key(t) || m.owner[t] != a {
        Err(Error::NotFound)
    } else {
        Ok(())
    }
}

/// Reassigning `t` from `from` to `to` fails when `t` is not indexed
/// under `from`, then when the recipient's counter is full. A transfer to
/// oneself never overflows: the count comes back down before it goes up.
pub open spec fn reassign_check(m: Model, from: u64, to: u64, t: u64) -> Result<(), Error> {
    if !m.owner.contains_key(t) || m.owner[t] != from {
        Err(Error::NotFound)
    } else if from != to && count_of(m, to) == u64::MAX {
        Err(Error::Overflow)
    } else {
        Ok(())
    }
}

/// A transfer fails when the token has no owner, then when the caller is
/// not that owner, then as the reassignment itself would.
pub open spec fn transfer_check(m: Model, sender: u64, to: u64, t: u64) -> Result<(), Error> {
    if !m.owner.contains_key(t) {
        Err(Error::NotFound)
    } else if m.owner[t] != sender {
        Err(Error::NotOwner)
    } else if sender != to && count_of(m, to) == u64::MAX {
        Err(Error::Overflow)
    } else {
        Ok(())
    }
}

/// Breeding fails when either parent is absent, then as minting the child
/// would.
pub open spec fn breed_check(m: Model, sender: u64, t1: u64, t2: u64, id: u64) -> Result<(), Error> {
    if !m.tokens.contains_key(t1) {
        Err(Error::NotFound)
    } else if !m.tokens.contains_key(t2) {
        Err(Error::NotFound)
    } else {
        mint_check(m, sender, id)
    }
}

/// An account's currency balance; absence of an entry reads as zero.
pub open spec fn bal(led: Map<u64, u64>, a: u64) -> u64 {
    if led.contains_key(a) {
        led[a]
    } else {
        0
    }
}

/// The currency collaborator moves the funds exactly when the payer's
/// balance covers the amount and the payee's balance can take it.
pub open spec fn pay_ok(led: Map<u64, u64>, from: u64, to: u64, v: u64) -> bool {
    &&& bal(led, from) >= v
    &&& (from == to || bal(led, to) + v <= u64::MAX)
}

/// The balances after a successful payment.
pub open spec fn step_pay(led: Map<u64, u64>, from: u64, to: u64, v: u64) -> Map<u64, u64> {
    if from == to {
        led
    } else {
        led.insert(from, (bal(led, from) - v) as u64).insert(to, (bal(led, to) + v) as u64)
    }
}

/// A purchase fails when the token is absent, when the caller already
/// owns it, when it is not for sale, when it costs more than the caller's
/// maximum, when the caller's ownership counter is full, and when the
/// ledger cannot move the funds -- in that order, each checked before any
/// write.
pub open spec fn buy_check(
    m: Model,
    led: Map<u64, u64>,
    sender: u64,
    t: u64,
    max_price: u64,
) -> Result<(), Error> {
    if !m.tokens.contains_key(t) {
        Err(Error::NotFound)
    } else if m.owner[t] == sender {
        Err(Error::SelfPurchase)
    } else if m.tokens[t].price == 0 {
        Err(Error::NotForSale)
    } else if m.tokens[t].price > max_price {
        Err(Error::PriceExceeded)
    } else if count_of(m, sender) == u64::MAX {
        Err(Error::Overflow)
    } else if !pay_ok(led, sender, m.owner[t], m.tokens[t].price) {
        Err(Error::LedgerError)
    } else {
        Ok(())
    }
}

/// The registry after a successful purchase: ownership moves to the
/// buyer and the token immediately stops being for sale.
pub open spec fn step_buy(m: Model, sender: u64, t: u64) -> Model {
    step_set_price(step_reassign(m, m.owner[t], sender, t), t, 0)
}

/// The child bred from the parents `t1` and `t2` under the fresh
/// identifier `id`, which doubles as the steering word of the byte mix:
/// one past the larger parent generation, not for sale.
pub open spec fn breed_child(m: Model, t1: u64, t2: u64, id: u64) -> Kitty {
    let g1 = m.tokens[t1].gen;
    let g2 = m.tokens[t2].gen;
    Kitty {
        id: id,
        dna: crate::dna::mix_dna(m.tokens[t1].dna, m.tokens[t2].dna, id),
        price: 0,
        gen: ((if g1 >= g2 {
            g1
        } else {
            g2
        }) + 1) as u64,
    }
}

// ---------------------------------------------------------------------------
// Preservation: each step applied under its validated preconditions keeps
// the state well formed.
// ---------------------------------------------------------------------------

/// Reassigning an owned token keeps the state well formed; the donor's
/// count drops by one and the recipient's rises by one (net zero when
/// they coincide), every other count and every other mapping stays.
pub proof fn lemma_reassign_wf(m: Model, from: u64, to: u64, t: u64)
    requires
        m.wf(),
        m.owner.contains_key(t),
        m.owner[t] == from,
        from != to ==> count_of(m, to) < u64::MAX,
    ensures
        step_reassign(m, from, to, t).wf(),
        step_reassign(m, from, to, t).tokens == m.tokens,
        step_reassign(m, from, to, t).all_count == m.all_count,
        step_reassign(m, from, to, t).nonce == m.nonce,
        step_reassign(m, from, to, t).owner == m.owner.insert(t, to),
        count_of(step_reassign(m, from, to, t), from) == (if from == to {
            count_of(m, from)
        } else {
            (count_of(m, from) - 1) as u64
        }),
        count_of(step_reassign(m, from, to, t), to) == (if from == to {
            count_of(m, to)
        } else {
            (count_of(m, to) + 1) as u64
        }),
        forall|a: u64| a != from && a != to ==> count_of(step_reassign(m, from, to, t), a)
            == count_of(m, a),
        step_reassign(m, from, to, t).owned_index[t] == (if from == to {
            (count_of(m, from) - 1) as u64
        } else {
            count_of(m, to)
        }),
{
    broadcast use lemma_slot_injective;

    let n: u64 = count_of(m, from);
    assert(m.owned_index.contains_key(t) && m.owned_index[t] < n
        && m.owned_list[slot(from, m.owned_index[t])] == t);
    let i: u64 = m.owned_index[t];
    let lasti: u64 = (n - 1) as u64;
    assert(m.owned_list.contains_key(slot(from, lasti)));
    let last: u64 = m.owned_list[slot(from, lasti)];
    assert(m.owned_index[last] == lasti && m.owner.contains_key(last) && m.owner[last] == from);
    assert(i == lasti <==> last == t);

    let m1 = step_revoke(m, from, t);
    assert(count_of(m1, from) == lasti);
    assert(forall|a: u64| a != from ==> count_of(m1, a) == count_of(m, a));

    // The donor's list after the pop is dense again and still inverted,
    // and no longer holds `t` anywhere.
    assert forall|a: u64, j: u64|
        #![trigger slot(a, j)]
        {
            &&& (m1.owned_list.contains_key(slot(a, j)) <==> j < count_of(m1, a))
            &&& (j < count_of(m1, a) ==> {
                let u = m1.owned_list[slot(a, j)];
                &&& u != t
                &&& m1.owned_index.contains_key(u)
                &&& m1.owned_index[u] == j
                &&& m.owner.contains_key(u)
                &&& m.owner[u] == a
            })
        } by {
        if j < count_of(m1, a) {
            let u = m1.owned_list[slot(a, j)];
            if a == from && j == i && i != lasti {
                assert(u == last);
            } else {
                assert(u == m.owned_list[slot(a, j)]);
                assert(m.owned_index[u] == j && m.owner[u] == a);
                assert(u != t) by {
                    if u == t {
                        assert(a == from && j == i);
                    }
                }
                assert(u != last || (a == from && j == lasti)) by {
                    if u == last {
                        assert(a == from && j == lasti);
                    }
                }
            }
        }
    }

    // Every token the donor still owns, and every token of every other
    // account, keeps a correct reverse index after the pop.
    assert forall|u: u64| m1.owned_index.contains_key(u) implies {
        &&& u != t
        &&& m.owner.contains_key(u)
        &&& m1.owned_index[u] < count_of(m1, m.owner[u])
        &&& m1.owned_list.contains_key(slot(m.owner[u], m1.owned_index[u]))
        &&& m1.owned_list[slot(m.owner[u], m1.owned_index[u])] == u
    } by {
        let a = m.owner[u];
        if u == last && i != lasti {
            assert(m1.owned_index[u] == i);
            assert(m1.owned_list[slot(from, i)] == last);
        } else {
            let j = m.owned_index[u];
            assert(m.owned_list[slot(a, j)] == u);
            if a == from {
                assert(j != i) by {
                    if j == i {
                        assert(m.owned_list[slot(from, i)] == t);
                    }
                }
                assert(j != lasti) by {
                    if j == lasti {
                        assert(m.owned_list[slot(from, lasti)] == last);
                    }
                }
            }
            assert(m1.owned_list[slot(a, j)] == u);
        }
    }

    let k: u64 = count_of(m1, to);
    assert(k < u64::MAX) by {
        if from == to {
            assert(k == lasti && lasti < n);
        }
    }
    let r = step_reassign(m, from, to, t);
    assert(r.owned_list == m1.owned_list.insert(slot(to, k), t));
    assert(r.owned_index == m1.owned_index.insert(t, k));
    assert(r.owned_count == m1.owned_count.insert(to, (k + 1) as u64));
    assert(r.owner == m.owner.insert(t, to));
    assert(count_of(r, to) == k + 1);
    assert(forall|a: u64| a != to ==> count_of(r, a) == count_of(m1, a));

    // Density and inversion of the recipient's extended list, and of all
    // untouched lists.
    assert forall|a: u64, j: u64|
        #![trigger slot(a, j)]
        {
            &&& (r.owned_list.contains_key(slot(a, j)) <==> j < count_of(r, a))
            &&& (j < count_of(r, a) ==> {
                let u = r.owned_list[slot(a, j)];
                &&& r.owned_index.contains_key(u)
                &&& r.owned_index[u] == j
                &&& r.owner.contains_key(u)
                &&& r.owner[u] == a
            })
        } by {
        if j < count_of(r, a) {
            if a == to && j == k {
                assert(r.owned_list[slot(to, k)] == t);
            } else {
                assert(j < count_of(m1, a));
                let u = m1.owned_list[slot(a, j)];
                assert(u != t && m1.owned_index[u] == j && m.owner[u] == a);
                assert(r.owned_list[slot(a, j)] == u);
            }
        }
    }

    // Every owned token, the moved one included, keeps a correct reverse
    // index in the final state.
    assert forall|u: u64| r.owner.contains_key(u) implies {
        &&& r.owned_index.contains_key(u)
        &&& r.owned_index[u] < count_of(r, r.owner[u])
        &&& r.owned_list.contains_key(slot(r.owner[u], r.owned_index[u]))
        &&& r.owned_list[slot(r.owner[u], r.owned_index[u])] == u
    } by {
        if u == t {
            assert(r.owned_list[slot(to, k)] == t);
        } else {
            assert(m.owner.contains_key(u));
            let a = m.owner[u];
            if u == last && i != lasti {
                assert(m1.owned_index.contains_key(u));
            } else {
                assert(m.owned_index.contains_key(u));
                assert(m1.owned_index.contains_key(u)) by {
                    assert(u != t && (u != last || i == lasti));
                }
            }
            let j = m1.owned_index[u];
            assert(j < count_of(m1, a) && m1.owned_list[slot(a, j)] == u);
            assert(r.owned_list[slot(a, j)] == u) by {
                assert(!(a == to && j == k));
            }
        }
    }

    assert forall|u: u64| r.owned_index.contains_key(u) implies r.owner.contains_key(u) by {
        if u != t {
            assert(m1.owned_index.contains_key(u));
            if u == last && i != lasti {
            } else {
                assert(m.owned_index.contains_key(u));
            }
        }
    }

    assert(r.owner.dom() == m.owner.dom().insert(t));
}

/// Minting a fresh identifier under validated counters keeps the state
/// well formed; both counters rise by one and so does the nonce.
pub proof fn lemma_mint_wf(m: Model, to: u64, id: u64, k: Kitty)
    requires
        m.wf(),
        !m.tokens.contains_key(id),
        count_of(m, to) < u64::MAX,
        m.all_count < u64::MAX,
        k.id == id,
        k.gen <= m.all_count,
    ensures
        step_mint(m, to, id, k).wf(),
        step_mint(m, to, id, k).tokens == m.tokens.insert(id, k),
        step_mint(m, to, id, k).owner == m.owner.insert(id, to),
        step_mint(m, to, id, k).all_count == m.all_count + 1,
        step_mint(m, to, id, k).nonce == m.nonce + 1,
        count_of(step_mint(m, to, id, k), to) == count_of(m, to) + 1,
        forall|a: u64| a != to ==> count_of(step_mint(m, to, id, k), a) == count_of(m, a),
        step_mint(m, to, id, k).owned_index[id] == count_of(m, to),
{
    broadcast use lemma_slot_injective;

    let n: u64 = m.all_count;
    let c: u64 = count_of(m, to);
    assert(!m.owner.contains_key(id));
    assert(!m.owned_index.contains_key(id));
    assert(!m.all_index.contains_key(id));
    let r = step_mint(m, to, id, k);
    assert(r.tokens == m.tokens.insert(id, k));
    assert(r.all_list == m.all_list.insert(n, id));
    assert(r.all_index == m.all_index.insert(id, n));
    assert(r.owner == m.owner.insert(id, to));
    assert(r.owned_list == m.owned_list.insert(slot(to, c), id));
    assert(r.owned_index == m.owned_index.insert(id, c));
    assert(r.owned_count == m.owned_count.insert(to, (c + 1) as u64));
    assert(count_of(r, to) == c + 1);

    assert(r.tokens.dom() == m.tokens.dom().insert(id));
    assert(r.tokens.dom().len() == n + 1);

    // The global list stays dense and inverted with the fresh token at
    // its tail.
    assert forall|j: u64| #![trigger r.all_list[j]] j < r.all_count implies {
        &&& r.tokens.contains_key(r.all_list[j])
        &&& r.all_index.contains_key(r.all_list[j])
        &&& r.all_index[r.all_list[j]] == j
    } by {
        if j < n {
            assert(r.all_list[j] == m.all_list[j]);
            assert(m.tokens.contains_key(m.all_list[j]));
        }
    }
    assert forall|t: u64| #[trigger] r.tokens.contains_key(t) implies {
        &&& r.all_index.contains_key(t)
        &&& r.all_index[t] < r.all_count
        &&& r.all_list[r.all_index[t]] == t
    } by {
        if t != id {
            assert(m.all_index[t] < n);
        }
    }

    // The recipient's list stays dense and inverted with the fresh token
    // at its tail.
    assert forall|a: u64, j: u64|
        #![trigger slot(a, j)]
        {
            &&& (r.owned_list.contains_key(slot(a, j)) <==> j < count_of(r, a))
            &&& (j < count_of(r, a) ==> {
                let u = r.owned_list[slot(a, j)];
                &&& r.owned_index.contains_key(u)
                &&& r.owned_index[u] == j
                &&& r.owner.contains_key(u)
                &&& r.owner[u] == a
            })
        } by {
        if j < count_of(r, a) {
            if a == to && j == c {
                assert(r.owned_list[slot(to, c)] == id);
            } else {
                assert(j < count_of(m, a));
                let u = m.owned_list[slot(a, j)];
                assert(m.owned_index[u] == j && m.owner[u] == a);
                assert(u != id);
                assert(r.owned_list[slot(a, j)] == u);
            }
        }
    }
    assert forall|u: u64| r.owner.contains_key(u) implies {
        &&& r.owned_index.contains_key(u)
        &&& r.owned_index[u] < count_of(r, r.owner[u])
        &&& r.owned_list.contains_key(slot(r.owner[u], r.owned_index[u]))
        &&& r.owned_list[slot(r.owner[u], r.owned_index[u])] == u
    } by {
        if u == id {
            assert(r.owned_list[slot(to, c)] == id);
        } else {
            let a = m.owner[u];
            let j = m.owned_index[u];
            assert(m.owned_list[slot(a, j)] == u);
            assert(r.owned_list[slot(a, j)] == u) by {
                assert(!(a == to && j == c));
            }
        }
    }
}

/// Overwriting a price keeps the state well formed: the token keeps its
/// key, identifier and generation, and no list or counter moves.
pub proof fn lemma_set_price_wf(m: Model, t: u64, p: u64)
    requires
        m.wf(),
        m.tokens.contains_key(t),
    ensures
        step_set_price(m, t, p).wf(),
        step_set_price(m, t, p).tokens.dom() == m.tokens.dom(),
{
    let r = step_set_price(m, t, p);
    assert(r.tokens.dom() =~= m.tokens.dom());
}

} // verus!
