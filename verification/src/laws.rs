//! The library's laws: properties that relate several operations or
//! quantify over every well-formed state, stated and proved once over
//! the model that every contract speaks of.

use vstd::prelude::*;

use crate::model::{count_of, slot, step_reassign, transfer_check, Model};

verus! {

/// The global counter equals the number of minted tokens. Tokens are
/// never deleted and every successful mint inserts exactly one fresh
/// identifier, so this is the number of distinct identifiers ever minted.
pub proof fn lemma_global_count(m: Model)
    requires
        m.wf(),
    ensures
        m.tokens.dom().len() == m.all_count,
{
}

/// The set of tokens currently owned by `a`.
pub open spec fn owned_set(m: Model, a: u64) -> Set<u64> {
    Set::new(|t: u64| m.owner.contains_key(t) && m.owner[t] == a)
}

/// Every owner's counter equals the number of tokens that owner
/// currently holds: the dense, gap-free index range 0..count lists each
/// of them exactly once.
pub proof fn lemma_owned_count(m: Model, a: u64)
    requires
        m.wf(),
    ensures
        owned_set(m, a).finite(),
        owned_set(m, a).len() == count_of(m, a),
        forall|j: u64| #![trigger slot(a, j)] j < count_of(m, a) <==> m.owned_list.contains_key(
            slot(a, j),
        ),
{
    broadcast use vstd::seq_lib::seq_to_set_is_finite;

    let n = count_of(m, a);
    let listed = Seq::new(n as nat, |j: int| m.owned_list[slot(a, j as u64)]);
    assert forall|p: int, q: int| 0 <= p < q < listed.len() implies listed[p] != listed[q] by {
        assert(m.owned_index[listed[p]] == p && m.owned_index[listed[q]] == q);
    }
    assert(listed.no_duplicates());
    assert forall|t: u64| owned_set(m, a).contains(t) implies listed.to_set().contains(t) by {
        let j = m.owned_index[t];
        assert(m.owned_list[slot(a, j)] == t);
        assert(listed[j as int] == t);
        assert(listed.contains(t));
    }
    assert forall|t: u64| listed.to_set().contains(t) implies owned_set(m, a).contains(t) by {
        let j = choose|j: int| 0 <= j < listed.len() && listed[j] == t;
        assert(m.owned_list[slot(a, j as u64)] == t);
    }
    assert(listed.to_set() =~= owned_set(m, a));
    listed.unique_seq_to_set();
}

/// Ownership is exclusive: a token sits in exactly one owner's list, at
/// exactly one index -- the one its reverse index records.
pub proof fn lemma_exclusive_ownership(m: Model, a: u64, j: u64, b: u64, k: u64, t: u64)
    requires
        m.wf(),
        j < count_of(m, a),
        k < count_of(m, b),
        m.owned_list[slot(a, j)] == t,
        m.owned_list[slot(b, k)] == t,
    ensures
        a == b && j == k,
        m.owner.contains_key(t) && m.owner[t] == a && m.owned_index[t] == j,
{
}

/// Transferring a token away and back restores the owner, both counts,
/// and every token record -- price, payload and generation are never
/// touched by a transfer.
pub proof fn lemma_transfer_round_trip(m: Model, a: u64, b: u64, t: u64)
    requires
        m.wf(),
        m.owner.contains_key(t),
        m.owner[t] == a,
        a != b ==> count_of(m, b) < u64::MAX,
    ensures
        ({
            let once = step_reassign(m, a, b, t);
            let back = step_reassign(once, b, a, t);
            &&& transfer_check(m, a, b, t) is Ok
            &&& transfer_check(once, b, a, t) is Ok
            &&& back.wf()
            &&& back.owner == m.owner
            &&& back.tokens == m.tokens
            &&& forall|x: u64| count_of(back, x) == count_of(m, x)
        }),
{
    crate::model::lemma_reassign_wf(m, a, b, t);
    let once = step_reassign(m, a, b, t);
    crate::model::lemma_reassign_wf(once, b, a, t);
    let back = step_reassign(once, b, a, t);
    assert(back.owner =~= m.owner);
    assert forall|x: u64| count_of(back, x) == count_of(m, x) by {
        if x != a && x != b {
            assert(count_of(once, x) == count_of(m, x));
        }
    }
}

/// Removing the only token an owner holds does not underflow: the
/// transfer succeeds, the count lands on zero, and no index entry under
/// that owner survives.
pub proof fn lemma_remove_last_owned(m: Model, a: u64, b: u64, t: u64)
    requires
        m.wf(),
        m.owner.contains_key(t),
        m.owner[t] == a,
        count_of(m, a) == 1,
        a != b,
        count_of(m, b) < u64::MAX,
    ensures
        ({
            let r = step_reassign(m, a, b, t);
            &&& transfer_check(m, a, b, t) is Ok
            &&& r.wf()
            &&& count_of(r, a) == 0
            &&& forall|j: u64| !r.owned_list.contains_key(slot(a, j))
        }),
{
    crate::model::lemma_reassign_wf(m, a, b, t);
}

/// A transfer to oneself succeeds -- whatever the count, since it comes
/// back down before it goes up -- and leaves the owner, every count and
/// every token record unchanged; only the token's per-owner index may
/// move.
pub proof fn lemma_self_transfer(m: Model, a: u64, t: u64)
    requires
        m.wf(),
        m.owner.contains_key(t),
        m.owner[t] == a,
    ensures
        ({
            let r = step_reassign(m, a, a, t);
            &&& transfer_check(m, a, a, t) is Ok
            &&& r.wf()
            &&& r.owner == m.owner
            &&& r.owner.contains_key(t) && r.owner[t] == a
            &&& r.tokens == m.tokens
            &&& forall|x: u64| count_of(r, x) == count_of(m, x)
        }),
{
    crate::model::lemma_reassign_wf(m, a, a, t);
    let r = step_reassign(m, a, a, t);
    assert(r.owner =~= m.owner);
    assert forall|x: u64| count_of(r, x) == count_of(m, x) by {
        if x != a {
            assert(count_of(r, x) == count_of(m, x));
        }
    }
}

} // verus!
