//! The indexed ownership registry on its own: dense per-owner lists,
//! swap-and-pop removal, and the registry primitives.

use substratekitties::store::Store;
use substratekitties::types::{Error, Kitty};

#[test]
fn per_owner_indexes_are_dense() {
    let mut s = Store::new();
    s.create_kitty(1, 10).unwrap();
    s.create_kitty(1, 20).unwrap();
    s.create_kitty(1, 30).unwrap();
    assert_eq!(s.kitty_of_owner_by_index(1, 0), Some(10));
    assert_eq!(s.kitty_of_owner_by_index(1, 1), Some(20));
    assert_eq!(s.kitty_of_owner_by_index(1, 2), Some(30));
    assert_eq!(s.kitty_of_owner_by_index(1, 3), None);
}

#[test]
fn swap_and_pop_fills_the_vacated_slot_with_the_last_token() {
    let mut s = Store::new();
    s.create_kitty(1, 10).unwrap();
    s.create_kitty(1, 20).unwrap();
    s.create_kitty(1, 30).unwrap();
    // Removing the middle token pulls the last one into its slot.
    s.transfer(1, 2, 20).unwrap();
    assert_eq!(s.owned_kitty_count(1), 2);
    assert_eq!(s.kitty_of_owner_by_index(1, 0), Some(10));
    assert_eq!(s.kitty_of_owner_by_index(1, 1), Some(30));
    assert_eq!(s.kitty_of_owner_by_index(1, 2), None);
    assert_eq!(s.kitty_of_owner_by_index(2, 0), Some(20));
}

#[test]
fn removing_the_last_slot_needs_no_swap() {
    let mut s = Store::new();
    s.create_kitty(1, 10).unwrap();
    s.create_kitty(1, 20).unwrap();
    s.transfer(1, 2, 20).unwrap();
    assert_eq!(s.owned_kitty_count(1), 1);
    assert_eq!(s.kitty_of_owner_by_index(1, 0), Some(10));
    assert_eq!(s.kitty_of_owner_by_index(1, 1), None);
}

#[test]
fn global_list_is_append_only() {
    let mut s = Store::new();
    s.create_kitty(1, 10).unwrap();
    s.create_kitty(2, 20).unwrap();
    s.transfer(1, 3, 10).unwrap();
    // Transfers never move the global list or its count.
    assert_eq!(s.all_kitties_count(), 2);
    assert_eq!(s.kitty_by_index(0), Some(10));
    assert_eq!(s.kitty_by_index(1), Some(20));
    assert_eq!(s.kitty_by_index(2), None);
}

#[test]
fn registry_primitives_compose_into_a_mint() {
    let mut s = Store::new();
    let k = Kitty { id: 5, dna: 5, price: 0, gen: 0 };
    s.register_global(5, k).unwrap();
    assert_eq!(s.all_kitties_count(), 1);
    assert_eq!(s.kitty_by_index(0), Some(5));
    assert_eq!(s.kitty(5).unwrap().id, 5);
    s.assign_owner(5, 9).unwrap();
    assert_eq!(s.owned_kitty_count(9), 1);
    assert_eq!(s.kitty_of_owner_by_index(9, 0), Some(5));
}

#[test]
fn revoke_owner_underflow_and_not_found() {
    let mut s = Store::new();
    s.create_kitty(1, 10).unwrap();
    // An owner with no tokens underflows before anything else is checked.
    assert_eq!(s.revoke_owner(2, 10), Err(Error::Underflow));
    // An owner with tokens, asked about a token it does not hold.
    s.create_kitty(2, 20).unwrap();
    assert_eq!(s.revoke_owner(2, 10), Err(Error::NotFound));
    assert_eq!(s.revoke_owner(2, 99), Err(Error::NotFound));
    assert_eq!(s.owned_kitty_count(2), 1);
}

#[test]
fn reassign_owner_checks_the_donor() {
    let mut s = Store::new();
    s.create_kitty(1, 10).unwrap();
    assert_eq!(s.reassign_owner(10, 2, 3), Err(Error::NotFound));
    assert_eq!(s.owner_of(10), Some(1));
    assert_eq!(s.reassign_owner(10, 1, 3), Ok(()));
    assert_eq!(s.owner_of(10), Some(3));
    assert_eq!(s.owned_kitty_count(1), 0);
    assert_eq!(s.owned_kitty_count(3), 1);
}
