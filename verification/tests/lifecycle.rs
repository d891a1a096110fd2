//! The token lifecycle through the public operations: minting, pricing,
//! transferring, buying and breeding, with every error variant reachable
//! from outside.

use substratekitties::ledger::Ledger;
use substratekitties::store::Store;
use substratekitties::types::Error;

#[test]
fn mint_defaults() {
    let mut s = Store::new();
    let id = s.create_kitty(1, 42).unwrap();
    assert_eq!(id, 42);
    let k = s.kitty(42).unwrap();
    assert_eq!(k.id, 42);
    assert_eq!(k.dna, 42);
    assert_eq!(k.price, 0);
    assert_eq!(k.gen, 0);
    assert_eq!(s.owner_of(42), Some(1));
    assert_eq!(s.owned_kitty_count(1), 1);
    assert_eq!(s.all_kitties_count(), 1);
    assert_eq!(s.kitty_by_index(0), Some(42));
    assert_eq!(s.nonce(), 1);
}

#[test]
fn mint_duplicate_id_rejected() {
    let mut s = Store::new();
    s.create_kitty(1, 42).unwrap();
    assert_eq!(s.create_kitty(2, 42), Err(Error::DuplicateId));
    // The failed mint left everything as it was.
    assert_eq!(s.owner_of(42), Some(1));
    assert_eq!(s.all_kitties_count(), 1);
    assert_eq!(s.owned_kitty_count(2), 0);
    assert_eq!(s.nonce(), 1);
}

#[test]
fn set_price_and_errors() {
    let mut s = Store::new();
    s.create_kitty(1, 7).unwrap();
    assert_eq!(s.set_price(1, 7, 100), Ok(()));
    assert_eq!(s.kitty(7).unwrap().price, 100);
    assert_eq!(s.set_price(1, 8, 5), Err(Error::NotFound));
    assert_eq!(s.set_price(2, 7, 5), Err(Error::NotOwner));
    // Neither failure touched the price.
    assert_eq!(s.kitty(7).unwrap().price, 100);
}

#[test]
fn transfer_moves_ownership() {
    let mut s = Store::new();
    s.create_kitty(1, 7).unwrap();
    s.set_price(1, 7, 33).unwrap();
    assert_eq!(s.transfer(1, 2, 7), Ok(()));
    assert_eq!(s.owner_of(7), Some(2));
    assert_eq!(s.owned_kitty_count(1), 0);
    assert_eq!(s.owned_kitty_count(2), 1);
    // A transfer never touches the record itself.
    let k = s.kitty(7).unwrap();
    assert_eq!(k.price, 33);
    assert_eq!(k.dna, 7);
    assert_eq!(k.gen, 0);
}

#[test]
fn transfer_errors_change_nothing() {
    let mut s = Store::new();
    s.create_kitty(1, 7).unwrap();
    assert_eq!(s.transfer(1, 2, 99), Err(Error::NotFound));
    assert_eq!(s.transfer(2, 3, 7), Err(Error::NotOwner));
    assert_eq!(s.owner_of(7), Some(1));
    assert_eq!(s.owned_kitty_count(1), 1);
    assert_eq!(s.owned_kitty_count(2), 0);
    assert_eq!(s.owned_kitty_count(3), 0);
}

#[test]
fn transfer_round_trip_restores_everything() {
    let mut s = Store::new();
    s.create_kitty(1, 7).unwrap();
    s.create_kitty(1, 8).unwrap();
    s.set_price(1, 7, 55).unwrap();
    s.transfer(1, 2, 7).unwrap();
    s.transfer(2, 1, 7).unwrap();
    assert_eq!(s.owner_of(7), Some(1));
    assert_eq!(s.owned_kitty_count(1), 2);
    assert_eq!(s.owned_kitty_count(2), 0);
    let k = s.kitty(7).unwrap();
    assert_eq!((k.price, k.dna, k.gen), (55, 7, 0));
}

#[test]
fn removing_the_only_token_leaves_a_clean_owner() {
    let mut s = Store::new();
    s.create_kitty(1, 7).unwrap();
    assert_eq!(s.owned_kitty_count(1), 1);
    s.transfer(1, 2, 7).unwrap();
    assert_eq!(s.owned_kitty_count(1), 0);
    // No residual index entry under the old owner.
    assert_eq!(s.kitty_of_owner_by_index(1, 0), None);
    assert_eq!(s.kitty_of_owner_by_index(2, 0), Some(7));
}

#[test]
fn self_transfer_succeeds_and_keeps_the_count() {
    let mut s = Store::new();
    s.create_kitty(1, 7).unwrap();
    s.create_kitty(1, 8).unwrap();
    s.create_kitty(1, 9).unwrap();
    assert_eq!(s.transfer(1, 1, 7), Ok(()));
    assert_eq!(s.owner_of(7), Some(1));
    assert_eq!(s.owned_kitty_count(1), 3);
    // The token's per-owner index may change (swap-and-pop moved it to
    // the tail), but the three slots still hold exactly the three tokens.
    let mut held = [
        s.kitty_of_owner_by_index(1, 0).unwrap(),
        s.kitty_of_owner_by_index(1, 1).unwrap(),
        s.kitty_of_owner_by_index(1, 2).unwrap(),
    ];
    held.sort();
    assert_eq!(held, [7, 8, 9]);
    assert_eq!(s.kitty_of_owner_by_index(1, 3), None);
}

#[test]
fn buy_scenario_moves_funds_then_ownership() {
    let mut s = Store::new();
    let mut l = Ledger::new();
    s.create_kitty(1, 7).unwrap();
    assert_eq!(s.set_price(1, 7, 100), Ok(()));
    assert_eq!(s.kitty(7).unwrap().price, 100);
    l.deposit(2, 150).unwrap();
    assert_eq!(s.buy_kitty(&mut l, 2, 7, 150), Ok(()));
    assert_eq!(l.balance_of(2), 50);
    assert_eq!(l.balance_of(1), 100);
    assert_eq!(s.owner_of(7), Some(2));
    assert_eq!(s.kitty(7).unwrap().price, 0);
    assert_eq!(s.owned_kitty_count(1), 0);
    assert_eq!(s.owned_kitty_count(2), 1);
}

#[test]
fn buy_not_for_sale_moves_nothing() {
    let mut s = Store::new();
    let mut l = Ledger::new();
    s.create_kitty(1, 7).unwrap();
    l.deposit(2, 150).unwrap();
    assert_eq!(s.buy_kitty(&mut l, 2, 7, 150), Err(Error::NotForSale));
    assert_eq!(l.balance_of(1), 0);
    assert_eq!(l.balance_of(2), 150);
    assert_eq!(s.owner_of(7), Some(1));
    assert_eq!(s.owned_kitty_count(1), 1);
    assert_eq!(s.owned_kitty_count(2), 0);
}

#[test]
fn buy_error_taxonomy() {
    let mut s = Store::new();
    let mut l = Ledger::new();
    s.create_kitty(1, 7).unwrap();
    s.set_price(1, 7, 100).unwrap();
    assert_eq!(s.buy_kitty(&mut l, 2, 99, 100), Err(Error::NotFound));
    assert_eq!(s.buy_kitty(&mut l, 1, 7, 100), Err(Error::SelfPurchase));
    assert_eq!(s.buy_kitty(&mut l, 2, 7, 99), Err(Error::PriceExceeded));
    // Insufficient funds: the ledger refuses and nothing moves.
    l.deposit(2, 40).unwrap();
    assert_eq!(s.buy_kitty(&mut l, 2, 7, 100), Err(Error::LedgerError));
    assert_eq!(l.balance_of(1), 0);
    assert_eq!(l.balance_of(2), 40);
    assert_eq!(s.owner_of(7), Some(1));
}

#[test]
fn breed_scenario() {
    let mut s = Store::new();
    s.create_kitty(1, 10).unwrap();
    s.create_kitty(2, 20).unwrap();
    let child = s.breed_kitty(3, 10, 20, 30).unwrap();
    assert_eq!(child, 30);
    let k = s.kitty(30).unwrap();
    assert_eq!(k.gen, 1);
    assert_eq!(k.price, 0);
    assert_eq!(s.owner_of(30), Some(3));
    assert_eq!(s.owned_kitty_count(3), 1);
    assert_eq!(s.all_kitties_count(), 3);
    assert_eq!(s.nonce(), 3);
    // Every byte of the child comes from the parent the steering word
    // selects: the second parent where the byte of the identifier is
    // even, the first otherwise.
    let (d1, d2, steer) = (10u64, 20u64, 30u64);
    for i in 0..8 {
        let child_byte = (k.dna >> (8 * i)) & 0xff;
        let b1 = (d1 >> (8 * i)) & 0xff;
        let b2 = (d2 >> (8 * i)) & 0xff;
        let sb = (steer >> (8 * i)) & 0xff;
        if sb % 2 == 0 {
            assert_eq!(child_byte, b2);
        } else {
            assert_eq!(child_byte, b1);
        }
        assert!(child_byte == b1 || child_byte == b2);
    }
}

#[test]
fn breed_generation_is_one_past_the_larger_parent() {
    let mut s = Store::new();
    s.create_kitty(1, 10).unwrap();
    s.create_kitty(1, 20).unwrap();
    let c1 = s.breed_kitty(1, 10, 20, 30).unwrap();
    assert_eq!(s.kitty(c1).unwrap().gen, 1);
    let c2 = s.breed_kitty(1, 10, 30, 40).unwrap();
    assert_eq!(s.kitty(c2).unwrap().gen, 2);
    let c3 = s.breed_kitty(1, 40, 40, 50).unwrap();
    assert_eq!(s.kitty(c3).unwrap().gen, 3);
}

#[test]
fn breed_errors() {
    let mut s = Store::new();
    s.create_kitty(1, 10).unwrap();
    assert_eq!(s.breed_kitty(1, 99, 10, 30), Err(Error::NotFound));
    assert_eq!(s.breed_kitty(1, 10, 99, 30), Err(Error::NotFound));
    assert_eq!(s.breed_kitty(1, 10, 10, 10), Err(Error::DuplicateId));
    assert_eq!(s.all_kitties_count(), 1);
    assert_eq!(s.nonce(), 1);
}

#[test]
fn ledger_deposit_overflow() {
    let mut l = Ledger::new();
    l.deposit(1, u64::MAX).unwrap();
    assert_eq!(l.deposit(1, 1), Err(Error::Overflow));
    assert_eq!(l.balance_of(1), u64::MAX);
}

#[test]
fn ledger_transfer_to_full_account_refused() {
    let mut l = Ledger::new();
    l.deposit(1, 10).unwrap();
    l.deposit(2, u64::MAX).unwrap();
    assert_eq!(l.make_transfer(1, 2, 5), Err(Error::LedgerError));
    assert_eq!(l.balance_of(1), 10);
    assert_eq!(l.balance_of(2), u64::MAX);
}
