use kitties::pallet::Kitties;
use kitties::{Error, Event};

fn seed(n: u8) -> [u8; 32] {
    [n; 32]
}

fn new_test_ext() -> Kitties {
    let mut k = Kitties::new();
    k.set_balance(1, 10);
    k.set_balance(2, 10);
    k
}

#[test]
fn create_kitty_event_works() {
    let mut kitties = new_test_ext();
    assert!(kitties.create(1, &seed(1), 0).is_ok());
    assert_eq!(kitties.events().len(), 1);
    assert_eq!(kitties.events()[0], Event::Created(1u64, 0));
}

#[test]
fn transfer_kitty_works() {
    let mut kitties = new_test_ext();
    let _ = kitties.create(1, &seed(1), 0);
    assert!(kitties.transfer(1, 2, 0).is_ok());
}

#[test]
fn transfer_kitty_failed_when_not_exists() {
    let mut kitties = new_test_ext();
    assert_eq!(kitties.transfer(1, 2, 0), Err(Error::RequireOwner));
}

#[test]
fn transfer_kitties_work() {
    let mut kitties = new_test_ext();
    assert!(kitties.create(1, &seed(1), 0).is_ok());
    let id = kitties.kitties_count();
    assert!(kitties.transfer(1, 2, id - 1).is_ok());
    assert_eq!(kitties.transfer(1, 2, id - 1), Err(Error::RequireOwner));
}

#[test]
fn breed_kitty_work() {
    let mut kitties = new_test_ext();
    let _ = kitties.create(1, &seed(1), 0);
    let _ = kitties.create(1, &seed(2), 1);
    assert!(kitties.breed(1, 0, 1, &seed(3), 2).is_ok());
}

#[test]
fn breed_kitty_fail_when_parent_same() {
    let mut kitties = new_test_ext();
    let _ = kitties.create(1, &seed(1), 0);
    assert_eq!(kitties.breed(1, 0, 0, &seed(2), 1), Err(Error::RequireDifferentParent));
}

#[test]
fn breed_kitty_fail_when_parent_not_exist() {
    let mut kitties = new_test_ext();
    assert_eq!(kitties.breed(1, 0, 0, &seed(1), 0), Err(Error::InvalidKittyId));
}

#[test]
fn breed_kitty_fail_when_not_owner() {
    let mut kitties = new_test_ext();
    let _ = kitties.create(1, &seed(1), 0);
    let _ = kitties.create(1, &seed(2), 1);
    assert_eq!(kitties.breed(2, 0, 1, &seed(3), 2), Err(Error::RequireOwner));
}

#[test]
fn create_assigns_increasing_ids() {
    let mut kitties = new_test_ext();
    assert_eq!(kitties.create(1, &seed(1), 0), Ok(0));
    assert_eq!(kitties.create(1, &seed(2), 1), Ok(1));
    assert_eq!(kitties.breed(1, 0, 1, &seed(3), 2), Ok(2));
    assert_eq!(kitties.create(2, &seed(4), 3), Ok(3));
    assert_eq!(kitties.kitties_count(), 4);
}

#[test]
fn create_fails_without_stake_balance() {
    let mut kitties = Kitties::new();
    kitties.set_balance(1, 4);
    assert_eq!(kitties.create(1, &seed(1), 0), Err(Error::BalanceNotEnough));
    assert_eq!(kitties.kitties_count(), 0);
    assert_eq!(kitties.events().len(), 0);
}

#[test]
fn create_records_owner_and_stake() {
    let mut kitties = new_test_ext();
    assert_eq!(kitties.create(1, &seed(1), 0), Ok(0));
    assert_eq!(kitties.kitty_owner(0), Some(1));
    assert!(kitties.owns(1, 0));
    assert_eq!(kitties.owned_kitties(1), vec![0]);
    assert_eq!(kitties.staked(1, 0), Some(5));
}

#[test]
fn breed_records_lineage() {
    let mut kitties = new_test_ext();
    let _ = kitties.create(1, &seed(1), 0);
    let _ = kitties.create(1, &seed(2), 1);
    assert_eq!(kitties.breed(1, 0, 1, &seed(3), 2), Ok(2));
    assert_eq!(kitties.kitty_parents(2), Some((0, 1)));
    assert_eq!(kitties.kitty_children(0), vec![2]);
    assert_eq!(kitties.kitty_children(1), vec![2]);
    assert_eq!(kitties.kitty_partners(0), vec![1]);
    assert_eq!(kitties.kitty_partners(1), vec![0]);
    assert_eq!(kitties.kitty_owner(2), Some(1));
    assert_eq!(kitties.events().last(), Some(&Event::Breeded(1u64, 2)));
}

#[test]
fn repeated_breeding_appends_lineage_history() {
    let mut kitties = new_test_ext();
    let _ = kitties.create(1, &seed(1), 0);
    let _ = kitties.create(1, &seed(2), 1);
    assert_eq!(kitties.breed(1, 0, 1, &seed(3), 2), Ok(2));
    assert_eq!(kitties.breed(1, 1, 0, &seed(4), 3), Ok(3));
    assert_eq!(kitties.kitty_children(0), vec![2, 3]);
    assert_eq!(kitties.kitty_children(1), vec![2, 3]);
    assert_eq!(kitties.kitty_partners(0), vec![1, 1]);
    assert_eq!(kitties.kitty_partners(1), vec![0, 0]);
}

#[test]
fn transfer_migrates_stake_and_emits_event() {
    let mut kitties = new_test_ext();
    let _ = kitties.create(1, &seed(1), 0);
    assert_eq!(kitties.staked(1, 0), Some(5));
    assert!(kitties.transfer(1, 2, 0).is_ok());
    assert_eq!(kitties.kitty_owner(0), Some(2));
    assert!(kitties.owns(2, 0));
    assert!(!kitties.owns(1, 0));
    assert_eq!(kitties.staked(2, 0), Some(5));
    assert_eq!(kitties.staked(1, 0), None);
    assert_eq!(kitties.events().last(), Some(&Event::Transferred(1u64, 2u64, 0)));
}

#[test]
fn market_sale_moves_price_ownership_and_funds() {
    let mut kitties = new_test_ext();
    let _ = kitties.create(1, &seed(1), 0);
    kitties.set_balance(2, 150);
    assert!(kitties.ask(1, 0, Some(100)).is_ok());
    assert_eq!(kitties.kitty_price(0), Some(100));
    assert_eq!(kitties.events().last(), Some(&Event::Ask(1u64, 0, Some(100))));
    let balance_1_before = kitties.free_balance(1);
    assert!(kitties.buy(2, 0, 100).is_ok());
    assert_eq!(kitties.free_balance(2), 50);
    assert_eq!(kitties.free_balance(1), balance_1_before + 100);
    assert_eq!(kitties.kitty_price(0), None);
    assert_eq!(kitties.kitty_owner(0), Some(2));
    assert_eq!(kitties.events().last(), Some(&Event::Sold(1u64, 2u64, 0, 100)));
    kitties.set_balance(3, 200);
    assert_eq!(kitties.buy(3, 0, 100), Err(Error::NotForSale));
}

#[test]
fn buy_fails_when_offer_below_price() {
    let mut kitties = new_test_ext();
    let _ = kitties.create(1, &seed(1), 0);
    kitties.set_balance(2, 150);
    assert!(kitties.ask(1, 0, Some(100)).is_ok());
    assert_eq!(kitties.buy(2, 0, 50), Err(Error::PriceTooLow));
    assert_eq!(kitties.kitty_owner(0), Some(1));
    assert_eq!(kitties.kitty_price(0), Some(100));
    assert_eq!(kitties.free_balance(2), 150);
}

#[test]
fn buy_fails_when_buyer_cannot_pay() {
    let mut kitties = new_test_ext();
    let _ = kitties.create(1, &seed(1), 0);
    kitties.set_balance(2, 50);
    assert!(kitties.ask(1, 0, Some(100)).is_ok());
    assert_eq!(kitties.buy(2, 0, 100), Err(Error::InsufficientBalance));
    assert_eq!(kitties.kitty_owner(0), Some(1));
    assert_eq!(kitties.kitty_price(0), Some(100));
}

#[test]
fn buy_fails_when_payee_balance_would_overflow() {
    let mut kitties = new_test_ext();
    let _ = kitties.create(1, &seed(1), 0);
    kitties.set_balance(1, u64::MAX);
    kitties.set_balance(2, 100);
    assert!(kitties.ask(1, 0, Some(100)).is_ok());
    assert_eq!(kitties.buy(2, 0, 100), Err(Error::Overflow));
    assert_eq!(kitties.kitty_owner(0), Some(1));
}

#[test]
fn buy_of_unminted_asset_fails() {
    let mut kitties = new_test_ext();
    assert_eq!(kitties.buy(2, 7, 100), Err(Error::InvalidKittyId));
}

#[test]
fn ask_clears_listing_with_none() {
    let mut kitties = new_test_ext();
    let _ = kitties.create(1, &seed(1), 0);
    assert!(kitties.ask(1, 0, Some(100)).is_ok());
    assert!(kitties.ask(1, 0, None).is_ok());
    assert_eq!(kitties.kitty_price(0), None);
    assert_eq!(kitties.events().last(), Some(&Event::Ask(1u64, 0, None)));
}

#[test]
fn ask_requires_ownership() {
    let mut kitties = new_test_ext();
    let _ = kitties.create(1, &seed(1), 0);
    assert_eq!(kitties.ask(2, 0, Some(100)), Err(Error::RequireOwner));
    assert_eq!(kitties.kitty_price(0), None);
}
