use subswap::token::{Error, Event, Pallet};

const SYSTEM: u32 = 1000;
const ALICE: u32 = 1;
const BOB: u32 = 2;

#[test]
fn issue_gives_whole_supply_to_creator() {
    let mut ledger = Pallet::new(SYSTEM);
    assert_eq!(ledger.issue(ALICE, 500), Ok(Event::Issued(1, ALICE, 500)));
    assert_eq!(ledger.issue(BOB, 70), Ok(Event::Issued(2, BOB, 70)));
    assert_eq!(ledger.balance(1, ALICE), 500);
    assert_eq!(ledger.total_supply(1), 500);
    assert_eq!(ledger.balance(2, BOB), 70);
    assert_eq!(ledger.next_asset_id(), 3);
    assert_eq!(ledger.account_id(), SYSTEM);
}

#[test]
fn transfer_moves_balance() {
    let mut ledger = Pallet::new(SYSTEM);
    ledger.issue(ALICE, 500).unwrap();
    assert_eq!(ledger.transfer(ALICE, 1, BOB, 200), Ok(Event::Transferred(1, ALICE, BOB, 200)));
    assert_eq!(ledger.balance(1, ALICE), 300);
    assert_eq!(ledger.balance(1, BOB), 200);
    assert_eq!(ledger.total_supply(1), 500);
}

#[test]
fn transfer_errors() {
    let mut ledger = Pallet::new(SYSTEM);
    ledger.issue(ALICE, 500).unwrap();
    assert_eq!(ledger.transfer(ALICE, 1, BOB, 0), Err(Error::AmountZero));
    assert_eq!(ledger.transfer(ALICE, 1, BOB, 501), Err(Error::BalanceLow));
    assert_eq!(ledger.transfer(BOB, 1, ALICE, 1), Err(Error::BalanceLow));
    assert_eq!(ledger.balance(1, ALICE), 500);
}

#[test]
fn mint_supply_overflow() {
    let mut ledger = Pallet::new(SYSTEM);
    ledger.issue(ALICE, u128::MAX).unwrap();
    ledger.transfer(ALICE, 1, BOB, 10).unwrap();
    assert_eq!(ledger.mint_from_system(&1, &BOB, &0), Err(Error::AmountZero));
    assert_eq!(ledger.mint_from_system(&1, &BOB, &1), Err(Error::Overflow));
}

#[test]
fn mint_only_by_creator() {
    let mut ledger = Pallet::new(SYSTEM);
    ledger.issue(ALICE, 500).unwrap();
    assert_eq!(ledger.mint(BOB, 1, BOB, 10), Err(Error::NotTheCreator));
    assert_eq!(ledger.mint(ALICE, 9, BOB, 10), Err(Error::NotTheCreator));
    assert_eq!(ledger.mint(ALICE, 1, BOB, 0), Err(Error::AmountZero));
    assert_eq!(ledger.mint(ALICE, 1, BOB, 10), Ok(Event::Minted(1, BOB, 10)));
    assert_eq!(ledger.balance(1, BOB), 10);
    assert_eq!(ledger.total_supply(1), 510);
}

#[test]
fn burn_takes_from_caller() {
    let mut ledger = Pallet::new(SYSTEM);
    ledger.issue(ALICE, 500).unwrap();
    assert_eq!(ledger.burn(ALICE, 1, BOB, 100), Ok(Event::Burned(1, ALICE, 100)));
    assert_eq!(ledger.balance(1, ALICE), 400);
    assert_eq!(ledger.total_supply(1), 400);
    assert_eq!(ledger.burn(ALICE, 1, BOB, 401), Err(Error::BalanceLow));
    assert_eq!(ledger.burn(ALICE, 1, BOB, 0), Err(Error::AmountZero));
}

#[test]
fn destroy_whole_holding() {
    let mut ledger = Pallet::new(SYSTEM);
    ledger.issue(ALICE, 500).unwrap();
    ledger.transfer(ALICE, 1, BOB, 200).unwrap();
    assert_eq!(ledger.destroy(BOB, 1), Ok(Event::Destroyed(1, BOB, 200)));
    assert_eq!(ledger.balance(1, BOB), 0);
    assert_eq!(ledger.total_supply(1), 300);
    assert_eq!(ledger.destroy(BOB, 1), Err(Error::BalanceZero));
}

#[test]
fn system_transfers() {
    let mut ledger = Pallet::new(SYSTEM);
    ledger.issue(ALICE, 500).unwrap();
    assert_eq!(ledger.transfer_to_system(&1, &ALICE, &120), Ok(()));
    assert_eq!(ledger.balance(1, SYSTEM), 120);
    assert_eq!(ledger.transfer_from_system(&1, &BOB, &20), Ok(()));
    assert_eq!(ledger.balance(1, SYSTEM), 100);
    assert_eq!(ledger.balance(1, BOB), 20);
    assert_eq!(ledger.transfer_from_system(&1, &BOB, &101), Err(Error::BalanceLow));
    assert_eq!(ledger.transfer_system(&1, &ALICE, &BOB, &80), Ok(()));
    assert_eq!(ledger.balance(1, ALICE), 300);
    assert_eq!(ledger.balance(1, BOB), 100);
}

#[test]
fn system_issue_mint_burn() {
    let mut ledger = Pallet::new(SYSTEM);
    assert_eq!(ledger.issue_from_system(0), Ok(1));
    assert_eq!(ledger.total_supply(1), 0);
    assert_eq!(ledger.mint_from_system(&1, &ALICE, &40), Ok(()));
    assert_eq!(ledger.total_supply(1), 40);
    assert_eq!(ledger.burn_from_system(&1, &ALICE, &15), Ok(()));
    assert_eq!(ledger.balance(1, ALICE), 25);
    assert_eq!(ledger.total_supply(1), 25);
    assert_eq!(ledger.burn_from_system(&1, &ALICE, &26), Err(Error::BalanceLow));
}

#[test]
fn system_mint_of_unissued_asset_rejected() {
    let mut ledger = Pallet::new(SYSTEM);
    ledger.issue(ALICE, 500).unwrap();
    assert_eq!(ledger.mint_from_system(&2, &ALICE, &10), Err(Error::UnknownAsset));
    assert_eq!(ledger.balance(2, ALICE), 0);
    assert_eq!(ledger.mint_from_system(&1, &ALICE, &10), Ok(()));
}
