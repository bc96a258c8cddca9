use subswap::market::{Error, Event, Pallet};
use subswap::token;

const SYSTEM: u32 = 1000;
const ALICE: u32 = 1;
const BOB: u32 = 2;
const SUPPLY: u128 = 1_000_000_000;

/// A market whose ledger holds tokens 1 and 2, both issued to Alice.
fn setup() -> Pallet {
    let mut ledger = token::Pallet::new(SYSTEM);
    ledger.issue(ALICE, SUPPLY).unwrap();
    ledger.issue(ALICE, SUPPLY).unwrap();
    Pallet::new(ledger)
}

#[test]
fn first_deposit_creates_pool() {
    let mut m = setup();
    assert_eq!(m.mint_liquidity(ALICE, 1, 1000, 2, 4000), Ok(Event::CreatePair(1, 2, 3)));
    assert_eq!(m.tokens().balance(3, ALICE), 1999);
    assert_eq!(m.tokens().total_supply(3), 1999);
    assert_eq!(m.get_reserves(3), (1000, 4000));
    assert_eq!(m.get_reward_pair(3), (1, 2));
    assert_eq!(m.lookup_pool(1, 2), Some(3));
    assert_eq!(m.lookup_pool(2, 1), Some(3));
    assert_eq!(m.tokens().balance(1, SYSTEM), 1000);
    assert_eq!(m.tokens().balance(2, SYSTEM), 4000);
    assert_eq!(m.tokens().balance(1, ALICE), SUPPLY - 1000);
}

#[test]
fn first_deposit_order_independent() {
    let mut m = setup();
    assert_eq!(m.mint_liquidity(ALICE, 2, 4000, 1, 1000), Ok(Event::CreatePair(2, 1, 3)));
    assert_eq!(m.tokens().total_supply(3), 1999);
    assert_eq!(m.get_reserves(3), (1000, 4000));
    assert_eq!(m.get_reward_pair(3), (1, 2));
}

#[test]
fn identical_tokens_rejected() {
    let mut m = setup();
    assert_eq!(m.mint_liquidity(ALICE, 1, 10, 1, 10), Err(Error::IdenticalIdentifier));
    assert_eq!(m.mint_liquidity(ALICE, 7, 0, 7, 0), Err(Error::IdenticalIdentifier));
    assert_eq!(m.lookup_pool(1, 1), None);
}

#[test]
fn first_deposit_of_zero_underflows() {
    let mut m = setup();
    assert_eq!(m.mint_liquidity(ALICE, 1, 0, 2, 1000), Err(Error::ArithmeticUnderflow));
    assert_eq!(m.lookup_pool(1, 2), None);
}

#[test]
fn first_deposit_product_beyond_u128() {
    let mut ledger = token::Pallet::new(SYSTEM);
    ledger.issue(ALICE, 1u128 << 100).unwrap();
    ledger.issue(ALICE, 1u128 << 100).unwrap();
    let mut m = Pallet::new(ledger);
    assert_eq!(m.mint_liquidity(ALICE, 1, 1u128 << 70, 2, 1u128 << 72), Ok(Event::CreatePair(1, 2, 3)));
    assert_eq!(m.tokens().total_supply(3), (1u128 << 71) - 1);
    assert_eq!(m.get_reserves(3), (1u128 << 70, 1u128 << 72));
}

#[test]
fn first_deposit_without_shares_changes_nothing() {
    let mut m = setup();
    assert_eq!(m.mint_liquidity(ALICE, 1, 1, 2, 3), Err(Error::AmountZero));
    assert_eq!(m.lookup_pool(1, 2), None);
    assert_eq!(m.tokens().balance(1, ALICE), SUPPLY);
    assert_eq!(m.tokens().balance(2, ALICE), SUPPLY);
    assert_eq!(m.tokens().next_asset_id(), 3);
}

#[test]
fn failed_deposit_moves_nothing() {
    let mut ledger = token::Pallet::new(SYSTEM);
    ledger.issue(ALICE, SUPPLY).unwrap();
    ledger.issue(ALICE, SUPPLY).unwrap();
    ledger.transfer(ALICE, 1, BOB, 500).unwrap();
    let mut m = Pallet::new(ledger);
    assert_eq!(m.mint_liquidity(BOB, 1, 100, 2, 100), Err(Error::InsufficientBalance));
    assert_eq!(m.tokens().balance(1, BOB), 500);
    assert_eq!(m.tokens().balance(1, SYSTEM), 0);
}

#[test]
fn proportional_deposit_mints_shares() {
    let mut m = setup();
    m.mint_liquidity(ALICE, 1, 10000, 2, 10000).unwrap();
    assert_eq!(m.tokens().total_supply(3), 9999);
    assert_eq!(m.mint_liquidity(ALICE, 1, 2000, 2, 2000), Ok(Event::MintedLiquidity(1, 2, 3)));
    assert_eq!(m.get_reserves(3), (12000, 12000));
    assert_eq!(m.tokens().total_supply(3), 9999 + 1999);
    assert_eq!(m.tokens().balance(3, ALICE), 9999 + 1999);
}

#[test]
fn proportional_deposit_in_reverse_order() {
    let mut m = setup();
    m.mint_liquidity(ALICE, 1, 4000, 2, 1000).unwrap();
    assert_eq!(m.get_reserves(3), (4000, 1000));
    assert_eq!(m.mint_liquidity(ALICE, 2, 1000, 1, 4000), Ok(Event::MintedLiquidity(2, 1, 3)));
    assert_eq!(m.get_reserves(3), (8000, 2000));
    assert_eq!(m.tokens().total_supply(3), 1999 * 2);
}

#[test]
fn off_ratio_deposit_rejected() {
    let mut m = setup();
    m.mint_liquidity(ALICE, 1, 10000, 2, 10000).unwrap();
    assert_eq!(m.mint_liquidity(ALICE, 1, 10000, 2, 20000), Err(Error::PriceRatioViolation));
    assert_eq!(m.get_reserves(3), (10000, 10000));
    assert_eq!(m.tokens().balance(1, ALICE), SUPPLY - 10000);
}

#[test]
fn deposit_into_empty_pool_rejected() {
    let mut m = setup();
    m.mint_liquidity(ALICE, 1, 10000, 2, 10000).unwrap();
    assert_eq!(m.burn_liquidity(ALICE, 3, 9999), Ok(Event::BurnedLiquidity(3, 1, 2)));
    assert_eq!(m.tokens().total_supply(3), 0);
    assert_eq!(m.mint_liquidity(ALICE, 1, 100, 2, 100), Err(Error::NoneValue));
}

#[test]
fn swap_reference_output() {
    let mut m = setup();
    m.mint_liquidity(ALICE, 1, 1000, 2, 1000).unwrap();
    assert_eq!(m.swap(ALICE, 1, 100, 2), Ok(Event::Swap(1, 100, 2, 90)));
    assert_eq!(m.get_reserves(3), (1100, 910));
    assert_eq!(m.tokens().balance(2, ALICE), SUPPLY - 1000 + 90);
    assert_eq!(m.tokens().balance(1, ALICE), SUPPLY - 1100);
}

#[test]
fn swap_keeps_product() {
    let mut m = setup();
    m.mint_liquidity(ALICE, 1, 1000, 2, 1000).unwrap();
    m.swap(ALICE, 1, 100, 2).unwrap();
    let (a, b) = m.get_reserves(3);
    assert!(a * b >= 1000 * 1000);
    assert_eq!(m.swap(ALICE, 2, 100, 1), Ok(Event::Swap(2, 100, 1, 108)));
    let (c, d) = m.get_reserves(3);
    assert_eq!((c, d), (992, 1010));
    assert!(c * d >= a * b);
}

#[test]
fn swap_zero_amount_rejected() {
    let mut m = setup();
    m.mint_liquidity(ALICE, 1, 1000, 2, 1000).unwrap();
    assert_eq!(m.swap(ALICE, 1, 0, 2), Err(Error::InsufficientAmount));
}

#[test]
fn swap_unregistered_pair_rejected() {
    let mut m = setup();
    assert_eq!(m.swap(ALICE, 1, 10, 2), Err(Error::InvalidPair));
    m.mint_liquidity(ALICE, 1, 1000, 2, 1000).unwrap();
    assert_eq!(m.swap(ALICE, 1, 10, 9), Err(Error::InvalidPair));
}

#[test]
fn swap_with_zero_output_changes_nothing() {
    let mut m = setup();
    m.mint_liquidity(ALICE, 1, 1000, 2, 1000).unwrap();
    assert_eq!(m.swap(ALICE, 1, 1, 2), Err(Error::AmountZero));
    assert_eq!(m.get_reserves(3), (1000, 1000));
    assert_eq!(m.tokens().balance(1, ALICE), SUPPLY - 1000);
}

#[test]
fn swap_beyond_balance_rejected() {
    let mut m = setup();
    m.mint_liquidity(ALICE, 1, 1000, 2, 1000).unwrap();
    assert_eq!(m.swap(BOB, 1, 100, 2), Err(Error::InsufficientBalance));
    assert_eq!(m.get_reserves(3), (1000, 1000));
}

#[test]
fn burn_zero_reward_rejected() {
    let mut m = setup();
    m.mint_liquidity(ALICE, 1, 1000, 2, 10).unwrap();
    assert_eq!(m.tokens().total_supply(3), 99);
    assert_eq!(m.burn_liquidity(ALICE, 3, 5), Err(Error::InsufficientLiquidityBurned));
    assert_eq!(m.burn_liquidity(ALICE, 3, 0), Err(Error::InsufficientLiquidityBurned));
    assert_eq!(m.get_reserves(3), (1000, 10));
    assert_eq!(m.tokens().balance(3, ALICE), 99);
}

#[test]
fn burn_unregistered_pool_rejected() {
    let mut m = setup();
    assert_eq!(m.burn_liquidity(ALICE, 3, 5), Err(Error::InvalidPair));
}

#[test]
fn burn_pays_pro_rata() {
    let mut m = setup();
    m.mint_liquidity(ALICE, 1, 1000, 2, 4000).unwrap();
    assert_eq!(m.burn_liquidity(ALICE, 3, 999), Ok(Event::BurnedLiquidity(3, 1, 2)));
    // 999 * 1000 / 1999 = 499, 999 * 4000 / 1999 = 1998
    assert_eq!(m.get_reserves(3), (501, 2002));
    assert_eq!(m.tokens().balance(3, ALICE), 1000);
    assert_eq!(m.tokens().balance(1, ALICE), SUPPLY - 1000 + 499);
    assert_eq!(m.tokens().balance(2, ALICE), SUPPLY - 4000 + 1998);
}

#[test]
fn burn_more_than_held_rejected() {
    let mut m = setup();
    m.mint_liquidity(ALICE, 1, 1000, 2, 4000).unwrap();
    assert_eq!(m.burn_liquidity(BOB, 3, 999), Err(Error::InsufficientBalance));
    assert_eq!(m.get_reserves(3), (1000, 4000));
}

#[test]
fn mint_then_burn_round_trip_exact() {
    let mut m = setup();
    m.mint_liquidity(ALICE, 1, 10000, 2, 10000).unwrap();
    m.mint_liquidity(ALICE, 1, 10000, 2, 10000).unwrap();
    assert_eq!(m.get_reserves(3), (20000, 20000));
    assert_eq!(m.tokens().total_supply(3), 19998);
    m.burn_liquidity(ALICE, 3, 9999).unwrap();
    assert_eq!(m.get_reserves(3), (10000, 10000));
}

#[test]
fn mint_then_burn_round_trip_rounded() {
    let mut m = setup();
    m.mint_liquidity(ALICE, 1, 10000, 2, 10000).unwrap();
    m.mint_liquidity(ALICE, 1, 2000, 2, 2000).unwrap();
    m.burn_liquidity(ALICE, 3, 1999).unwrap();
    let (a, b) = m.get_reserves(3);
    assert!(a >= 10000 && a <= 10001);
    assert!(b >= 10000 && b <= 10001);
}

#[test]
fn proportional_deposit_with_smaller_first_reserve() {
    let mut m = setup();
    m.mint_liquidity(ALICE, 1, 1000, 2, 4000).unwrap();
    assert_eq!(m.mint_liquidity(ALICE, 1, 100, 2, 402), Err(Error::PriceRatioViolation));
    assert_eq!(m.mint_liquidity(ALICE, 1, 100, 2, 400), Ok(Event::MintedLiquidity(1, 2, 3)));
    assert_eq!(m.get_reserves(3), (1100, 4400));
    assert_eq!(m.tokens().total_supply(3), 1999 + 199);
}

#[test]
fn ratio_check_ignores_argument_order() {
    let mut m = setup();
    m.mint_liquidity(ALICE, 1, 1000, 2, 4000).unwrap();
    assert_eq!(m.mint_liquidity(ALICE, 2, 402, 1, 100), Err(Error::PriceRatioViolation));
    assert_eq!(m.mint_liquidity(ALICE, 2, 400, 1, 100), Ok(Event::MintedLiquidity(2, 1, 3)));
    assert_eq!(m.get_reserves(3), (1100, 4400));
}

#[test]
fn non_integer_reserve_ratio_enforced() {
    let mut m = setup();
    m.mint_liquidity(ALICE, 1, 1999, 2, 1000).unwrap();
    assert_eq!(m.mint_liquidity(ALICE, 1, 1000, 2, 1000), Err(Error::PriceRatioViolation));
    assert_eq!(m.get_reserves(3), (1999, 1000));
    assert_eq!(m.mint_liquidity(ALICE, 1, 19990, 2, 10000), Ok(Event::MintedLiquidity(1, 2, 3)));
}
