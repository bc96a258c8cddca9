//! The market engine: pool registry, reserves, reward pairs, and the three
//! operations that move liquidity: minting, burning and swapping.
use crate::math::{absdiff_spec, isqrt, min, min_spec, sqrt_wide};
use crate::token::{
    self, lemma_burned_wf, lemma_issued_wf, lemma_key_injective, lemma_minted_wf, lemma_moved_wf,
    AccountId, AssetId, Balance, LedgerView,
};
use crate::wide::{
    wide_as_u128, wide_checked_add, wide_checked_div, wide_checked_mul, wide_checked_sub,
    wide_from_u128, wide_lt, wide_modulus, Wide,
};
use std::collections::HashMap;
use vstd::prelude::*;

verus! {

broadcast use vstd::std_specs::hash::group_hash_axioms;

/// Why the market refused an operation.
#[derive(Clone, Copy, Debug, PartialEq, Eq, Structural)]
pub enum Error {
    /// Transfer amount should be non-zero
    AmountZero,
    /// The caller does not hold enough of a token
    InsufficientBalance,
    /// The pool is registered but holds no shares
    NoneValue,
    /// No pool is registered for the pair
    InvalidPair,
    /// Pair with identical identifiers
    IdenticalIdentifier,
    /// Insufficient liquidity minted
    InsufficientLiquidityMinted,
    /// Insufficient liquidity burned
    InsufficientLiquidityBurned,
    /// Insufficient amount for swap
    InsufficientAmount,
    /// Insufficient liquidity for swap
    InsufficientLiquidity,
    /// The deposit ratio is too far from the ratio of the reserves
    PriceRatioViolation,
    /// A result would exceed its type
    ArithmeticOverflow,
    /// A result would drop below zero
    ArithmeticUnderflow,
}

/// What a successful operation of the market did.
#[derive(Clone, Copy, Debug, PartialEq, Eq, Structural)]
pub enum Event {
    /// Pair between two assets is created. \[token0, token1, lptoken]
    CreatePair(AssetId, AssetId, AssetId),
    /// An asset is swapped to another asset. \[token0, amount_in, token1, amount_out]
    Swap(AssetId, Balance, AssetId, Balance),
    /// Liquidity is minted. \[token0, token1, lptoken]
    MintedLiquidity(AssetId, AssetId, AssetId),
    /// Liquidity is burned. \[lptoken, token0, token1]
    BurnedLiquidity(AssetId, AssetId, AssetId),
}

/// The market error that stands for a refusal of the ledger.
pub open spec fn from_ledger(e: token::Error) -> Error {
    match e {
        token::Error::AmountZero => Error::AmountZero,
        token::Error::BalanceLow => Error::InsufficientBalance,
        token::Error::Overflow => Error::ArithmeticOverflow,
        token::Error::AssetIdsExhausted => Error::ArithmeticOverflow,
        token::Error::Underflow => Error::ArithmeticUnderflow,
        token::Error::BalanceZero => Error::NoneValue,
        token::Error::NotTheCreator => Error::NoneValue,
        token::Error::UnknownAsset => Error::InvalidPair,
    }
}

fn ledger_error(e: token::Error) -> (r: Error)
    ensures
        r == from_ledger(e),
{
    match e {
        token::Error::AmountZero => Error::AmountZero,
        token::Error::BalanceLow => Error::InsufficientBalance,
        token::Error::Overflow => Error::ArithmeticOverflow,
        token::Error::AssetIdsExhausted => Error::ArithmeticOverflow,
        token::Error::Underflow => Error::ArithmeticUnderflow,
        token::Error::BalanceZero => Error::NoneValue,
        token::Error::NotTheCreator => Error::NoneValue,
        token::Error::UnknownAsset => Error::InvalidPair,
    }
}

/// The values `x0`, `x1` given for `token0`, `token1`, put in the canonical order:
/// the value of the token with the smaller identifier first.
pub open spec fn canonical_order<T>(token0: AssetId, token1: AssetId, x0: T, x1: T) -> (T, T) {
    if token0 > token1 {
        (x1, x0)
    } else {
        (x0, x1)
    }
}

/// Puts the values `x0`, `x1` given for `token0`, `token1` in the canonical order.
pub fn canonical<T>(token0: AssetId, token1: AssetId, x0: T, x1: T) -> (r: (T, T))
    ensures
        r == canonical_order(token0, token1, x0, x1),
{
    if token0 > token1 {
        (x1, x0)
    } else {
        (x0, x1)
    }
}

/// The key under which the pool of the ordered pair (`a`, `b`) is registered.
pub open spec fn pair_key(a: AssetId, b: AssetId) -> u64 {
    (a as int * 0x1_0000_0000 + b as int) as u64
}

fn pair_key_of(a: AssetId, b: AssetId) -> (r: u64)
    ensures
        r == pair_key(a, b),
{
    a as u64 * 0x1_0000_0000 + b as u64
}

/// The fee-adjusted output of a swap: a 0.3% fee is kept from `amount_in` before the
/// constant-product division.
pub open spec fn amount_out(amount_in: int, reserve_in: int, reserve_out: int) -> int {
    (amount_in * 997 * reserve_out) / (reserve_in * 1000 + amount_in * 997)
}

/// The price-ratio check of a deposit `x0`, `x1` against reserves `r0`, `r1` (both in
/// canonical order): the cross products `x0 * r1` and `x1 * r0` differ by less than a
/// thousandth of `x1 * r0`, so the deposit's ratio is within 0.1% of the reserves' ratio.
pub open spec fn ratio_within(r0: int, r1: int, x0: int, x1: int) -> bool {
    absdiff_spec(x0 * r1, x1 * r0) < (x1 * r0) / 1000
}

/// Decides `ratio_within` exactly, with the cross products taken in 256 bits.
pub fn ratio_ok(r0: Balance, r1: Balance, x0: Balance, x1: Balance) -> (ok: bool)
    ensures
        ok == ratio_within(r0 as int, r1 as int, x0 as int, x1 as int),
{
    proof {
        assert(x0 * r1 < wide_modulus() && x1 * r0 < wide_modulus()) by (nonlinear_arith)
            requires
                x0 <= u128::MAX,
                r1 <= u128::MAX,
                x1 <= u128::MAX,
                r0 <= u128::MAX,
        ;
    }
    let a = match wide_checked_mul(to_u256(&x0), to_u256(&r1)) {
        Some(v) => v,
        None => {
            return false;
        },
    };
    let b = match wide_checked_mul(to_u256(&x1), to_u256(&r0)) {
        Some(v) => v,
        None => {
            return false;
        },
    };
    let tolerance = match wide_checked_div(b, to_u256(&1000)) {
        Some(v) => v,
        None => {
            return false;
        },
    };
    let gap = if wide_lt(a, b) {
        wide_checked_sub(b, a)
    } else {
        wide_checked_sub(a, b)
    };
    match gap {
        Some(d) => wide_lt(d, tolerance),
        None => false,
    }
}

/// The shares that a deposit `x0`, `x1` earns in a pool with reserves `r0`, `r1` and `supply` shares.
pub open spec fn proportional_shares(x0: int, x1: int, supply: int, r0: int, r1: int) -> int {
    min_spec(x0 * supply / r0, x1 * supply / r1)
}

/// The part of a reserve that `amount` of `supply` shares redeems.
pub open spec fn redeemed(amount: int, reserve: int, supply: int) -> int {
    amount * reserve / supply
}

/// A swap never lowers the product of the reserves: with positive reserves, paying in
/// `amount_in` and taking out `amount_out(amount_in, reserve_in, reserve_out)` leaves a product
/// at least as large as before.
pub proof fn lemma_swap_keeps_product(amount_in: int, reserve_in: int, reserve_out: int)
    requires
        amount_in >= 0,
        reserve_in > 0,
        reserve_out >= 0,
    ensures
        0 <= amount_out(amount_in, reserve_in, reserve_out) <= reserve_out,
        (reserve_in + amount_in) * (reserve_out - amount_out(amount_in, reserve_in, reserve_out))
            >= reserve_in * reserve_out,
{
    let out = amount_out(amount_in, reserve_in, reserve_out);
    let n = amount_in * 997 * reserve_out;
    let d = reserve_in * 1000 + amount_in * 997;
    assert(d > 0) by (nonlinear_arith)
        requires
            reserve_in > 0,
            amount_in >= 0,
            d == reserve_in * 1000 + amount_in * 997,
    ;
    assert(n >= 0) by (nonlinear_arith)
        requires
            amount_in >= 0,
            reserve_out >= 0,
            n == amount_in * 997 * reserve_out,
    ;
    assert(out * d <= n && out >= 0) by (nonlinear_arith)
        requires
            out == n / d,
            d > 0,
            n >= 0,
    ;
    assert(out <= reserve_out) by (nonlinear_arith)
        requires
            out * d <= n,
            n == amount_in * 997 * reserve_out,
            d == reserve_in * 1000 + amount_in * 997,
            reserve_in > 0,
            amount_in >= 0,
            reserve_out >= 0,
            out >= 0,
    ;
    assert(1000 * out * (reserve_in + amount_in) <= 1000 * amount_in * reserve_out) by (nonlinear_arith)
        requires
            out * d <= n,
            n == amount_in * 997 * reserve_out,
            d == reserve_in * 1000 + amount_in * 997,
            0 <= out <= reserve_out,
            amount_in >= 0,
    ;
    assert(out * (reserve_in + amount_in) <= amount_in * reserve_out) by (nonlinear_arith)
        requires
            1000 * out * (reserve_in + amount_in) <= 1000 * amount_in * reserve_out,
    ;
    assert((reserve_in + amount_in) * (reserve_out - out) >= reserve_in * reserve_out) by (nonlinear_arith)
        requires
            out * (reserve_in + amount_in) <= amount_in * reserve_out,
    ;
}

/// The ledger after `caller` moves `amount0` of `token0` and `amount1` of `token1` into custody.
pub open spec fn deposit_ledger(
    s: LedgerView,
    caller: AccountId,
    token0: AssetId,
    amount0: Balance,
    token1: AssetId,
    amount1: Balance,
) -> Result<LedgerView, token::Error> {
    match s.move_error(token0, caller, s.system, amount0) {
        Some(e) => Err(e),
        None => {
            let s1 = s.moved(token0, caller, s.system, amount0);
            match s1.move_error(token1, caller, s1.system, amount1) {
                Some(e) => Err(e),
                None => Ok(s1.moved(token1, caller, s1.system, amount1)),
            }
        },
    }
}

/// The ledger after a deposit into a new pool: a share token is issued with no supply and
/// `shares` of it are minted to `caller`.
pub open spec fn create_ledger(
    s: LedgerView,
    caller: AccountId,
    token0: AssetId,
    amount0: Balance,
    token1: AssetId,
    amount1: Balance,
    shares: Balance,
) -> Result<LedgerView, token::Error> {
    match deposit_ledger(s, caller, token0, amount0, token1, amount1) {
        Err(e) => Err(e),
        Ok(s2) => if s2.next_asset_id == u32::MAX {
            Err(token::Error::AssetIdsExhausted)
        } else {
            let lpt = s2.next_asset_id;
            let s3 = s2.issued(s2.system, 0);
            match s3.mint_error(lpt, caller, shares) {
                Some(e) => Err(e),
                None => Ok(s3.minted(lpt, caller, shares)),
            }
        },
    }
}

/// The ledger after `caller` burns `amount` shares of `lpt` and receives `w0` of `t0` and
/// `w1` of `t1` out of custody.
pub open spec fn withdraw_ledger(
    s: LedgerView,
    caller: AccountId,
    lpt: AssetId,
    amount: Balance,
    t0: AssetId,
    w0: Balance,
    t1: AssetId,
    w1: Balance,
) -> Result<LedgerView, token::Error> {
    match s.burn_error(lpt, caller, amount) {
        Some(e) => Err(e),
        None => {
            let s1 = s.burned(lpt, caller, amount);
            match s1.move_error(t0, s1.system, caller, w0) {
                Some(e) => Err(e),
                None => {
                    let s2 = s1.moved(t0, s1.system, caller, w0);
                    match s2.move_error(t1, s2.system, caller, w1) {
                        Some(e) => Err(e),
                        None => Ok(s2.moved(t1, s2.system, caller, w1)),
                    }
                },
            }
        },
    }
}

/// The ledger after `caller` pays `amount_in` of `from` into custody and receives `amount_out`
/// of `to` out of it.
pub open spec fn swap_ledger(
    s: LedgerView,
    caller: AccountId,
    from: AssetId,
    amount_in: Balance,
    to: AssetId,
    amount_out: Balance,
) -> Result<LedgerView, token::Error> {
    match s.move_error(from, caller, s.system, amount_in) {
        Some(e) => Err(e),
        None => {
            let s1 = s.moved(from, caller, s.system, amount_in);
            match s1.move_error(to, s1.system, caller, amount_out) {
                Some(e) => Err(e),
                None => Ok(s1.moved(to, s1.system, caller, amount_out)),
            }
        },
    }
}

/// The state of the market as mathematical maps.
pub struct MarketView {
    pub tokens: LedgerView,
    pub pairs: Map<u64, AssetId>,
    pub reserves: Map<AssetId, (Balance, Balance)>,
    pub rewards: Map<AssetId, (AssetId, AssetId)>,
}

impl MarketView {
    /// The market's invariant: the ledger is well formed; every registered share token,
    /// reserve entry and reward entry has been issued, after the tokens it pools; and each registered pair is registered
    /// in both orders, for two distinct tokens, with its reserves and its canonical reward pair.
    pub open spec fn wf(self) -> bool {
        &&& self.tokens.wf()
        &&& forall|k: u64| #[trigger] self.pairs.contains_key(k) ==> self.pairs[k] < self.tokens.next_asset_id
        &&& forall|l: AssetId| #[trigger] self.reserves.contains_key(l) ==> l < self.tokens.next_asset_id
        &&& forall|l: AssetId| #[trigger] self.rewards.contains_key(l) ==> l < self.tokens.next_asset_id
            && self.rewards[l].0 < l && self.rewards[l].1 < l
        &&& forall|a: AssetId, b: AssetId| #[trigger]
            self.pairs.contains_key(pair_key(a, b)) ==> {
                let l = self.pairs[pair_key(a, b)];
                &&& a != b
                &&& self.pair(b, a) == Some(l)
                &&& self.rewards.contains_key(l)
                &&& self.rewards[l] == canonical_order(a, b, a, b)
                &&& self.reserves.contains_key(l)
            }
    }

    /// The share token of the pool of `a` and `b`, if one is registered.
    pub open spec fn pair(self, a: AssetId, b: AssetId) -> Option<AssetId> {
        if self.pairs.contains_key(pair_key(a, b)) {
            Some(self.pairs[pair_key(a, b)])
        } else {
            None
        }
    }

    /// The reserves of pool `lpt` in canonical order; (0, 0) where none are stored.
    pub open spec fn reserves_of(self, lpt: AssetId) -> (Balance, Balance) {
        if self.reserves.contains_key(lpt) {
            self.reserves[lpt]
        } else {
            (0, 0)
        }
    }

    /// The underlying tokens of pool `lpt` in canonical order; (0, 0) where none are stored.
    pub open spec fn rewards_of(self, lpt: AssetId) -> (AssetId, AssetId) {
        if self.rewards.contains_key(lpt) {
            self.rewards[lpt]
        } else {
            (0, 0)
        }
    }

    /// The market after creating pool `lpt` for `token0`, `token1` with the given deposit,
    /// the ledger having become `s`.
    pub open spec fn with_pool(
        self,
        s: LedgerView,
        token0: AssetId,
        amount0: Balance,
        token1: AssetId,
        amount1: Balance,
        lpt: AssetId,
    ) -> MarketView {
        MarketView {
            tokens: s,
            pairs: self.pairs.insert(pair_key(token0, token1), lpt).insert(pair_key(token1, token0), lpt),
            reserves: self.reserves.insert(lpt, canonical_order(token0, token1, amount0, amount1)),
            rewards: self.rewards.insert(lpt, canonical_order(token0, token1, token0, token1)),
        }
    }

    /// Result and next state of a first deposit for `token0`, `token1`: the caller receives
    /// `isqrt(amount0 * amount1) - 1` shares of a newly issued share token, the product being
    /// taken in 256 bits.
    pub open spec fn create_pool_outcome(
        self,
        caller: AccountId,
        token0: AssetId,
        amount0: Balance,
        token1: AssetId,
        amount1: Balance,
    ) -> (Result<Event, Error>, MarketView) {
        let p = amount0 * amount1;
        if isqrt(p) < 1 {
            (Err(Error::ArithmeticUnderflow), self)
        } else {
            let shares = (isqrt(p) - 1) as Balance;
            let lpt = self.tokens.next_asset_id;
            match create_ledger(self.tokens, caller, token0, amount0, token1, amount1, shares) {
                Err(e) => (Err(from_ledger(e)), self),
                Ok(s) => (
                    Ok(Event::CreatePair(token0, token1, lpt)),
                    self.with_pool(s, token0, amount0, token1, amount1, lpt),
                ),
            }
        }
    }

    /// Result and next state of a deposit into the registered pool `lpt`: the deposit must
    /// match the reserves' ratio, and earns shares in proportion to the reserves.
    pub open spec fn add_liquidity_outcome(
        self,
        caller: AccountId,
        token0: AssetId,
        amount0: Balance,
        token1: AssetId,
        amount1: Balance,
        lpt: AssetId,
    ) -> (Result<Event, Error>, MarketView) {
        let supply = self.tokens.supply(lpt);
        let (r0, r1) = self.reserves_of(lpt);
        let (x0, x1) = canonical_order(token0, token1, amount0, amount1);
        if supply == 0 {
            (Err(Error::NoneValue), self)
        } else if r0 == 0 || r1 == 0 {
            (Err(Error::InsufficientLiquidity), self)
        } else if !ratio_within(r0 as int, r1 as int, x0 as int, x1 as int) {
            (Err(Error::PriceRatioViolation), self)
        } else if x0 * supply > u128::MAX || x1 * supply > u128::MAX || r0 + x0 > u128::MAX || r1 + x1
            > u128::MAX {
            (Err(Error::ArithmeticOverflow), self)
        } else {
            let shares = proportional_shares(x0 as int, x1 as int, supply as int, r0 as int, r1 as int) as Balance;
            match deposit_ledger(self.tokens, caller, token0, amount0, token1, amount1) {
                Err(e) => (Err(from_ledger(e)), self),
                Ok(s1) => match s1.mint_error(lpt, caller, shares) {
                    Some(e) => (Err(from_ledger(e)), self),
                    None => (
                        Ok(Event::MintedLiquidity(token0, token1, lpt)),
                        MarketView {
                            tokens: s1.minted(lpt, caller, shares),
                            reserves: self.reserves.insert(lpt, ((r0 + x0) as Balance, (r1 + x1) as Balance)),
                            ..self
                        },
                    ),
                },
            }
        }
    }

    /// Result and next state of `mint_liquidity`.
    pub open spec fn mint_outcome(
        self,
        caller: AccountId,
        token0: AssetId,
        amount0: Balance,
        token1: AssetId,
        amount1: Balance,
    ) -> (Result<Event, Error>, MarketView) {
        if token0 == token1 {
            (Err(Error::IdenticalIdentifier), self)
        } else {
            match self.pair(token0, token1) {
                None => self.create_pool_outcome(caller, token0, amount0, token1, amount1),
                Some(lpt) => self.add_liquidity_outcome(caller, token0, amount0, token1, amount1, lpt),
            }
        }
    }

    /// Result and next state of `burn_liquidity`: `amount` shares redeem their pro-rata part
    /// of each reserve, and both parts must be positive.
    pub open spec fn burn_outcome(self, caller: AccountId, lpt: AssetId, amount: Balance) -> (Result<Event, Error>, MarketView) {
        let (r0, r1) = self.reserves_of(lpt);
        let (t0, t1) = self.rewards_of(lpt);
        let supply = self.tokens.supply(lpt);
        if !self.rewards.contains_key(lpt) {
            (Err(Error::InvalidPair), self)
        } else if amount * r0 > u128::MAX || amount * r1 > u128::MAX {
            (Err(Error::ArithmeticOverflow), self)
        } else if supply == 0 {
            (Err(Error::InsufficientLiquidityBurned), self)
        } else {
            let w0 = redeemed(amount as int, r0 as int, supply as int);
            let w1 = redeemed(amount as int, r1 as int, supply as int);
            if w0 <= 0 || w1 <= 0 {
                (Err(Error::InsufficientLiquidityBurned), self)
            } else if w0 > r0 || w1 > r1 {
                (Err(Error::ArithmeticUnderflow), self)
            } else {
                match withdraw_ledger(self.tokens, caller, lpt, amount, t0, w0 as Balance, t1, w1 as Balance) {
                    Err(e) => (Err(from_ledger(e)), self),
                    Ok(s) => (
                        Ok(Event::BurnedLiquidity(lpt, t0, t1)),
                        MarketView {
                            tokens: s,
                            reserves: self.reserves.insert(lpt, ((r0 - w0) as Balance, (r1 - w1) as Balance)),
                            ..self
                        },
                    ),
                }
            }
        }
    }

    /// Result and next state of `swap`.
    pub open spec fn swap_outcome(self, caller: AccountId, from: AssetId, amount_in: Balance, to: AssetId) -> (Result<Event, Error>, MarketView) {
        if amount_in == 0 {
            (Err(Error::InsufficientAmount), self)
        } else {
            match self.pair(from, to) {
                None => (Err(Error::InvalidPair), self),
                Some(lpt) => {
                    let (r0, r1) = self.reserves_of(lpt);
                    let (ri, ro) = canonical_order(from, to, r0, r1);
                    if r0 == 0 || r1 == 0 {
                        (Err(Error::InsufficientLiquidity), self)
                    } else if amount_in * 997 * ro >= wide_modulus() {
                        (Err(Error::ArithmeticOverflow), self)
                    } else if ri + amount_in > u128::MAX {
                        (Err(Error::ArithmeticOverflow), self)
                    } else {
                        let out = amount_out(amount_in as int, ri as int, ro as int) as Balance;
                        match swap_ledger(self.tokens, caller, from, amount_in, to, out) {
                            Err(e) => (Err(from_ledger(e)), self),
                            Ok(s) => (
                                Ok(Event::Swap(from, amount_in, to, out)),
                                MarketView {
                                    tokens: s,
                                    reserves: self.reserves.insert(
                                        lpt,
                                        canonical_order(from, to, (ri + amount_in) as Balance, (ro - out) as Balance),
                                    ),
                                    ..self
                                },
                            ),
                        }
                    }
                },
            }
        }
    }
}

/// A successful deposit keeps the ledger well formed.
pub proof fn lemma_deposit_wf(s: LedgerView, caller: AccountId, token0: AssetId, amount0: Balance, token1: AssetId, amount1: Balance)
    requires
        s.wf(),
        deposit_ledger(s, caller, token0, amount0, token1, amount1) is Ok,
    ensures
        ({
            let t = deposit_ledger(s, caller, token0, amount0, token1, amount1)->Ok_0;
            t.wf() && t.next_asset_id == s.next_asset_id && t.system == s.system
        }),
{
    lemma_moved_wf(s, token0, caller, s.system, amount0);
    let s1 = s.moved(token0, caller, s.system, amount0);
    lemma_moved_wf(s1, token1, caller, s1.system, amount1);
}

/// A successful withdrawal keeps the ledger well formed.
pub proof fn lemma_withdraw_wf(s: LedgerView, caller: AccountId, lpt: AssetId, amount: Balance, t0: AssetId, w0: Balance, t1: AssetId, w1: Balance)
    requires
        s.wf(),
        withdraw_ledger(s, caller, lpt, amount, t0, w0, t1, w1) is Ok,
    ensures
        ({
            let t = withdraw_ledger(s, caller, lpt, amount, t0, w0, t1, w1)->Ok_0;
            t.wf() && t.next_asset_id == s.next_asset_id
        }),
{
    lemma_burned_wf(s, lpt, caller, amount);
    let s1 = s.burned(lpt, caller, amount);
    lemma_moved_wf(s1, t0, s1.system, caller, w0);
    let s2 = s1.moved(t0, s1.system, caller, w0);
    lemma_moved_wf(s2, t1, s2.system, caller, w1);
}

/// A successful exchange keeps the ledger well formed.
pub proof fn lemma_swap_ledger_wf(s: LedgerView, caller: AccountId, from: AssetId, amount_in: Balance, to: AssetId, amount_out: Balance)
    requires
        s.wf(),
        swap_ledger(s, caller, from, amount_in, to, amount_out) is Ok,
    ensures
        ({
            let t = swap_ledger(s, caller, from, amount_in, to, amount_out)->Ok_0;
            t.wf() && t.next_asset_id == s.next_asset_id
        }),
{
    lemma_moved_wf(s, from, caller, s.system, amount_in);
    let s1 = s.moved(from, caller, s.system, amount_in);
    lemma_moved_wf(s1, to, s1.system, caller, amount_out);
}

/// Replacing the reserves of a registered pool and the ledger by a well-formed one with the
/// same issued identifiers keeps the market well formed.
pub proof fn lemma_reserves_update_wf(m: MarketView, s: LedgerView, lpt: AssetId, v: (Balance, Balance))
    requires
        m.wf(),
        s.wf(),
        s.next_asset_id == m.tokens.next_asset_id,
        lpt < m.tokens.next_asset_id,
    ensures
        (MarketView { tokens: s, reserves: m.reserves.insert(lpt, v), ..m }).wf(),
{
    let n = MarketView { tokens: s, reserves: m.reserves.insert(lpt, v), ..m };
    assert forall|l: AssetId| #[trigger] n.reserves.contains_key(l) implies l < n.tokens.next_asset_id by {
        if l != lpt {
            assert(m.reserves.contains_key(l));
        }
    }
    assert forall|a: AssetId, b: AssetId| #[trigger] n.pairs.contains_key(pair_key(a, b)) implies ({
        let l = n.pairs[pair_key(a, b)];
        &&& a != b
        &&& n.pair(b, a) == Some(l)
        &&& n.rewards.contains_key(l)
        &&& n.rewards[l] == canonical_order(a, b, a, b)
        &&& n.reserves.contains_key(l)
    }) by {
        assert(m.pairs.contains_key(pair_key(a, b)));
    }
}

/// Registering a pool under the next identifier keeps the market well formed.
pub proof fn lemma_with_pool_wf(m: MarketView, s: LedgerView, token0: AssetId, amount0: Balance, token1: AssetId, amount1: Balance)
    requires
        m.wf(),
        s.wf(),
        token0 != token1,
        m.pair(token0, token1) is None,
        s.next_asset_id == m.tokens.next_asset_id + 1,
        token0 < m.tokens.next_asset_id,
        token1 < m.tokens.next_asset_id,
    ensures
        m.with_pool(s, token0, amount0, token1, amount1, m.tokens.next_asset_id).wf(),
{
    let lpt = m.tokens.next_asset_id;
    let n = m.with_pool(s, token0, amount0, token1, amount1, lpt);
    lemma_pair_key_injective(token0, token1, token1, token0);
    assert forall|k: u64| #[trigger] n.pairs.contains_key(k) implies n.pairs[k] < n.tokens.next_asset_id by {
        if k != pair_key(token0, token1) && k != pair_key(token1, token0) {
            assert(m.pairs.contains_key(k));
        }
    }
    assert forall|l: AssetId| #[trigger] n.reserves.contains_key(l) implies l < n.tokens.next_asset_id by {
        if l != lpt {
            assert(m.reserves.contains_key(l));
        }
    }
    assert forall|l: AssetId| #[trigger] n.rewards.contains_key(l) implies l < n.tokens.next_asset_id
        && n.rewards[l].0 < l && n.rewards[l].1 < l by {
        if l != lpt {
            assert(m.rewards.contains_key(l));
        }
    }
    assert forall|a: AssetId, b: AssetId| #[trigger] n.pairs.contains_key(pair_key(a, b)) implies ({
        let l = n.pairs[pair_key(a, b)];
        &&& a != b
        &&& n.pair(b, a) == Some(l)
        &&& n.rewards.contains_key(l)
        &&& n.rewards[l] == canonical_order(a, b, a, b)
        &&& n.reserves.contains_key(l)
    }) by {
        lemma_pair_key_injective(a, b, token0, token1);
        lemma_pair_key_injective(a, b, token1, token0);
        lemma_pair_key_injective(b, a, token0, token1);
        lemma_pair_key_injective(b, a, token1, token0);
        if pair_key(a, b) != pair_key(token0, token1) && pair_key(a, b) != pair_key(token1, token0) {
            assert(m.pairs.contains_key(pair_key(a, b)));
            let l = m.pairs[pair_key(a, b)];
            assert(m.rewards.contains_key(l));
            assert(l < lpt);
        }
    }
}

/// Distinct ordered pairs have distinct registry keys.
pub proof fn lemma_pair_key_injective(a1: AssetId, b1: AssetId, a2: AssetId, b2: AssetId)
    ensures
        pair_key(a1, b1) == pair_key(a2, b2) ==> a1 == a2 && b1 == b2,
{
}

/// Every operation of the market keeps it well formed.
pub proof fn lemma_operations_keep_wf(m: MarketView, caller: AccountId, token0: AssetId, amount0: Balance, token1: AssetId, amount1: Balance, lpt: AssetId)
    requires
        m.wf(),
    ensures
        m.mint_outcome(caller, token0, amount0, token1, amount1).1.wf(),
        m.burn_outcome(caller, lpt, amount0).1.wf(),
        m.swap_outcome(caller, token0, amount0, token1).1.wf(),
{
    // mint
    if token0 != token1 {
        match m.pair(token0, token1) {
            None => {
                let p = amount0 * amount1;
                if isqrt(p) >= 1 {
                    let shares = (isqrt(p) - 1) as Balance;
                    if create_ledger(m.tokens, caller, token0, amount0, token1, amount1, shares) is Ok {
                        lemma_deposit_wf(m.tokens, caller, token0, amount0, token1, amount1);
                        lemma_moved_wf(m.tokens, token0, caller, m.tokens.system, amount0);
                        lemma_moved_wf(
                            m.tokens.moved(token0, caller, m.tokens.system, amount0),
                            token1,
                            caller,
                            m.tokens.system,
                            amount1,
                        );
                        let s2 = deposit_ledger(m.tokens, caller, token0, amount0, token1, amount1)->Ok_0;
                        lemma_issued_wf(s2, s2.system, 0);
                        let s3 = s2.issued(s2.system, 0);
                        lemma_minted_wf(s3, s2.next_asset_id, caller, shares);
                        let s = create_ledger(m.tokens, caller, token0, amount0, token1, amount1, shares)->Ok_0;
                        lemma_with_pool_wf(m, s, token0, amount0, token1, amount1);
                    }
                }
            },
            Some(l) => {
                assert(m.pairs.contains_key(pair_key(token0, token1)));
                if m.add_liquidity_outcome(caller, token0, amount0, token1, amount1, l).0 is Ok {
                    lemma_deposit_wf(m.tokens, caller, token0, amount0, token1, amount1);
                    let s1 = deposit_ledger(m.tokens, caller, token0, amount0, token1, amount1)->Ok_0;
                    let supply = m.tokens.supply(l);
                    let (r0, r1) = m.reserves_of(l);
                    let (x0, x1) = canonical_order(token0, token1, amount0, amount1);
                    let shares = proportional_shares(x0 as int, x1 as int, supply as int, r0 as int, r1 as int) as Balance;
                    lemma_minted_wf(s1, l, caller, shares);
                    lemma_reserves_update_wf(m, s1.minted(l, caller, shares), l, ((r0 + x0) as Balance, (r1 + x1) as Balance));
                }
            },
        }
    }
    // burn
    if m.burn_outcome(caller, lpt, amount0).0 is Ok {
        let (r0, r1) = m.reserves_of(lpt);
        let (t0, t1) = m.rewards_of(lpt);
        let supply = m.tokens.supply(lpt);
        let w0 = redeemed(amount0 as int, r0 as int, supply as int);
        let w1 = redeemed(amount0 as int, r1 as int, supply as int);
        lemma_withdraw_wf(m.tokens, caller, lpt, amount0, t0, w0 as Balance, t1, w1 as Balance);
        let s = withdraw_ledger(m.tokens, caller, lpt, amount0, t0, w0 as Balance, t1, w1 as Balance)->Ok_0;
        lemma_reserves_update_wf(m, s, lpt, ((r0 - w0) as Balance, (r1 - w1) as Balance));
    }
    // swap
    if m.swap_outcome(caller, token0, amount0, token1).0 is Ok {
        let l = m.pair(token0, token1)->Some_0;
        assert(m.pairs.contains_key(pair_key(token0, token1)));
        let (r0, r1) = m.reserves_of(l);
        let (ri, ro) = canonical_order(token0, token1, r0, r1);
        let out = amount_out(amount0 as int, ri as int, ro as int) as Balance;
        lemma_swap_ledger_wf(m.tokens, caller, token0, amount0, token1, out);
        let s = swap_ledger(m.tokens, caller, token0, amount0, token1, out)->Ok_0;
        lemma_reserves_update_wf(m, s, l, canonical_order(token0, token1, (ri + amount0) as Balance, (ro - out) as Balance));
    }
}

/// The market engine.
pub struct Pallet {
    tokens: token::Pallet,
    pairs: HashMap<u64, AssetId>,
    reserves: HashMap<AssetId, (Balance, Balance)>,
    rewards: HashMap<AssetId, (AssetId, AssetId)>,
}

impl View for Pallet {
    type V = MarketView;

    closed spec fn view(&self) -> MarketView {
        MarketView {
            tokens: self.tokens@,
            pairs: self.pairs@,
            reserves: self.reserves@,
            rewards: self.rewards@,
        }
    }
}

/// Moves `amount0` of `token0` and `amount1` of `token1` from `caller` into custody.
fn deposit(
    tokens: &mut token::Pallet,
    caller: AccountId,
    token0: AssetId,
    amount0: Balance,
    token1: AssetId,
    amount1: Balance,
) -> (r: Result<(), token::Error>)
    requires
        old(tokens)@.wf(),
    ensures
        r is Ok ==> final(tokens)@.wf(),
        match deposit_ledger(old(tokens)@, caller, token0, amount0, token1, amount1) {
            Ok(s) => r is Ok && final(tokens)@ == s,
            Err(e) => r == Err::<(), token::Error>(e),
        },
{
    match tokens.transfer_to_system(&token0, &caller, &amount0) {
        Ok(()) => {},
        Err(e) => {
            return Err(e);
        },
    }
    let r = tokens.transfer_to_system(&token1, &caller, &amount1);
    proof {
        if r is Ok {
            lemma_deposit_wf(old(tokens)@, caller, token0, amount0, token1, amount1);
        }
    }
    r
}

impl Pallet {
    /// A market with no pools over the ledger `tokens`.
    pub fn new(tokens: token::Pallet) -> (r: Pallet)
        requires
            tokens@.wf(),
        ensures
            r@.wf(),
            r@.tokens == tokens@,
            r@.pairs == Map::<u64, AssetId>::empty(),
            r@.reserves == Map::<AssetId, (Balance, Balance)>::empty(),
            r@.rewards == Map::<AssetId, (AssetId, AssetId)>::empty(),
    {
        Pallet { tokens, pairs: HashMap::new(), reserves: HashMap::new(), rewards: HashMap::new() }
    }

    /// The token ledger that the market trades on.
    pub fn tokens(&self) -> (r: &token::Pallet)
        ensures
            r@ == self@.tokens,
    {
        &self.tokens
    }

    /// The share token of the pool of `token_a` and `token_b`, in either order.
    pub fn lookup_pool(&self, token_a: AssetId, token_b: AssetId) -> (r: Option<AssetId>)
        ensures
            r == self@.pair(token_a, token_b),
    {
        match self.pairs.get(&pair_key_of(token_a, token_b)) {
            Some(l) => Some(*l),
            None => None,
        }
    }

    /// The reserves of pool `lpt`, the token with the smaller identifier first.
    pub fn get_reserves(&self, lpt: AssetId) -> (r: (Balance, Balance))
        ensures
            r == self@.reserves_of(lpt),
    {
        match self.reserves.get(&lpt) {
            Some(v) => *v,
            None => (0, 0),
        }
    }

    /// The underlying tokens of pool `lpt`, the smaller identifier first.
    pub fn get_reward_pair(&self, lpt: AssetId) -> (r: (AssetId, AssetId))
        ensures
            r == self@.rewards_of(lpt),
    {
        match self.rewards.get(&lpt) {
            Some(v) => *v,
            None => (0, 0),
        }
    }

    fn set_reserves(&mut self, token0: &AssetId, token1: &AssetId, amount0: &Balance, amount1: &Balance, lptoken: &AssetId)
        ensures
            final(self)@ == (MarketView {
                reserves: old(self)@.reserves.insert(*lptoken, canonical_order(*token0, *token1, *amount0, *amount1)),
                ..old(self)@
            }),
    {
        self.reserves.insert(*lptoken, canonical(*token0, *token1, *amount0, *amount1));
    }

    fn set_pair(&mut self, token0: &AssetId, token1: &AssetId, lptoken: &AssetId)
        ensures
            final(self)@ == (MarketView {
                pairs: old(self)@.pairs.insert(pair_key(*token0, *token1), *lptoken).insert(
                    pair_key(*token1, *token0),
                    *lptoken,
                ),
                ..old(self)@
            }),
    {
        self.pairs.insert(pair_key_of(*token0, *token1), *lptoken);
        self.pairs.insert(pair_key_of(*token1, *token0), *lptoken);
    }

    fn set_rewards(&mut self, token0: &AssetId, token1: &AssetId, lptoken: &AssetId)
        ensures
            final(self)@ == (MarketView {
                rewards: old(self)@.rewards.insert(*lptoken, canonical_order(*token0, *token1, *token0, *token1)),
                ..old(self)@
            }),
    {
        self.rewards.insert(*lptoken, canonical(*token0, *token1, *token0, *token1));
    }

    fn create_pool(&mut self, caller: AccountId, token0: AssetId, amount0: Balance, token1: AssetId, amount1: Balance) -> (r: Result<Event, Error>)
        requires
            old(self)@.wf(),
            token0 != token1,
            old(self)@.pair(token0, token1) is None,
        ensures
            (r, final(self)@) == old(self)@.create_pool_outcome(caller, token0, amount0, token1, amount1),
    {
        proof {
            assert(amount0 * amount1 < wide_modulus()) by (nonlinear_arith)
                requires
                    amount0 <= u128::MAX,
                    amount1 <= u128::MAX,
            ;
        }
        let product = match wide_checked_mul(to_u256(&amount0), to_u256(&amount1)) {
            Some(p) => p,
            None => {
                return Err(Error::ArithmeticOverflow);
            },
        };
        let root = sqrt_wide(product);
        if root < 1 {
            return Err(Error::ArithmeticUnderflow);
        }
        let shares = root - 1;
        let mut tokens = self.tokens.snapshot();
        match deposit(&mut tokens, caller, token0, amount0, token1, amount1) {
            Ok(()) => {},
            Err(e) => {
                return Err(ledger_error(e));
            },
        }
        let lpt = match tokens.issue_from_system(0) {
            Ok(id) => id,
            Err(e) => {
                return Err(ledger_error(e));
            },
        };
        match tokens.mint_from_system(&lpt, &caller, &shares) {
            Ok(()) => {},
            Err(e) => {
                return Err(ledger_error(e));
            },
        }
        self.tokens = tokens;
        self.set_reserves(&token0, &token1, &amount0, &amount1, &lpt);
        self.set_pair(&token0, &token1, &lpt);
        self.set_rewards(&token0, &token1, &lpt);
        Ok(Event::CreatePair(token0, token1, lpt))
    }

    fn add_liquidity(
        &mut self,
        caller: AccountId,
        token0: AssetId,
        amount0: Balance,
        token1: AssetId,
        amount1: Balance,
        lpt: AssetId,
    ) -> (r: Result<Event, Error>)
        requires
            old(self)@.wf(),
        ensures
            (r, final(self)@) == old(self)@.add_liquidity_outcome(caller, token0, amount0, token1, amount1, lpt),
    {
        let supply = self.tokens.total_supply(lpt);
        if supply == 0 {
            return Err(Error::NoneValue);
        }
        let (r0, r1) = self.get_reserves(lpt);
        let (x0, x1) = canonical(token0, token1, amount0, amount1);
        if r0 == 0 || r1 == 0 {
            return Err(Error::InsufficientLiquidity);
        }
        if !ratio_ok(r0, r1, x0, x1) {
            return Err(Error::PriceRatioViolation);
        }
        let left = match x0.checked_mul(supply) {
            Some(v) => v / r0,
            None => {
                return Err(Error::ArithmeticOverflow);
            },
        };
        let right = match x1.checked_mul(supply) {
            Some(v) => v / r1,
            None => {
                return Err(Error::ArithmeticOverflow);
            },
        };
        let new0 = match r0.checked_add(x0) {
            Some(v) => v,
            None => {
                return Err(Error::ArithmeticOverflow);
            },
        };
        let new1 = match r1.checked_add(x1) {
            Some(v) => v,
            None => {
                return Err(Error::ArithmeticOverflow);
            },
        };
        let shares = min(left, right);
        let mut tokens = self.tokens.snapshot();
        match deposit(&mut tokens, caller, token0, amount0, token1, amount1) {
            Ok(()) => {},
            Err(e) => {
                return Err(ledger_error(e));
            },
        }
        match tokens.mint_from_system(&lpt, &caller, &shares) {
            Ok(()) => {},
            Err(e) => {
                return Err(ledger_error(e));
            },
        }
        self.tokens = tokens;
        self.reserves.insert(lpt, (new0, new1));
        Ok(Event::MintedLiquidity(token0, token1, lpt))
    }

    /// Burns `amount` shares of pool `lpt` held by `caller` and pays out the pro-rata part of
    /// each reserve. On an error nothing changes.
    pub fn burn_liquidity(&mut self, caller: AccountId, lpt: AssetId, amount: Balance) -> (r: Result<Event, Error>)
        requires
            old(self)@.wf(),
        ensures
            final(self)@.wf(),
            (r, final(self)@) == old(self)@.burn_outcome(caller, lpt, amount),
            r is Err ==> final(self)@ == old(self)@,
    {
        proof {
            lemma_operations_keep_wf(old(self)@, caller, 0, amount, 0, 0, lpt);
        }
        let (r0, r1) = self.get_reserves(lpt);
        if !self.rewards.contains_key(&lpt) {
            return Err(Error::InvalidPair);
        }
        let (t0, t1) = self.get_reward_pair(lpt);
        let supply = self.tokens.total_supply(lpt);
        let p0 = match amount.checked_mul(r0) {
            Some(v) => v,
            None => {
                return Err(Error::ArithmeticOverflow);
            },
        };
        let p1 = match amount.checked_mul(r1) {
            Some(v) => v,
            None => {
                return Err(Error::ArithmeticOverflow);
            },
        };
        if supply == 0 {
            return Err(Error::InsufficientLiquidityBurned);
        }
        let reward0 = p0 / supply;
        let reward1 = p1 / supply;
        if !(reward0 > 0 && reward1 > 0) {
            return Err(Error::InsufficientLiquidityBurned);
        }
        if reward0 > r0 || reward1 > r1 {
            return Err(Error::ArithmeticUnderflow);
        }
        let mut tokens = self.tokens.snapshot();
        match tokens.burn_from_system(&lpt, &caller, &amount) {
            Ok(()) => {},
            Err(e) => {
                return Err(ledger_error(e));
            },
        }
        match tokens.transfer_from_system(&t0, &caller, &reward0) {
            Ok(()) => {},
            Err(e) => {
                return Err(ledger_error(e));
            },
        }
        match tokens.transfer_from_system(&t1, &caller, &reward1) {
            Ok(()) => {},
            Err(e) => {
                return Err(ledger_error(e));
            },
        }
        self.tokens = tokens;
        self.reserves.insert(lpt, (r0 - reward0, r1 - reward1));
        Ok(Event::BurnedLiquidity(lpt, t0, t1))
    }

    /// Swaps `amount_in` of `from` paid by `caller` for the fee-adjusted output of `to`, at the
    /// price set by the pool's reserves. On an error nothing changes.
    pub fn swap(&mut self, caller: AccountId, from: AssetId, amount_in: Balance, to: AssetId) -> (r: Result<Event, Error>)
        requires
            old(self)@.wf(),
        ensures
            final(self)@.wf(),
            (r, final(self)@) == old(self)@.swap_outcome(caller, from, amount_in, to),
            amount_in == 0 ==> r == Err::<Event, Error>(Error::InsufficientAmount),
            amount_in != 0 && old(self)@.pair(from, to) is None ==> r == Err::<Event, Error>(Error::InvalidPair),
            r is Err ==> final(self)@ == old(self)@,
            r is Ok ==> (old(self)@.pair(from, to) matches Some(lpt) && ({
                let (n0, n1) = final(self)@.reserves_of(lpt);
                let (o0, o1) = old(self)@.reserves_of(lpt);
                n0 * n1 >= o0 * o1
            })),
    {
        proof {
            lemma_operations_keep_wf(old(self)@, caller, from, amount_in, to, 0, 0);
        }
        if amount_in == 0 {
            return Err(Error::InsufficientAmount);
        }
        let lpt = match self.lookup_pool(from, to) {
            Some(l) => l,
            None => {
                return Err(Error::InvalidPair);
            },
        };
        let (r0, r1) = self.get_reserves(lpt);
        if !(r0 > 0 && r1 > 0) {
            return Err(Error::InsufficientLiquidity);
        }
        let (reserve_in, reserve_out) = canonical(from, to, r0, r1);
        let out = match swap_output(amount_in, reserve_in, reserve_out) {
            Ok(v) => v,
            Err(e) => {
                return Err(e);
            },
        };
        let new_in = match reserve_in.checked_add(amount_in) {
            Some(v) => v,
            None => {
                return Err(Error::ArithmeticOverflow);
            },
        };
        let new_out = reserve_out - out;
        let mut tokens = self.tokens.snapshot();
        match tokens.transfer_to_system(&from, &caller, &amount_in) {
            Ok(()) => {},
            Err(e) => {
                return Err(ledger_error(e));
            },
        }
        match tokens.transfer_from_system(&to, &caller, &out) {
            Ok(()) => {},
            Err(e) => {
                return Err(ledger_error(e));
            },
        }
        proof {
            lemma_swap_keeps_product(amount_in as int, reserve_in as int, reserve_out as int);
            assert(new_in * new_out == new_out * new_in) by (nonlinear_arith);
            assert(r0 * r1 == r1 * r0) by (nonlinear_arith);
        }
        self.tokens = tokens;
        self.set_reserves(&from, &to, &new_in, &new_out, &lpt);
        Ok(Event::Swap(from, amount_in, to, out))
    }

    /// Deposits `amount0` of `token0` and `amount1` of `token1` from `caller` into the pool of
    /// the two tokens, creating the pool on the first deposit, and mints share tokens to
    /// `caller`. Every check runs before the ledger is touched; on an error nothing changes.
    pub fn mint_liquidity(
        &mut self,
        caller: AccountId,
        token0: AssetId,
        amount0: Balance,
        token1: AssetId,
        amount1: Balance,
    ) -> (r: Result<Event, Error>)
        requires
            old(self)@.wf(),
        ensures
            final(self)@.wf(),
            (r, final(self)@) == old(self)@.mint_outcome(caller, token0, amount0, token1, amount1),
            token0 == token1 ==> r == Err::<Event, Error>(Error::IdenticalIdentifier),
            r is Err ==> final(self)@ == old(self)@,
    {
        proof {
            lemma_operations_keep_wf(old(self)@, caller, token0, amount0, token1, amount1, 0);
        }
        if token0 == token1 {
            return Err(Error::IdenticalIdentifier);
        }
        match self.lookup_pool(token0, token1) {
            None => self.create_pool(caller, token0, amount0, token1, amount1),
            Some(lpt) => self.add_liquidity(caller, token0, amount0, token1, amount1, lpt),
        }
    }
}

/// Widens a balance to 256 bits.
pub fn to_u256(value: &Balance) -> (r: Wide)
    ensures
        r.value() == *value,
{
    wide_from_u128(*value)
}

/// The output of swapping `amount_in` against reserves `reserve_in`, `reserve_out`, computed
/// with 256-bit intermediates. A zero denominator gives `InsufficientLiquidity`; a numerator
/// beyond 256 bits gives `ArithmeticOverflow`. The output never exceeds `reserve_out`.
pub fn swap_output(amount_in: Balance, reserve_in: Balance, reserve_out: Balance) -> (r: Result<Balance, Error>)
    ensures
        amount_in == 0 && reserve_in == 0 ==> r == Err::<Balance, Error>(Error::InsufficientLiquidity),
        !(amount_in == 0 && reserve_in == 0) && amount_in * 997 * reserve_out >= wide_modulus() ==> r
            == Err::<Balance, Error>(Error::ArithmeticOverflow),
        !(amount_in == 0 && reserve_in == 0) && amount_in * 997 * reserve_out < wide_modulus() ==> r
            == Ok::<Balance, Error>(amount_out(amount_in as int, reserve_in as int, reserve_out as int) as Balance),
        r matches Ok(out) ==> out == amount_out(amount_in as int, reserve_in as int, reserve_out as int)
            && out <= reserve_out,
        reserve_in > 0 ==> (r matches Ok(out) ==> (reserve_in + amount_in) * (reserve_out - out)
            >= reserve_in * reserve_out),
{
    proof {
        if reserve_in > 0 {
            lemma_swap_keeps_product(amount_in as int, reserve_in as int, reserve_out as int);
        }
    }
    let ai = to_u256(&amount_in);
    let ri = to_u256(&reserve_in);
    let ro = to_u256(&reserve_out);
    let fee_factor = to_u256(&997);
    let scale = to_u256(&1000);
    proof {
        assert(amount_in * 997 < wide_modulus()) by (nonlinear_arith)
            requires
                amount_in <= u128::MAX,
        ;
        assert(reserve_in * 1000 < wide_modulus()) by (nonlinear_arith)
            requires
                reserve_in <= u128::MAX,
        ;
    }
    let with_fee = match wide_checked_mul(ai, fee_factor) {
        Some(v) => v,
        None => {
            return Err(Error::ArithmeticOverflow);
        },
    };
    let numerator = match wide_checked_mul(with_fee, ro) {
        Some(v) => v,
        None => {
            proof {
                if amount_in == 0 {
                    assert(amount_in * 997 * reserve_out == 0) by (nonlinear_arith)
                        requires
                            amount_in == 0,
                    ;
                }
            }
            return Err(Error::ArithmeticOverflow);
        },
    };
    let scaled_in = match wide_checked_mul(ri, scale) {
        Some(v) => v,
        None => {
            return Err(Error::ArithmeticOverflow);
        },
    };
    proof {
        assert(reserve_in * 1000 + amount_in * 997 < wide_modulus()) by (nonlinear_arith)
            requires
                reserve_in <= u128::MAX,
                amount_in <= u128::MAX,
        ;
    }
    let denominator = match wide_checked_add(scaled_in, with_fee) {
        Some(v) => v,
        None => {
            return Err(Error::ArithmeticOverflow);
        },
    };
    let quotient = match wide_checked_div(numerator, denominator) {
        Some(v) => v,
        None => {
            return Err(Error::InsufficientLiquidity);
        },
    };
    proof {
        let n = amount_in * 997 * reserve_out;
        let d = reserve_in * 1000 + amount_in * 997;
        assert(n / d <= reserve_out) by (nonlinear_arith)
            requires
                d > 0,
                n == amount_in * 997 * reserve_out,
                d >= amount_in * 997,
                reserve_out >= 0,
                amount_in >= 0,
        ;
        quotient.lemma_value_bounds();
    }
    if quotient.fits_u128() {
        Ok(wide_as_u128(quotient))
    } else {
        Ok(u128::MAX)
    }
}

} // verus!
