//! Facts about the market's operations, stated over their outcome specifications.
use crate::market::{
    canonical_order, create_ledger, deposit_ledger, lemma_deposit_wf, pair_key, proportional_shares,
    ratio_within, redeemed, Error, Event, MarketView,
};
use crate::math::{isqrt, lemma_isqrt_exists};
use crate::token::{
    lemma_burned_wf, lemma_issued_wf, lemma_key_injective, lemma_minted_wf, lemma_moved_wf,
    AccountId, AssetId, Balance,
};
use vstd::prelude::*;

verus! {

/// A first deposit of positive amounts that succeeds creates a share token under an identifier
/// that no pool, reserve or reward entry used before; its whole supply,
/// `isqrt(amount0 * amount1) - 1`, goes to the caller; the reserves are stored with the amount
/// of the token with the smaller identifier first, whichever order the tokens were given in,
/// and the pair is registered in both orders with its canonical reward pair.
pub proof fn lemma_first_deposit(
    m: MarketView,
    caller: AccountId,
    token0: AssetId,
    amount0: Balance,
    token1: AssetId,
    amount1: Balance,
)
    requires
        m.wf(),
        amount0 > 0,
        amount1 > 0,
        m.pair(token0, token1) is None,
        m.mint_outcome(caller, token0, amount0, token1, amount1).0 is Ok,
    ensures
        ({
            let (r, n) = m.mint_outcome(caller, token0, amount0, token1, amount1);
            let lpt = m.tokens.next_asset_id;
            &&& r == Ok::<Event, Error>(Event::CreatePair(token0, token1, lpt))
            &&& n.tokens.supply(lpt) == isqrt(amount0 * amount1) - 1
            &&& n.reserves_of(lpt) == (if token0 < token1 {
                (amount0, amount1)
            } else {
                (amount1, amount0)
            })
            &&& n.pair(token0, token1) == Some(lpt)
            &&& n.pair(token1, token0) == Some(lpt)
            &&& !m.reserves.contains_key(lpt)
            &&& !m.rewards.contains_key(lpt)
            &&& forall|k: u64| #[trigger] m.pairs.contains_key(k) ==> m.pairs[k] != lpt
            &&& n.tokens.bal(lpt, caller) == isqrt(amount0 * amount1) - 1
            &&& n.rewards_of(lpt) == (if token0 < token1 {
                (token0, token1)
            } else {
                (token1, token0)
            })
            &&& caller != m.tokens.system ==> {
                &&& n.tokens.bal(token0, caller) == m.tokens.bal(token0, caller) - amount0
                &&& n.tokens.bal(token1, caller) == m.tokens.bal(token1, caller) - amount1
                &&& n.tokens.bal(token0, m.tokens.system) == m.tokens.bal(token0, m.tokens.system) + amount0
                &&& n.tokens.bal(token1, m.tokens.system) == m.tokens.bal(token1, m.tokens.system) + amount1
            }
        }),
{
    let p = amount0 * amount1;
    assert(p >= 1) by (nonlinear_arith)
        requires
            amount0 >= 1,
            amount1 >= 1,
            p == amount0 * amount1,
    ;
    lemma_isqrt_exists(p);
    let q = isqrt(p);
    assert(q <= u128::MAX) by (nonlinear_arith)
        requires
            q * q <= p,
            p == amount0 * amount1,
            amount0 <= u128::MAX,
            amount1 <= u128::MAX,
            q >= 0,
    ;
    let lpt = m.tokens.next_asset_id;
    let shares = (isqrt(p) - 1) as Balance;
    let s2 = deposit_ledger(m.tokens, caller, token0, amount0, token1, amount1)->Ok_0;
    lemma_deposit_wf(m.tokens, caller, token0, amount0, token1, amount1);
    assert(s2.bal(lpt, caller) == 0);
    lemma_issued_wf(s2, s2.system, 0);
    let sys = m.tokens.system;
    lemma_moved_wf(m.tokens, token0, caller, sys, amount0);
    let s1 = m.tokens.moved(token0, caller, sys, amount0);
    lemma_moved_wf(s1, token1, caller, sys, amount1);
    assert(token0 < lpt && token1 < lpt);
    if caller != sys {
        lemma_key_injective(token1, caller, token0, caller);
        lemma_key_injective(token1, caller, token0, sys);
        lemma_key_injective(token1, sys, token0, caller);
        lemma_key_injective(token1, sys, token0, sys);
        lemma_key_injective(token0, caller, lpt, caller);
        lemma_key_injective(token1, caller, lpt, caller);
        lemma_key_injective(token0, sys, lpt, caller);
        lemma_key_injective(token1, sys, lpt, caller);
        lemma_key_injective(token0, caller, lpt, sys);
        lemma_key_injective(token1, caller, lpt, sys);
        lemma_key_injective(token0, sys, lpt, sys);
        lemma_key_injective(token1, sys, lpt, sys);
        assert(s1.bal(token1, caller) == m.tokens.bal(token1, caller));
        assert(s1.bal(token1, sys) == m.tokens.bal(token1, sys));
    }
    let s3 = s2.issued(s2.system, 0);
    assert(create_ledger(m.tokens, caller, token0, amount0, token1, amount1, shares) == Ok::<
        _,
        crate::token::Error,
    >(s3.minted(lpt, caller, shares)));
    assert(pair_key(token0, token1) != pair_key(token1, token0));
}

/// Minting into a live pool and then burning the shares just received leaves the share supply
/// and the caller's share balance as they were, and for each pooled token what the caller lost
/// is exactly what the pool's reserve gained, which is never negative.
pub proof fn lemma_mint_burn_round_trip_ledger(
    m: MarketView,
    caller: AccountId,
    token0: AssetId,
    amount0: Balance,
    token1: AssetId,
    amount1: Balance,
    lpt: AssetId,
)
    requires
        m.wf(),
        m.pair(token0, token1) == Some(lpt),
        caller != m.tokens.system,
        m.mint_outcome(caller, token0, amount0, token1, amount1).0 is Ok,
        ({
            let m1 = m.mint_outcome(caller, token0, amount0, token1, amount1).1;
            let shares = (m1.tokens.supply(lpt) - m.tokens.supply(lpt)) as Balance;
            m1.burn_outcome(caller, lpt, shares).0 is Ok
        }),
    ensures
        ({
            let m1 = m.mint_outcome(caller, token0, amount0, token1, amount1).1;
            let shares = (m1.tokens.supply(lpt) - m.tokens.supply(lpt)) as Balance;
            let m2 = m1.burn_outcome(caller, lpt, shares).1;
            let (c0, c1) = m.rewards_of(lpt);
            let (o0, o1) = m.reserves_of(lpt);
            let (n0, n1) = m2.reserves_of(lpt);
            &&& m2.tokens.supply(lpt) == m.tokens.supply(lpt)
            &&& m2.tokens.bal(lpt, caller) == m.tokens.bal(lpt, caller)
            &&& m.tokens.bal(c0, caller) - m2.tokens.bal(c0, caller) == n0 - o0
            &&& m.tokens.bal(c1, caller) - m2.tokens.bal(c1, caller) == n1 - o1
            &&& n0 >= o0
            &&& n1 >= o1
        }),
{
    let sys = m.tokens.system;
    assert(m.pairs.contains_key(pair_key(token0, token1)));
    assert(m.rewards.contains_key(lpt));
    let supply = m.tokens.supply(lpt);
    let (r0, r1) = m.reserves_of(lpt);
    let (x0, x1) = canonical_order(token0, token1, amount0, amount1);
    let shares = proportional_shares(x0 as int, x1 as int, supply as int, r0 as int, r1 as int) as Balance;
    lemma_moved_wf(m.tokens, token0, caller, sys, amount0);
    let s1 = m.tokens.moved(token0, caller, sys, amount0);
    lemma_moved_wf(s1, token1, caller, sys, amount1);
    let d = deposit_ledger(m.tokens, caller, token0, amount0, token1, amount1)->Ok_0;
    lemma_minted_wf(d, lpt, caller, shares);
    let m1 = m.mint_outcome(caller, token0, amount0, token1, amount1).1;
    assert(m1.tokens == d.minted(lpt, caller, shares));
    lemma_key_injective(token0, caller, token0, sys);
    lemma_key_injective(token0, caller, token1, caller);
    lemma_key_injective(token0, caller, token1, sys);
    lemma_key_injective(token0, caller, lpt, caller);
    lemma_key_injective(token0, caller, lpt, sys);
    lemma_key_injective(token0, sys, token1, caller);
    lemma_key_injective(token0, sys, token1, sys);
    lemma_key_injective(token0, sys, lpt, caller);
    lemma_key_injective(token0, sys, lpt, sys);
    lemma_key_injective(token1, caller, token1, sys);
    lemma_key_injective(token1, caller, lpt, caller);
    lemma_key_injective(token1, caller, lpt, sys);
    lemma_key_injective(token1, sys, lpt, caller);
    lemma_key_injective(token1, sys, lpt, sys);
    lemma_key_injective(lpt, caller, lpt, sys);
    assert(m1.tokens.supply(lpt) == supply + shares);
    assert(m1.reserves_of(lpt) == ((r0 + x0) as Balance, (r1 + x1) as Balance));
    let w0 = redeemed(shares as int, r0 + x0, supply + shares);
    let w1 = redeemed(shares as int, r1 + x1, supply + shares);
    lemma_mint_burn_round_trip(x0 as int, x1 as int, supply as int, r0 as int, r1 as int);
    let (c0, c1) = m.rewards_of(lpt);
    lemma_burned_wf(m1.tokens, lpt, caller, shares);
    let b1 = m1.tokens.burned(lpt, caller, shares);
    lemma_moved_wf(b1, c0, sys, caller, w0 as Balance);
}

/// Creating a pool for a token paired with itself always fails with `IdenticalIdentifier`
/// and changes nothing.
pub proof fn lemma_identical_tokens_rejected(
    m: MarketView,
    caller: AccountId,
    token: AssetId,
    amount0: Balance,
    amount1: Balance,
)
    ensures
        m.mint_outcome(caller, token, amount0, token, amount1) == (
            Err::<Event, Error>(Error::IdenticalIdentifier),
            m,
        ),
{
}

/// A deposit into a live pool whose ratio is off the reserves' ratio by the tolerance or more
/// fails with `PriceRatioViolation`.
pub proof fn lemma_off_ratio_deposit_rejected(
    m: MarketView,
    caller: AccountId,
    token0: AssetId,
    amount0: Balance,
    token1: AssetId,
    amount1: Balance,
    lpt: AssetId,
)
    requires
        token0 != token1,
        m.pair(token0, token1) == Some(lpt),
        m.tokens.supply(lpt) > 0,
        m.reserves_of(lpt).0 > 0,
        m.reserves_of(lpt).1 > 0,
        ({
            let (r0, r1) = m.reserves_of(lpt);
            let (x0, x1) = canonical_order(token0, token1, amount0, amount1);
            !ratio_within(r0 as int, r1 as int, x0 as int, x1 as int)
        }),
    ensures
        m.mint_outcome(caller, token0, amount0, token1, amount1) == (
            Err::<Event, Error>(Error::PriceRatioViolation),
            m,
        ),
{
}

/// Burning shares of a registered pool that redeem nothing of one of the reserves fails with
/// `InsufficientLiquidityBurned` and changes nothing.
pub proof fn lemma_zero_reward_burn_rejected(m: MarketView, caller: AccountId, lpt: AssetId, amount: Balance)
    requires
        m.rewards.contains_key(lpt),
        amount * m.reserves_of(lpt).0 <= u128::MAX,
        amount * m.reserves_of(lpt).1 <= u128::MAX,
        m.tokens.supply(lpt) > 0,
        redeemed(amount as int, m.reserves_of(lpt).0 as int, m.tokens.supply(lpt) as int) == 0
            || redeemed(amount as int, m.reserves_of(lpt).1 as int, m.tokens.supply(lpt) as int) == 0,
    ensures
        m.burn_outcome(caller, lpt, amount) == (
            Err::<Event, Error>(Error::InsufficientLiquidityBurned),
            m,
        ),
{
}

/// Minting into a pool with reserves `r0`, `r1` and `supply` shares, then burning the shares
/// just received, never gives back more than was deposited, so the reserves never end below
/// their values before the deposit; on a side where the deposit was exactly proportional, it
/// gives back exactly the deposit.
pub proof fn lemma_mint_burn_round_trip(x0: int, x1: int, supply: int, r0: int, r1: int)
    requires
        x0 >= 0,
        x1 >= 0,
        supply > 0,
        r0 > 0,
        r1 > 0,
    ensures
        ({
            let shares = proportional_shares(x0, x1, supply, r0, r1);
            let back0 = redeemed(shares, r0 + x0, supply + shares);
            let back1 = redeemed(shares, r1 + x1, supply + shares);
            &&& 0 <= back0 <= x0
            &&& 0 <= back1 <= x1
            &&& r0 + x0 - back0 >= r0
            &&& r1 + x1 - back1 >= r1
            &&& x0 * supply == shares * r0 ==> back0 == x0
            &&& x1 * supply == shares * r1 ==> back1 == x1
        }),
{
    let shares = proportional_shares(x0, x1, supply, r0, r1);
    assert(x0 * supply >= 0 && x1 * supply >= 0) by (nonlinear_arith)
        requires
            x0 >= 0,
            x1 >= 0,
            supply > 0,
    ;
    assert(shares * r0 <= x0 * supply && shares >= 0) by (nonlinear_arith)
        requires
            shares <= x0 * supply / r0,
            shares == x0 * supply / r0 || shares == x1 * supply / r1,
            x0 * supply >= 0,
            x1 * supply >= 0,
            r0 > 0,
            r1 > 0,
    ;
    assert(shares * r1 <= x1 * supply) by (nonlinear_arith)
        requires
            shares <= x1 * supply / r1,
            r1 > 0,
    ;
    lemma_redeem_bounded(shares, r0, x0, supply);
    lemma_redeem_bounded(shares, r1, x1, supply);
}

/// With `shares * r <= x * supply`, redeeming `shares` of `supply + shares` from `r + x`
/// gives at most `x`, and exactly `x` when the bound is an equality.
proof fn lemma_redeem_bounded(shares: int, r: int, x: int, supply: int)
    requires
        shares >= 0,
        r > 0,
        x >= 0,
        supply > 0,
        shares * r <= x * supply,
    ensures
        0 <= redeemed(shares, r + x, supply + shares) <= x,
        shares * r == x * supply ==> redeemed(shares, r + x, supply + shares) == x,
{
    let t = supply + shares;
    let p = shares * (r + x);
    assert(p <= x * t && p >= 0) by (nonlinear_arith)
        requires
            shares * r <= x * supply,
            p == shares * (r + x),
            t == supply + shares,
            shares >= 0,
            r + x >= 0,
    ;
    assert(p / t <= x && p / t >= 0) by (nonlinear_arith)
        requires
            p <= x * t,
            p >= 0,
            t > 0,
    ;
    if shares * r == x * supply {
        assert(p == x * t) by (nonlinear_arith)
            requires
                shares * r == x * supply,
                p == shares * (r + x),
                t == supply + shares,
        ;
        assert(p / t == x) by (nonlinear_arith)
            requires
                p == x * t,
                t > 0,
        ;
    }
}

} // verus!
