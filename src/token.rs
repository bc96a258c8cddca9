//! The fungible-token ledger: balances per asset and account, total supplies,
//! creators, and the custody account of the market.
use std::collections::HashMap;
use vstd::prelude::*;

verus! {

broadcast use vstd::std_specs::hash::group_hash_axioms;

/// Identifier of a fungible asset; asset 0 is the native token.
pub type AssetId = u32;

/// Identifier of an account, already authenticated by whoever calls the ledger.
pub type AccountId = u32;

/// An amount of some asset.
pub type Balance = u128;

/// Why the ledger refused an operation.
#[derive(Clone, Copy, Debug, PartialEq, Eq, Structural)]
pub enum Error {
    /// Transfer amount should be non-zero
    AmountZero,
    /// Account balance must be greater than or equal to the transfer amount
    BalanceLow,
    /// Balance should be non-zero
    BalanceZero,
    /// Not the creator of the asset
    NotTheCreator,
    /// A balance or a supply would exceed the largest `Balance`
    Overflow,
    /// A total supply would drop below zero
    Underflow,
    /// No asset identifier is left to issue
    AssetIdsExhausted,
    /// The asset has not been issued
    UnknownAsset,
}

/// What a successful operation of the ledger did.
#[derive(Clone, Copy, Debug, PartialEq, Eq, Structural)]
pub enum Event {
    /// An asset was issued by an account. \[asset_id, owner, total_supply]
    Issued(AssetId, AccountId, Balance),
    /// An asset was issued by the system. \[asset_id, total_supply]
    IssuedBySystem(AssetId, Balance),
    /// Some assets were transferred. \[asset_id, from, to, amount]
    Transferred(AssetId, AccountId, AccountId, Balance),
    /// Some assets left the custody account. \[asset_id, to, amount]
    TransferredFromSystem(AssetId, AccountId, Balance),
    /// Some assets entered the custody account. \[asset_id, from, amount]
    TransferredToSystem(AssetId, AccountId, Balance),
    /// Some assets were minted. \[asset_id, owner, amount]
    Minted(AssetId, AccountId, Balance),
    /// Some assets were burned. \[asset_id, owner, amount]
    Burned(AssetId, AccountId, Balance),
    /// An account's whole holding was destroyed. \[asset_id, owner, amount]
    Destroyed(AssetId, AccountId, Balance),
}

/// The storage key of the balance of `who` in asset `id`.
pub open spec fn key(id: AssetId, who: AccountId) -> u64 {
    (id as int * 0x1_0000_0000 + who as int) as u64
}

/// Distinct (asset, account) pairs have distinct storage keys.
pub proof fn lemma_key_injective(a1: AssetId, w1: AccountId, a2: AssetId, w2: AccountId)
    ensures
        key(a1, w1) == key(a2, w2) ==> a1 == a2 && w1 == w2,
{
}

/// A successful move keeps the ledger well formed.
pub proof fn lemma_moved_wf(s: LedgerView, id: AssetId, from: AccountId, to: AccountId, amount: Balance)
    requires
        s.wf(),
        s.move_error(id, from, to, amount) is None,
    ensures
        s.moved(id, from, to, amount).wf(),
        s.moved(id, from, to, amount).next_asset_id == s.next_asset_id,
        s.moved(id, from, to, amount).system == s.system,
        id < s.next_asset_id,
{
    assert(s.bal(id, from) > 0);
    let t = s.moved(id, from, to, amount);
    assert forall|i: AssetId, w: AccountId| i >= t.next_asset_id implies #[trigger] t.bal(i, w) == 0 by {
        lemma_key_injective(i, w, id, from);
        lemma_key_injective(i, w, id, to);
        assert(s.bal(i, w) == 0);
    }
    assert forall|i: AssetId| i >= t.next_asset_id implies #[trigger] t.supply(i) == 0 by {
        assert(s.supply(i) == 0);
    }
    assert forall|i: AssetId| #[trigger] t.creators.contains_key(i) implies i < t.next_asset_id by {
        assert(s.creators.contains_key(i));
    }
}

/// A successful mint into an issued asset keeps the ledger well formed.
pub proof fn lemma_minted_wf(s: LedgerView, id: AssetId, to: AccountId, amount: Balance)
    requires
        s.wf(),
        id < s.next_asset_id,
    ensures
        s.minted(id, to, amount).wf(),
        s.minted(id, to, amount).next_asset_id == s.next_asset_id,
        s.minted(id, to, amount).system == s.system,
{
    let t = s.minted(id, to, amount);
    assert forall|i: AssetId, w: AccountId| i >= t.next_asset_id implies #[trigger] t.bal(i, w) == 0 by {
        lemma_key_injective(i, w, id, to);
        assert(s.bal(i, w) == 0);
    }
    assert forall|i: AssetId| i >= t.next_asset_id implies #[trigger] t.supply(i) == 0 by {
        assert(s.supply(i) == 0);
    }
}

/// A successful burn keeps the ledger well formed.
pub proof fn lemma_burned_wf(s: LedgerView, id: AssetId, from: AccountId, amount: Balance)
    requires
        s.wf(),
        s.burn_error(id, from, amount) is None,
    ensures
        s.burned(id, from, amount).wf(),
        s.burned(id, from, amount).next_asset_id == s.next_asset_id,
        s.burned(id, from, amount).system == s.system,
        id < s.next_asset_id,
{
    assert(s.bal(id, from) > 0);
    let t = s.burned(id, from, amount);
    assert forall|i: AssetId, w: AccountId| i >= t.next_asset_id implies #[trigger] t.bal(i, w) == 0 by {
        lemma_key_injective(i, w, id, from);
        assert(s.bal(i, w) == 0);
    }
    assert forall|i: AssetId| i >= t.next_asset_id implies #[trigger] t.supply(i) == 0 by {
        assert(s.supply(i) == 0);
    }
}

/// Issuing keeps the ledger well formed; the new asset's only holding is the owner's.
pub proof fn lemma_issued_wf(s: LedgerView, owner: AccountId, total: Balance)
    requires
        s.wf(),
        s.next_asset_id < u32::MAX,
    ensures
        s.issued(owner, total).wf(),
        (LedgerView { creators: s.creators.insert(s.next_asset_id, owner), ..s.issued(owner, total) }).wf(),
        s.issued(owner, total).next_asset_id == s.next_asset_id + 1,
        s.issued(owner, total).system == s.system,
        s.issued(owner, total).supply(s.next_asset_id) == total,
        forall|w: AccountId| w != owner ==> #[trigger] s.issued(owner, total).bal(s.next_asset_id, w) == 0,
        s.issued(owner, total).bal(s.next_asset_id, owner) == total,
{
    let id = s.next_asset_id;
    let t = s.issued(owner, total);
    assert forall|i: AssetId, w: AccountId| i >= t.next_asset_id implies #[trigger] t.bal(i, w) == 0 by {
        lemma_key_injective(i, w, id, owner);
        assert(s.bal(i, w) == 0);
    }
    assert forall|w: AccountId| w != owner implies #[trigger] t.bal(id, w) == 0 by {
        lemma_key_injective(id, w, id, owner);
        assert(s.bal(id, w) == 0);
    }
    assert forall|i: AssetId| i >= t.next_asset_id implies #[trigger] t.supply(i) == 0 by {
        assert(s.supply(i) == 0);
    }
    let c = LedgerView { creators: s.creators.insert(id, owner), ..t };
    assert forall|i: AssetId, w: AccountId| i >= c.next_asset_id implies #[trigger] c.bal(i, w) == 0 by {
        assert(t.bal(i, w) == 0);
    }
    assert forall|i: AssetId| i >= c.next_asset_id implies #[trigger] c.supply(i) == 0 by {
        assert(t.supply(i) == 0);
    }
    assert forall|i: AssetId| #[trigger] c.creators.contains_key(i) implies i < c.next_asset_id by {
        if i != id {
            assert(s.creators.contains_key(i));
        }
    }
}

/// The ledger as mathematical maps.
pub struct LedgerView {
    pub balances: Map<u64, Balance>,
    pub supplies: Map<AssetId, Balance>,
    pub creators: Map<AssetId, AccountId>,
    pub next_asset_id: AssetId,
    pub system: AccountId,
}

impl LedgerView {
    /// Identifiers that have not been issued yet hold no balance, no supply and no creator.
    pub open spec fn wf(self) -> bool {
        &&& forall|id: AssetId, who: AccountId|
            id >= self.next_asset_id ==> #[trigger] self.bal(id, who) == 0
        &&& forall|id: AssetId| id >= self.next_asset_id ==> #[trigger] self.supply(id) == 0
        &&& forall|id: AssetId| #[trigger] self.creators.contains_key(id) ==> id < self.next_asset_id
    }

    /// The balance of `who` in asset `id`; absent entries hold zero.
    pub open spec fn bal(self, id: AssetId, who: AccountId) -> Balance {
        if self.balances.contains_key(key(id, who)) {
            self.balances[key(id, who)]
        } else {
            0
        }
    }

    /// The total supply of asset `id`; absent entries hold zero.
    pub open spec fn supply(self, id: AssetId) -> Balance {
        if self.supplies.contains_key(id) {
            self.supplies[id]
        } else {
            0
        }
    }

    pub open spec fn set_bal(self, id: AssetId, who: AccountId, v: Balance) -> LedgerView {
        LedgerView { balances: self.balances.insert(key(id, who), v), ..self }
    }

    pub open spec fn set_supply(self, id: AssetId, v: Balance) -> LedgerView {
        LedgerView { supplies: self.supplies.insert(id, v), ..self }
    }

    /// The error that moving `amount` of `id` from `from` to `to` meets, if any.
    pub open spec fn move_error(self, id: AssetId, from: AccountId, to: AccountId, amount: Balance) -> Option<Error> {
        if amount == 0 {
            Some(Error::AmountZero)
        } else if self.bal(id, from) < amount {
            Some(Error::BalanceLow)
        } else if from != to && self.bal(id, to) + amount > u128::MAX {
            Some(Error::Overflow)
        } else {
            None
        }
    }

    /// The ledger after moving `amount` of `id` from `from` to `to`.
    pub open spec fn moved(self, id: AssetId, from: AccountId, to: AccountId, amount: Balance) -> LedgerView {
        if from == to {
            self
        } else {
            self.set_bal(id, from, (self.bal(id, from) - amount) as Balance).set_bal(
                id,
                to,
                (self.bal(id, to) + amount) as Balance,
            )
        }
    }

    /// The error that minting `amount` of `id` to `to` meets, if any.
    pub open spec fn mint_error(self, id: AssetId, to: AccountId, amount: Balance) -> Option<Error> {
        if amount == 0 {
            Some(Error::AmountZero)
        } else if id >= self.next_asset_id {
            Some(Error::UnknownAsset)
        } else if self.bal(id, to) + amount > u128::MAX || self.supply(id) + amount > u128::MAX {
            Some(Error::Overflow)
        } else {
            None
        }
    }

    /// The ledger after minting `amount` of `id` to `to`.
    pub open spec fn minted(self, id: AssetId, to: AccountId, amount: Balance) -> LedgerView {
        self.set_bal(id, to, (self.bal(id, to) + amount) as Balance).set_supply(
            id,
            (self.supply(id) + amount) as Balance,
        )
    }

    /// The error that burning `amount` of `id` held by `from` meets, if any.
    pub open spec fn burn_error(self, id: AssetId, from: AccountId, amount: Balance) -> Option<Error> {
        if amount == 0 {
            Some(Error::AmountZero)
        } else if self.bal(id, from) < amount {
            Some(Error::BalanceLow)
        } else if self.supply(id) < amount {
            Some(Error::Underflow)
        } else {
            None
        }
    }

    /// The ledger after burning `amount` of `id` held by `from`.
    pub open spec fn burned(self, id: AssetId, from: AccountId, amount: Balance) -> LedgerView {
        self.set_bal(id, from, (self.bal(id, from) - amount) as Balance).set_supply(
            id,
            (self.supply(id) - amount) as Balance,
        )
    }

    /// The ledger after issuing a new asset with supply `total`, held by `owner`.
    pub open spec fn issued(self, owner: AccountId, total: Balance) -> LedgerView {
        let id = self.next_asset_id;
        LedgerView {
            next_asset_id: (id + 1) as AssetId,
            ..self.set_bal(id, owner, total).set_supply(id, total)
        }
    }
}

/// The token ledger.
pub struct Pallet {
    balances: HashMap<u64, Balance>,
    supplies: HashMap<AssetId, Balance>,
    creators: HashMap<AssetId, AccountId>,
    next_asset_id: AssetId,
    system: AccountId,
}

impl View for Pallet {
    type V = LedgerView;

    closed spec fn view(&self) -> LedgerView {
        LedgerView {
            balances: self.balances@,
            supplies: self.supplies@,
            creators: self.creators@,
            next_asset_id: self.next_asset_id,
            system: self.system,
        }
    }
}

fn balance_key(id: AssetId, who: AccountId) -> (r: u64)
    ensures
        r == key(id, who),
{
    id as u64 * 0x1_0000_0000 + who as u64
}

impl Pallet {
    /// An empty ledger whose custody account is `system`; asset ids are issued from 1 on,
    /// 0 being the native token.
    pub fn new(system: AccountId) -> (r: Pallet)
        ensures
            r@.balances == Map::<u64, Balance>::empty(),
            r@.supplies == Map::<AssetId, Balance>::empty(),
            r@.creators == Map::<AssetId, AccountId>::empty(),
            r@.next_asset_id == 1,
            r@.system == system,
            r@.wf(),
    {
        Pallet {
            balances: HashMap::new(),
            supplies: HashMap::new(),
            creators: HashMap::new(),
            next_asset_id: 1,
            system,
        }
    }

    /// A copy of the ledger.
    pub fn snapshot(&self) -> (r: Pallet)
        ensures
            r@ == self@,
    {
        Pallet {
            balances: self.balances.clone(),
            supplies: self.supplies.clone(),
            creators: self.creators.clone(),
            next_asset_id: self.next_asset_id,
            system: self.system,
        }
    }

    /// The custody account that holds the market's reserves.
    pub fn account_id(&self) -> (r: AccountId)
        ensures
            r == self@.system,
    {
        self.system
    }

    /// The identifier that the next issued asset receives.
    pub fn next_asset_id(&self) -> (r: AssetId)
        ensures
            r == self@.next_asset_id,
    {
        self.next_asset_id
    }

    /// The balance of `who` in asset `id`.
    pub fn balance(&self, id: AssetId, who: AccountId) -> (r: Balance)
        ensures
            r == self@.bal(id, who),
    {
        match self.balances.get(&balance_key(id, who)) {
            Some(b) => *b,
            None => 0,
        }
    }

    /// The total supply of asset `id`.
    pub fn total_supply(&self, id: AssetId) -> (r: Balance)
        ensures
            r == self@.supply(id),
    {
        match self.supplies.get(&id) {
            Some(s) => *s,
            None => 0,
        }
    }

    fn set_balance(&mut self, id: AssetId, who: AccountId, v: Balance)
        ensures
            final(self)@ == old(self)@.set_bal(id, who, v),
    {
        self.balances.insert(balance_key(id, who), v);
    }

    fn set_supply(&mut self, id: AssetId, v: Balance)
        ensures
            final(self)@ == old(self)@.set_supply(id, v),
    {
        self.supplies.insert(id, v);
    }

    /// Moves `amount` of `id` from `from` to `to`, after the checks shared by every transfer.
    fn move_balance(&mut self, id: AssetId, from: AccountId, to: AccountId, amount: Balance) -> (r: Result<(), Error>)
        requires
            old(self)@.wf(),
        ensures
            final(self)@.wf(),
            match old(self)@.move_error(id, from, to, amount) {
                Some(e) => r == Err::<(), Error>(e) && final(self)@ == old(self)@,
                None => r is Ok && final(self)@ == old(self)@.moved(id, from, to, amount),
            },
    {
        if amount == 0 {
            return Err(Error::AmountZero);
        }
        let from_balance = self.balance(id, from);
        if from_balance < amount {
            return Err(Error::BalanceLow);
        }
        proof {
            if old(self)@.move_error(id, from, to, amount) is None {
                lemma_moved_wf(old(self)@, id, from, to, amount);
            }
        }
        if from == to {
            return Ok(());
        }
        let to_balance = self.balance(id, to);
        match to_balance.checked_add(amount) {
            None => Err(Error::Overflow),
            Some(new_to) => {
                self.set_balance(id, from, from_balance - amount);
                self.set_balance(id, to, new_to);
                Ok(())
            },
        }
    }
    /// Issues a new asset whose whole supply `total` belongs to `origin`, its creator.
    pub fn issue(&mut self, origin: AccountId, total: Balance) -> (r: Result<Event, Error>)
        requires
            old(self)@.wf(),
        ensures
            final(self)@.wf(),
            old(self)@.next_asset_id == u32::MAX ==> r == Err::<Event, Error>(Error::AssetIdsExhausted)
                && final(self)@ == old(self)@,
            old(self)@.next_asset_id < u32::MAX ==> r == Ok::<Event, Error>(
                Event::Issued(old(self)@.next_asset_id, origin, total),
            ) && final(self)@ == (LedgerView {
                creators: old(self)@.creators.insert(old(self)@.next_asset_id, origin),
                ..old(self)@.issued(origin, total)
            }),
    {
        let id = self.next_asset_id;
        if id == u32::MAX {
            return Err(Error::AssetIdsExhausted);
        }
        proof {
            lemma_issued_wf(old(self)@, origin, total);
        }
        self.set_balance(id, origin, total);
        self.set_supply(id, total);
        self.creators.insert(id, origin);
        self.next_asset_id = id + 1;
        Ok(Event::Issued(id, origin, total))
    }

    /// Issues a new asset for the system, its whole supply `total` held by the custody account;
    /// returns the new asset's identifier.
    pub fn issue_from_system(&mut self, total: Balance) -> (r: Result<AssetId, Error>)
        requires
            old(self)@.wf(),
        ensures
            final(self)@.wf(),
            old(self)@.next_asset_id == u32::MAX ==> r == Err::<AssetId, Error>(Error::AssetIdsExhausted)
                && final(self)@ == old(self)@,
            old(self)@.next_asset_id < u32::MAX ==> r == Ok::<AssetId, Error>(old(self)@.next_asset_id)
                && final(self)@ == old(self)@.issued(old(self)@.system, total),
    {
        let id = self.next_asset_id;
        if id == u32::MAX {
            return Err(Error::AssetIdsExhausted);
        }
        proof {
            lemma_issued_wf(old(self)@, old(self)@.system, total);
        }
        let system = self.system;
        self.set_balance(id, system, total);
        self.set_supply(id, total);
        self.next_asset_id = id + 1;
        Ok(id)
    }

    /// Mints `amount` of `id` to `target`; only the creator of `id` may do so.
    pub fn mint(&mut self, origin: AccountId, id: AssetId, target: AccountId, amount: Balance) -> (r: Result<Event, Error>)
        requires
            old(self)@.wf(),
        ensures
            final(self)@.wf(),
            !(old(self)@.creators.contains_key(id) && old(self)@.creators[id] == origin) ==> r
                == Err::<Event, Error>(Error::NotTheCreator) && final(self)@ == old(self)@,
            old(self)@.creators.contains_key(id) && old(self)@.creators[id] == origin ==> match old(
                self,
            )@.mint_error(id, target, amount) {
                Some(e) => r == Err::<Event, Error>(e) && final(self)@ == old(self)@,
                None => r == Ok::<Event, Error>(Event::Minted(id, target, amount)) && final(self)@
                    == old(self)@.minted(id, target, amount),
            },
    {
        match self.creators.get(&id) {
            Some(c) => {
                if *c != origin {
                    return Err(Error::NotTheCreator);
                }
            },
            None => {
                return Err(Error::NotTheCreator);
            },
        }
        match self.mint_from_system(&id, &target, &amount) {
            Ok(()) => Ok(Event::Minted(id, target, amount)),
            Err(e) => Err(e),
        }
    }

    /// Burns `amount` of `id` from the holding of `origin`. The holding burned is always the
    /// caller's own: `target` is not consulted.
    pub fn burn(&mut self, origin: AccountId, id: AssetId, target: AccountId, amount: Balance) -> (r: Result<Event, Error>)
        requires
            old(self)@.wf(),
        ensures
            final(self)@.wf(),
            match old(self)@.burn_error(id, origin, amount) {
                Some(e) => r == Err::<Event, Error>(e) && final(self)@ == old(self)@,
                None => r == Ok::<Event, Error>(Event::Burned(id, origin, amount)) && final(self)@
                    == old(self)@.burned(id, origin, amount),
            },
    {
        match self.burn_from_system(&id, &origin, &amount) {
            Ok(()) => Ok(Event::Burned(id, origin, amount)),
            Err(e) => Err(e),
        }
    }

    /// Moves `amount` of `id` from `origin` to `target`.
    pub fn transfer(&mut self, origin: AccountId, id: AssetId, target: AccountId, amount: Balance) -> (r: Result<Event, Error>)
        requires
            old(self)@.wf(),
        ensures
            final(self)@.wf(),
            match old(self)@.move_error(id, origin, target, amount) {
                Some(e) => r == Err::<Event, Error>(e) && final(self)@ == old(self)@,
                None => r == Ok::<Event, Error>(Event::Transferred(id, origin, target, amount))
                    && final(self)@ == old(self)@.moved(id, origin, target, amount),
            },
    {
        match self.move_balance(id, origin, target, amount) {
            Ok(()) => Ok(Event::Transferred(id, origin, target, amount)),
            Err(e) => Err(e),
        }
    }

    /// Destroys the whole holding of `origin` in `id`, lowering the supply by as much.
    pub fn destroy(&mut self, origin: AccountId, id: AssetId) -> (r: Result<Event, Error>)
        requires
            old(self)@.wf(),
        ensures
            final(self)@.wf(),
            ({
                let b = old(self)@.bal(id, origin);
                if b == 0 {
                    r == Err::<Event, Error>(Error::BalanceZero) && final(self)@ == old(self)@
                } else if old(self)@.supply(id) < b {
                    r == Err::<Event, Error>(Error::Underflow) && final(self)@ == old(self)@
                } else {
                    r == Ok::<Event, Error>(Event::Destroyed(id, origin, b)) && final(self)@ == old(
                        self,
                    )@.burned(id, origin, b)
                }
            }),
    {
        let b = self.balance(id, origin);
        if b == 0 {
            return Err(Error::BalanceZero);
        }
        let supply = self.total_supply(id);
        if supply < b {
            return Err(Error::Underflow);
        }
        proof {
            lemma_burned_wf(old(self)@, id, origin, b);
        }
        self.set_balance(id, origin, 0);
        self.set_supply(id, supply - b);
        Ok(Event::Destroyed(id, origin, b))
    }

    /// Mints `amount` of `id` to `target` on behalf of the system, raising the supply.
    pub fn mint_from_system(&mut self, id: &AssetId, target: &AccountId, amount: &Balance) -> (r: Result<(), Error>)
        requires
            old(self)@.wf(),
        ensures
            final(self)@.wf(),
            match old(self)@.mint_error(*id, *target, *amount) {
                Some(e) => r == Err::<(), Error>(e) && final(self)@ == old(self)@,
                None => r is Ok && final(self)@ == old(self)@.minted(*id, *target, *amount),
            },
    {
        let (id, target, amount) = (*id, *target, *amount);
        if amount == 0 {
            return Err(Error::AmountZero);
        }
        if id >= self.next_asset_id {
            return Err(Error::UnknownAsset);
        }
        let b = self.balance(id, target);
        let supply = self.total_supply(id);
        if b > u128::MAX - amount || supply > u128::MAX - amount {
            return Err(Error::Overflow);
        }
        proof {
            lemma_minted_wf(old(self)@, id, target, amount);
        }
        self.set_balance(id, target, b + amount);
        self.set_supply(id, supply + amount);
        Ok(())
    }

    /// Burns `amount` of `id` held by `target` on behalf of the system, lowering the supply.
    pub fn burn_from_system(&mut self, id: &AssetId, target: &AccountId, amount: &Balance) -> (r: Result<(), Error>)
        requires
            old(self)@.wf(),
        ensures
            final(self)@.wf(),
            match old(self)@.burn_error(*id, *target, *amount) {
                Some(e) => r == Err::<(), Error>(e) && final(self)@ == old(self)@,
                None => r is Ok && final(self)@ == old(self)@.burned(*id, *target, *amount),
            },
    {
        let (id, target, amount) = (*id, *target, *amount);
        if amount == 0 {
            return Err(Error::AmountZero);
        }
        let b = self.balance(id, target);
        if b < amount {
            return Err(Error::BalanceLow);
        }
        let supply = self.total_supply(id);
        if supply < amount {
            return Err(Error::Underflow);
        }
        proof {
            lemma_burned_wf(old(self)@, id, target, amount);
        }
        self.set_balance(id, target, b - amount);
        self.set_supply(id, supply - amount);
        Ok(())
    }

    /// Moves `amount` of `id` from `source` to `target` on behalf of the system.
    pub fn transfer_system(&mut self, id: &AssetId, source: &AccountId, target: &AccountId, amount: &Balance) -> (r: Result<(), Error>)
        requires
            old(self)@.wf(),
        ensures
            final(self)@.wf(),
            match old(self)@.move_error(*id, *source, *target, *amount) {
                Some(e) => r == Err::<(), Error>(e) && final(self)@ == old(self)@,
                None => r is Ok && final(self)@ == old(self)@.moved(*id, *source, *target, *amount),
            },
    {
        self.move_balance(*id, *source, *target, *amount)
    }

    /// Moves `amount` of `id` out of the custody account to `target`.
    pub fn transfer_from_system(&mut self, id: &AssetId, target: &AccountId, amount: &Balance) -> (r: Result<(), Error>)
        requires
            old(self)@.wf(),
        ensures
            final(self)@.wf(),
            match old(self)@.move_error(*id, old(self)@.system, *target, *amount) {
                Some(e) => r == Err::<(), Error>(e) && final(self)@ == old(self)@,
                None => r is Ok && final(self)@ == old(self)@.moved(*id, old(self)@.system, *target, *amount),
            },
    {
        let system = self.system;
        self.move_balance(*id, system, *target, *amount)
    }

    /// Moves `amount` of `id` from `source` into the custody account.
    pub fn transfer_to_system(&mut self, id: &AssetId, source: &AccountId, amount: &Balance) -> (r: Result<(), Error>)
        requires
            old(self)@.wf(),
        ensures
            final(self)@.wf(),
            match old(self)@.move_error(*id, *source, old(self)@.system, *amount) {
                Some(e) => r == Err::<(), Error>(e) && final(self)@ == old(self)@,
                None => r is Ok && final(self)@ == old(self)@.moved(*id, *source, old(self)@.system, *amount),
            },
    {
        let system = self.system;
        self.move_balance(*id, *source, system, *amount)
    }
}

} // verus!
