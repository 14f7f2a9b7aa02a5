use std::collections::HashMap;
use vstd::prelude::*;

use crate::types::{AccountId, Balance, Error};

verus! {

broadcast use vstd::std_specs::hash::group_hash_axioms;

/// What a ledger holds: free and reserved balances (an absent account holds
/// nothing) and the least free balance that a sender must keep.
pub ghost struct LedgerView {
    pub free: Map<AccountId, Balance>,
    pub reserved: Map<AccountId, Balance>,
    pub minimum: Balance,
}

/// The balance of `a` in `m`, zero where `a` has none.
pub open spec fn balance_in(m: Map<AccountId, Balance>, a: AccountId) -> Balance {
    if m.contains_key(a) {
        m[a]
    } else {
        0
    }
}

/// Whether `from` may send `amount` to `to`: a transfer to oneself or of
/// nothing always may; otherwise the sender keeps at least `minimum` and the
/// receiver's balance stays representable.
pub open spec fn can_transfer(
    free: Map<AccountId, Balance>,
    minimum: Balance,
    from: AccountId,
    to: AccountId,
    amount: Balance,
) -> bool {
    from == to || amount == 0 || (balance_in(free, from) >= amount + minimum
        && balance_in(free, to) + amount <= u128::MAX)
}

/// Free balances after `from` sent `amount` to `to`.
pub open spec fn after_transfer(
    free: Map<AccountId, Balance>,
    from: AccountId,
    to: AccountId,
    amount: Balance,
) -> Map<AccountId, Balance> {
    if from == to || amount == 0 {
        free
    } else {
        let debited = free.insert(from, (balance_in(free, from) - amount) as Balance);
        debited.insert(to, (balance_in(free, to) + amount) as Balance)
    }
}

/// Whether `from` can make the payments of `pays` one after the other.
pub open spec fn can_pay_all(
    free: Map<AccountId, Balance>,
    minimum: Balance,
    from: AccountId,
    pays: Seq<(AccountId, Balance)>,
) -> bool
    decreases pays.len(),
{
    if pays.len() == 0 {
        true
    } else {
        can_pay_all(free, minimum, from, pays.drop_last()) && can_transfer(
            after_all(free, from, pays.drop_last()),
            minimum,
            from,
            pays.last().0,
            pays.last().1,
        )
    }
}

/// Free balances after `from` made the payments of `pays` in order.
pub open spec fn after_all(
    free: Map<AccountId, Balance>,
    from: AccountId,
    pays: Seq<(AccountId, Balance)>,
) -> Map<AccountId, Balance>
    decreases pays.len(),
{
    if pays.len() == 0 {
        free
    } else {
        after_transfer(after_all(free, from, pays.drop_last()), from, pays.last().0, pays.last().1)
    }
}

/// The balances of all accounts: what the hosting environment's currency
/// holds for this store.
pub struct Ledger {
    free: HashMap<AccountId, Balance>,
    reserved: HashMap<AccountId, Balance>,
    minimum: Balance,
}

impl View for Ledger {
    type V = LedgerView;

    closed spec fn view(&self) -> LedgerView {
        LedgerView { free: self.free@, reserved: self.reserved@, minimum: self.minimum }
    }
}

fn lookup(m: &HashMap<AccountId, Balance>, a: AccountId) -> (r: Balance)
    ensures
        r == balance_in(m@, a),
{
    match m.get(&a) {
        Some(v) => *v,
        None => 0,
    }
}

impl Ledger {
    /// An empty ledger whose senders keep at least `minimum`.
    pub fn new(minimum: Balance) -> (r: Ledger)
        ensures
            r@.free == Map::<AccountId, Balance>::empty(),
            r@.reserved == Map::<AccountId, Balance>::empty(),
            r@.minimum == minimum,
    {
        Ledger { free: HashMap::new(), reserved: HashMap::new(), minimum }
    }

    /// A copy of the ledger.
    pub fn duplicate(&self) -> (r: Ledger)
        ensures
            r@ == self@,
    {
        Ledger { free: self.free.clone(), reserved: self.reserved.clone(), minimum: self.minimum }
    }

    /// The least free balance that a sender keeps.
    pub fn minimum(&self) -> (r: Balance)
        ensures
            r == self@.minimum,
    {
        self.minimum
    }

    /// The free balance of `who`.
    pub fn free_balance(&self, who: AccountId) -> (r: Balance)
        ensures
            r == balance_in(self@.free, who),
    {
        lookup(&self.free, who)
    }

    /// The reserved balance of `who`.
    pub fn reserved_balance(&self, who: AccountId) -> (r: Balance)
        ensures
            r == balance_in(self@.reserved, who),
    {
        lookup(&self.reserved, who)
    }

    /// Sets the free balance of `who`, as an endowment does.
    pub fn set_free_balance(&mut self, who: AccountId, amount: Balance)
        ensures
            final(self)@ == (LedgerView { free: old(self)@.free.insert(who, amount), ..old(self)@ }),
    {
        self.free.insert(who, amount);
    }

    /// Sends `amount` of free balance from `from` to `to`; the sender keeps
    /// at least the minimum.
    pub fn transfer(&mut self, from: AccountId, to: AccountId, amount: Balance) -> (r: Result<(), Error>)
        ensures
            r is Ok <==> can_transfer(old(self)@.free, old(self)@.minimum, from, to, amount),
            r is Ok ==> final(self)@ == (LedgerView {
                free: after_transfer(old(self)@.free, from, to, amount),
                ..old(self)@
            }),
            r is Err ==> final(self)@ == old(self)@,
            r is Err ==> r == Err::<(), Error>(Error::InsufficientBalance) || r == Err::<(), Error>(
                Error::Overflow,
            ),
            r == Err::<(), Error>(Error::InsufficientBalance) ==> balance_in(old(self)@.free, from)
                < amount + old(self)@.minimum,
    {
        if from == to || amount == 0 {
            return Ok(());
        }
        let from_free = lookup(&self.free, from);
        let to_free = lookup(&self.free, to);
        if from_free < amount || from_free - amount < self.minimum {
            return Err(Error::InsufficientBalance);
        }
        if to_free > u128::MAX - amount {
            return Err(Error::Overflow);
        }
        self.free.insert(from, from_free - amount);
        self.free.insert(to, to_free + amount);
        Ok(())
    }

    /// Moves `amount` of the free balance of `who` into reserve.
    pub fn reserve(&mut self, who: AccountId, amount: Balance) -> (r: Result<(), Error>)
        ensures
            r is Ok <==> balance_in(old(self)@.free, who) >= amount && balance_in(
                old(self)@.reserved,
                who,
            ) + amount <= u128::MAX,
            r is Ok ==> final(self)@ == (LedgerView {
                free: old(self)@.free.insert(who, (balance_in(old(self)@.free, who) - amount) as Balance),
                reserved: old(self)@.reserved.insert(
                    who,
                    (balance_in(old(self)@.reserved, who) + amount) as Balance,
                ),
                minimum: old(self)@.minimum,
            }),
            r is Err ==> final(self)@ == old(self)@,
            r is Err ==> r == Err::<(), Error>(Error::InsufficientBalance) || r == Err::<(), Error>(
                Error::Overflow,
            ),
    {
        let free = lookup(&self.free, who);
        let held = lookup(&self.reserved, who);
        if free < amount {
            return Err(Error::InsufficientBalance);
        }
        if held > u128::MAX - amount {
            return Err(Error::Overflow);
        }
        self.free.insert(who, free - amount);
        self.reserved.insert(who, held + amount);
        Ok(())
    }

    /// Moves up to `amount` of the reserve of `who` back to its free
    /// balance: no more than it holds in reserve, nor than its free balance
    /// can take, so that nothing is lost.
    pub fn unreserve(&mut self, who: AccountId, amount: Balance)
        ensures
            final(self)@ == unreserved(old(self)@, who, amount),
    {
        let free = lookup(&self.free, who);
        let held = lookup(&self.reserved, who);
        let room = u128::MAX - free;
        let mut moved = if amount <= held { amount } else { held };
        if moved > room {
            moved = room;
        }
        self.reserved.insert(who, held - moved);
        self.free.insert(who, free + moved);
    }
}

/// How much of `amount` can go from the reserve of `who` back to its free
/// balance: no more than the reserve, nor than the free balance can take.
pub open spec fn unreservable(l: LedgerView, who: AccountId, amount: Balance) -> Balance {
    let held = balance_in(l.reserved, who);
    let room = (u128::MAX - balance_in(l.free, who)) as Balance;
    let upto = if amount <= held { amount } else { held };
    if upto <= room { upto } else { room }
}

/// The ledger after up to `amount` of the reserve of `who` went back to its
/// free balance.
pub open spec fn unreserved(l: LedgerView, who: AccountId, amount: Balance) -> LedgerView {
    let moved = unreservable(l, who, amount);
    LedgerView {
        free: l.free.insert(who, (balance_in(l.free, who) + moved) as Balance),
        reserved: l.reserved.insert(who, (balance_in(l.reserved, who) - moved) as Balance),
        minimum: l.minimum,
    }
}

} // verus!
