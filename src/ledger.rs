//! Balances of fungible assets, per owner and asset.
use vstd::prelude::*;

use crate::error::SwapError;
use crate::keyed::{
    has_key, keyed_map, keys_unique, lemma_keyed_at, lemma_keyed_push, lemma_keyed_update,
};

verus! {

/// A 32-byte account or asset identity, held as two 128-bit halves.
#[derive(Clone, Copy, Debug, PartialEq, Eq, Structural)]
pub struct Address {
    pub hi: u128,
    pub lo: u128,
}

/// One owner's balance of one asset.
#[derive(Clone, Copy, Debug, PartialEq, Eq, Structural)]
pub struct Holding {
    pub owner: Address,
    pub asset: Address,
    pub amount: u64,
}

/// A holding is stored under its owner and asset.
pub open spec fn holding_key() -> spec_fn(Holding) -> (Address, Address) {
    |h: Holding| (h.owner, h.asset)
}

/// What `owner` holds of `asset` in the balance map `b`; absent means zero.
pub open spec fn balance_in(b: Map<(Address, Address), nat>, owner: Address, asset: Address) -> nat {
    if b.contains_key((owner, asset)) {
        b[(owner, asset)]
    } else {
        0
    }
}

/// `b` with the balance of `owner` in `asset` set to `amount`.
pub open spec fn with_balance(
    b: Map<(Address, Address), nat>,
    owner: Address,
    asset: Address,
    amount: nat,
) -> Map<(Address, Address), nat> {
    b.insert((owner, asset), amount)
}

/// `b` after `amount` of `asset` is debited from `from` and then credited to `to`.
pub open spec fn moved(
    b: Map<(Address, Address), nat>,
    from: Address,
    to: Address,
    asset: Address,
    amount: nat,
) -> Map<(Address, Address), nat> {
    let debited = with_balance(b, from, asset, (balance_in(b, from, asset) - amount) as nat);
    with_balance(debited, to, asset, balance_in(debited, to, asset) + amount)
}

/// The balance of `to` in `asset` once `amount` has left `from`: the one that
/// receives the credit of a transfer.
pub open spec fn balance_before_credit(
    b: Map<(Address, Address), nat>,
    from: Address,
    to: Address,
    asset: Address,
    amount: nat,
) -> nat {
    if from == to {
        (balance_in(b, to, asset) - amount) as nat
    } else {
        balance_in(b, to, asset)
    }
}

/// The balances of all owners; each is a `u64`, as in a token account.
pub struct Ledger {
    holdings: Vec<Holding>,
}

impl View for Ledger {
    type V = Map<(Address, Address), nat>;

    closed spec fn view(&self) -> Map<(Address, Address), nat> {
        keyed_map(self.holdings@, holding_key()).map_values(|h: Holding| h.amount as nat)
    }
}

impl Ledger {
    /// Each (owner, asset) pair has at most one holding.
    pub closed spec fn wf(&self) -> bool {
        keys_unique(self.holdings@, holding_key())
    }

    /// A ledger in which nobody holds anything.
    pub fn new() -> (r: Ledger)
        ensures
            r.wf(),
            r@ == Map::<(Address, Address), nat>::empty(),
    {
        let r = Ledger { holdings: Vec::new() };
        assert(r@ =~= Map::<(Address, Address), nat>::empty());
        r
    }

    fn find(&self, owner: Address, asset: Address) -> (r: Option<usize>)
        ensures
            match r {
                Some(i) => i < self.holdings@.len() && self.holdings@[i as int].owner == owner
                    && self.holdings@[i as int].asset == asset,
                None => !has_key(self.holdings@, holding_key(), (owner, asset)),
            },
    {
        let mut i: usize = 0;
        while i < self.holdings.len()
            invariant
                i <= self.holdings@.len(),
                forall|j: int|
                    0 <= j < i ==> #[trigger] (holding_key())(self.holdings@[j]) != (owner, asset),
            decreases self.holdings@.len() - i,
        {
            let h = self.holdings[i];
            if h.owner == owner && h.asset == asset {
                return Some(i);
            }
            i = i + 1;
        }
        None
    }

    /// What `owner` holds of `asset`.
    pub fn balance_of(&self, owner: Address, asset: Address) -> (r: u64)
        requires
            self.wf(),
        ensures
            r as nat == balance_in(self@, owner, asset),
    {
        match self.find(owner, asset) {
            Some(i) => {
                proof {
                    lemma_keyed_at(self.holdings@, holding_key(), i as int);
                }
                self.holdings[i].amount
            },
            None => 0,
        }
    }

    fn set_balance(&mut self, owner: Address, asset: Address, amount: u64)
        requires
            old(self).wf(),
        ensures
            final(self).wf(),
            final(self)@ == with_balance(old(self)@, owner, asset, amount as nat),
    {
        let h = Holding { owner, asset, amount };
        let ghost s = self.holdings@;
        match self.find(owner, asset) {
            Some(i) => {
                proof {
                    lemma_keyed_update(s, holding_key(), i as int, h);
                }
                self.holdings[i] = h;
            },
            None => {
                proof {
                    lemma_keyed_push(s, holding_key(), h);
                }
                self.holdings.push(h);
            },
        }
        proof {
            assert(self@ =~= with_balance(old(self)@, owner, asset, amount as nat));
        }
    }

    /// Credits `amount` of `asset` to `owner`. Fails, changing nothing, where
    /// the balance would pass `u64::MAX`.
    pub fn deposit(&mut self, owner: Address, asset: Address, amount: u64) -> (r: Result<
        (),
        SwapError,
    >)
        requires
            old(self).wf(),
        ensures
            final(self).wf(),
            balance_in(old(self)@, owner, asset) + amount <= u64::MAX ==> r is Ok && final(self)@
                == with_balance(
                old(self)@,
                owner,
                asset,
                (balance_in(old(self)@, owner, asset) + amount) as nat,
            ),
            balance_in(old(self)@, owner, asset) + amount > u64::MAX ==> r == Err::<
                (),
                SwapError,
            >(SwapError::ArithmeticOverflow) && final(self)@ == old(self)@,
    {
        let b = self.balance_of(owner, asset);
        if amount > u64::MAX - b {
            return Err(SwapError::ArithmeticOverflow);
        }
        self.set_balance(owner, asset, b + amount);
        Ok(())
    }

    /// Debits `amount` of `asset` from `owner`. Fails with `InsufficientFunds`,
    /// changing nothing, where `owner` holds less than `amount`.
    pub fn withdraw(&mut self, owner: Address, asset: Address, amount: u64) -> (r: Result<
        (),
        SwapError,
    >)
        requires
            old(self).wf(),
        ensures
            final(self).wf(),
            balance_in(old(self)@, owner, asset) >= amount ==> r is Ok && final(self)@
                == with_balance(
                old(self)@,
                owner,
                asset,
                (balance_in(old(self)@, owner, asset) - amount) as nat,
            ),
            balance_in(old(self)@, owner, asset) < amount ==> r == Err::<(), SwapError>(
                SwapError::InsufficientFunds,
            ) && final(self)@ == old(self)@,
    {
        let b = self.balance_of(owner, asset);
        if b < amount {
            return Err(SwapError::InsufficientFunds);
        }
        self.set_balance(owner, asset, b - amount);
        Ok(())
    }

    /// Moves `amount` of `asset` from `from` to `to`, all or nothing: fails
    /// with `InsufficientFunds` where `from` holds less than `amount`, and
    /// with `ArithmeticOverflow` where the credit would pass `u64::MAX`.
    pub fn transfer(&mut self, from: Address, to: Address, asset: Address, amount: u64) -> (r:
        Result<(), SwapError>)
        requires
            old(self).wf(),
        ensures
            final(self).wf(),
            r is Ok ==> final(self)@ == moved(old(self)@, from, to, asset, amount as nat),
            r is Err ==> final(self)@ == old(self)@,
            r == transfer_outcome(old(self)@, from, to, asset, amount as nat),
    {
        let fb = self.balance_of(from, asset);
        if fb < amount {
            return Err(SwapError::InsufficientFunds);
        }
        let tb = if from == to {
            fb - amount
        } else {
            self.balance_of(to, asset)
        };
        if amount > u64::MAX - tb {
            return Err(SwapError::ArithmeticOverflow);
        }
        self.set_balance(from, asset, fb - amount);
        self.set_balance(to, asset, tb + amount);
        Ok(())
    }
}

/// What a transfer answers on the balances `b`.
pub open spec fn transfer_outcome(
    b: Map<(Address, Address), nat>,
    from: Address,
    to: Address,
    asset: Address,
    amount: nat,
) -> Result<(), SwapError> {
    if balance_in(b, from, asset) < amount {
        Err(SwapError::InsufficientFunds)
    } else if balance_before_credit(b, from, to, asset, amount) + amount > u64::MAX {
        Err(SwapError::ArithmeticOverflow)
    } else {
        Ok(())
    }
}

} // verus!
