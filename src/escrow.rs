//! Offers and their vaults: creation escrows the maker's asset, settlement
//! pays the maker and releases the vault to the taker.
use vstd::prelude::*;

use crate::error::SwapError;
use crate::keyed::{
    keyed_map, keys_unique, lemma_keyed_at, lemma_keyed_push, lemma_keyed_remove,
};
use crate::ledger::{
    balance_in, moved, transfer_outcome, with_balance, Address, Ledger,
};

verus! {

/// The record of an open offer. The amount offered is not kept here: it is
/// the balance of the offer's vault.
#[derive(Clone, Copy, Debug, PartialEq, Eq, Structural)]
pub struct Offer {
    pub id: u64,
    pub maker: Address,
    pub asset_offered: Address,
    pub asset_wanted: Address,
    pub amount_wanted: u64,
}

/// The accounts a maker hands to `make_offer`.
#[derive(Clone, Copy, Debug, PartialEq, Eq, Structural)]
pub struct MakeOffer {
    pub maker: Address,
    /// Whether the maker signed the request.
    pub maker_signed: bool,
    pub asset_offered: Address,
    pub asset_wanted: Address,
}

/// The accounts a taker hands to `take_offer`: the taker, and the maker and
/// identifier that locate the offer and its vault.
#[derive(Clone, Copy, Debug, PartialEq, Eq, Structural)]
pub struct TakeOffer {
    pub taker: Address,
    /// Whether the taker signed the request.
    pub taker_signed: bool,
    pub maker: Address,
    pub id: u64,
}

/// An open offer together with the balance of its vault, stored as one
/// record so that the two are created and removed in one step.
#[derive(Clone, Copy, Debug, PartialEq, Eq, Structural)]
pub struct Escrow {
    pub offer: Offer,
    pub vault: u64,
}

/// An escrow record is stored under its offer's maker and identifier.
pub open spec fn escrow_key() -> spec_fn(Escrow) -> (Address, u64) {
    |e: Escrow| (e.offer.maker, e.offer.id)
}

/// The whole state as mathematics: balances by (owner, asset), open offers
/// and vault balances by (maker, id). A vault holds the asset its offer names
/// as offered.
pub struct SwapModel {
    pub balances: Map<(Address, Address), nat>,
    pub offers: Map<(Address, u64), Offer>,
    pub vaults: Map<(Address, u64), nat>,
}

impl SwapModel {
    /// A vault exists exactly where an open offer does, and holds a positive
    /// amount; each offer is stored under its own maker and identifier and
    /// wants a positive amount.
    pub open spec fn wf(self) -> bool {
        &&& self.offers.dom() == self.vaults.dom()
        &&& forall|k: (Address, u64)| #[trigger] self.offers.contains_key(k) ==> {
            &&& self.offers[k].maker == k.0
            &&& self.offers[k].id == k.1
            &&& self.offers[k].amount_wanted > 0
            &&& self.vaults[k] > 0
        }
    }
}

/// What `make_offer` does to the state `m`: the error it answers, or the
/// state after it.
pub open spec fn make_offer_outcome(
    m: SwapModel,
    ctx: MakeOffer,
    id: u64,
    amount_offered: nat,
    amount_wanted: nat,
) -> Result<SwapModel, SwapError> {
    let k = (ctx.maker, id);
    let held = balance_in(m.balances, ctx.maker, ctx.asset_offered);
    if !ctx.maker_signed {
        Err(SwapError::Unauthorized)
    } else if amount_offered == 0 || amount_wanted == 0 {
        Err(SwapError::InvalidAmount)
    } else if m.offers.contains_key(k) {
        Err(SwapError::OfferAlreadyExists)
    } else if held < amount_offered {
        Err(SwapError::InsufficientFunds)
    } else {
        Ok(
            SwapModel {
                balances: with_balance(
                    m.balances,
                    ctx.maker,
                    ctx.asset_offered,
                    (held - amount_offered) as nat,
                ),
                offers: m.offers.insert(
                    k,
                    Offer {
                        id,
                        maker: ctx.maker,
                        asset_offered: ctx.asset_offered,
                        asset_wanted: ctx.asset_wanted,
                        amount_wanted: amount_wanted as u64,
                    },
                ),
                vaults: m.vaults.insert(k, amount_offered),
            },
        )
    }
}

/// What `take_offer` does to the state `m`: the error it answers, or the
/// state after it. The taker pays the maker first; the vault's whole balance
/// then goes to the taker, and the offer and vault are gone.
pub open spec fn take_offer_outcome(m: SwapModel, ctx: TakeOffer) -> Result<SwapModel, SwapError> {
    let k = (ctx.maker, ctx.id);
    if !m.offers.contains_key(k) {
        Err(SwapError::OfferNotFound)
    } else if !ctx.taker_signed {
        Err(SwapError::Unauthorized)
    } else {
        let o = m.offers[k];
        let v = m.vaults[k];
        match transfer_outcome(m.balances, ctx.taker, o.maker, o.asset_wanted, o.amount_wanted as nat) {
            Err(e) => Err(e),
            Ok(_) => {
                let paid = moved(m.balances, ctx.taker, o.maker, o.asset_wanted, o.amount_wanted as nat);
                let got = balance_in(paid, ctx.taker, o.asset_offered);
                if got + v > u64::MAX {
                    Err(SwapError::ArithmeticOverflow)
                } else {
                    Ok(
                        SwapModel {
                            balances: with_balance(paid, ctx.taker, o.asset_offered, got + v),
                            offers: m.offers.remove(k),
                            vaults: m.vaults.remove(k),
                        },
                    )
                }
            },
        }
    }
}

/// The ledger of balances and the open offers with their vaults.
pub struct Swap {
    ledger: Ledger,
    open: Vec<Escrow>,
}

impl View for Swap {
    type V = SwapModel;

    closed spec fn view(&self) -> SwapModel {
        let m = keyed_map(self.open@, escrow_key());
        SwapModel {
            balances: self.ledger@,
            offers: m.map_values(|e: Escrow| e.offer),
            vaults: m.map_values(|e: Escrow| e.vault as nat),
        }
    }
}

impl Swap {
    /// The ledger is well formed, no two open offers share a maker and an
    /// identifier, and every open offer wants, and its vault holds, a
    /// positive amount.
    pub closed spec fn wf(&self) -> bool {
        &&& self.ledger.wf()
        &&& keys_unique(self.open@, escrow_key())
        &&& forall|i: int|
            0 <= i < self.open@.len() ==> #[trigger] self.open@[i].vault > 0
                && self.open@[i].offer.amount_wanted > 0
    }

    /// A well-formed state satisfies its model's invariant: every open offer
    /// has a funded vault and every vault an open offer.
    pub proof fn lemma_wf(&self)
        requires
            self.wf(),
        ensures
            self@.wf(),
    {
        let m = keyed_map(self.open@, escrow_key());
        assert(self@.offers.dom() =~= self@.vaults.dom());
        assert forall|k: (Address, u64)| #[trigger] self@.offers.contains_key(k) implies {
            &&& self@.offers[k].maker == k.0
            &&& self@.offers[k].id == k.1
            &&& self@.offers[k].amount_wanted > 0
            &&& self@.vaults[k] > 0
        } by {
            let i = choose|i: int| 0 <= i < self.open@.len() && #[trigger] (escrow_key())(self.open@[i]) == k;
            lemma_keyed_at(self.open@, escrow_key(), i);
            assert(self.open@[i].vault > 0);
            assert(m[k] == self.open@[i]);
            assert(self@.offers[k] == self.open@[i].offer);
            assert(self@.vaults[k] == self.open@[i].vault as nat);
        }
    }

    /// A state with no balances and no offers.
    pub fn new() -> (r: Swap)
        ensures
            r.wf(),
            r@.balances == Map::<(Address, Address), nat>::empty(),
            r@.offers == Map::<(Address, u64), Offer>::empty(),
            r@.vaults == Map::<(Address, u64), nat>::empty(),
    {
        let r = Swap { ledger: Ledger::new(), open: Vec::new() };
        assert(r@.offers =~= Map::<(Address, u64), Offer>::empty());
        assert(r@.vaults =~= Map::<(Address, u64), nat>::empty());
        r
    }

    fn find(&self, maker: Address, id: u64) -> (r: Option<usize>)
        requires
            self.wf(),
        ensures
            match r {
                Some(i) => i < self.open@.len() && (escrow_key())(self.open@[i as int]) == (
                maker,
                id,
                ),
                None => !self@.offers.contains_key((maker, id)),
            },
    {
        let mut i: usize = 0;
        while i < self.open.len()
            invariant
                i <= self.open@.len(),
                forall|j: int|
                    0 <= j < i ==> #[trigger] (escrow_key())(self.open@[j]) != (maker, id),
            decreases self.open@.len() - i,
        {
            let e = self.open[i];
            if e.offer.maker == maker && e.offer.id == id {
                return Some(i);
            }
            i = i + 1;
        }
        None
    }
}

impl Swap {
    /// Opens an offer: moves `token_a_offered_amount` of the maker's
    /// `asset_offered` into a new vault for `(maker, id)` and records that
    /// the maker wants `token_b_wanted_amount` of `asset_wanted` for it. Both
    /// happen, or, with the error of `make_offer_outcome`, neither.
    pub fn make_offer(
        &mut self,
        ctx: MakeOffer,
        id: u64,
        token_a_offered_amount: u64,
        token_b_wanted_amount: u64,
    ) -> (r: Result<(), SwapError>)
        requires
            old(self).wf(),
        ensures
            final(self).wf(),
            match make_offer_outcome(
                old(self)@,
                ctx,
                id,
                token_a_offered_amount as nat,
                token_b_wanted_amount as nat,
            ) {
                Ok(next) => r is Ok && final(self)@ == next,
                Err(e) => r == Err::<(), SwapError>(e) && final(self)@ == old(self)@,
            },
    {
        if !ctx.maker_signed {
            return Err(SwapError::Unauthorized);
        }
        if token_a_offered_amount == 0 || token_b_wanted_amount == 0 {
            return Err(SwapError::InvalidAmount);
        }
        if self.find(ctx.maker, id).is_some() {
            return Err(SwapError::OfferAlreadyExists);
        }
        let ghost s = self.open@;
        let ghost before = self@;
        match self.ledger.withdraw(ctx.maker, ctx.asset_offered, token_a_offered_amount) {
            Err(e) => {
                return Err(e);
            },
            Ok(()) => {},
        }
        let offer = Offer {
            id,
            maker: ctx.maker,
            asset_offered: ctx.asset_offered,
            asset_wanted: ctx.asset_wanted,
            amount_wanted: token_b_wanted_amount,
        };
        let e = Escrow { offer, vault: token_a_offered_amount };
        proof {
            assert(!keyed_map(s, escrow_key()).contains_key((ctx.maker, id)));
            lemma_keyed_push(s, escrow_key(), e);
        }
        self.open.push(e);
        proof {
            let k = (ctx.maker, id);
            assert(self@.offers =~= before.offers.insert(k, offer));
            assert(self@.vaults =~= before.vaults.insert(k, token_a_offered_amount as nat));
        }
        Ok(())
    }

    /// Settles the offer of `(ctx.maker, ctx.id)`: the taker pays the maker
    /// the amount wanted, the vault's whole balance goes to the taker, and
    /// the offer and its vault are removed. All of it happens, or, with the
    /// error of `take_offer_outcome`, none of it.
    pub fn take_offer(&mut self, ctx: TakeOffer) -> (r: Result<(), SwapError>)
        requires
            old(self).wf(),
        ensures
            final(self).wf(),
            match take_offer_outcome(old(self)@, ctx) {
                Ok(next) => r is Ok && final(self)@ == next,
                Err(e) => r == Err::<(), SwapError>(e) && final(self)@ == old(self)@,
            },
    {
        let i = match self.find(ctx.maker, ctx.id) {
            None => {
                return Err(SwapError::OfferNotFound);
            },
            Some(i) => i,
        };
        let ghost s = self.open@;
        let ghost before = self@;
        let ghost k = (ctx.maker, ctx.id);
        proof {
            lemma_keyed_at(s, escrow_key(), i as int);
            assert(before.offers.contains_key(k));
        }
        if !ctx.taker_signed {
            return Err(SwapError::Unauthorized);
        }
        let e = self.open[i];
        let o = e.offer;
        assert(before.offers[k] == o);
        assert(before.vaults[k] == e.vault as nat);
        let paying = self.ledger.balance_of(ctx.taker, o.asset_wanted);
        if paying < o.amount_wanted {
            return Err(SwapError::InsufficientFunds);
        }
        let receiving = if ctx.taker == o.maker {
            paying - o.amount_wanted
        } else {
            self.ledger.balance_of(o.maker, o.asset_wanted)
        };
        if o.amount_wanted > u64::MAX - receiving {
            return Err(SwapError::ArithmeticOverflow);
        }
        let held = self.ledger.balance_of(ctx.taker, o.asset_offered);
        let got = if o.asset_offered == o.asset_wanted && ctx.taker != o.maker {
            held - o.amount_wanted
        } else {
            held
        };
        proof {
            let paid = moved(before.balances, ctx.taker, o.maker, o.asset_wanted, o.amount_wanted as nat);
            assert(got as nat == balance_in(paid, ctx.taker, o.asset_offered));
        }
        if e.vault > u64::MAX - got {
            return Err(SwapError::ArithmeticOverflow);
        }
        match self.ledger.transfer(ctx.taker, o.maker, o.asset_wanted, o.amount_wanted) {
            Err(err) => {
                return Err(err);
            },
            Ok(()) => {},
        }
        match self.ledger.deposit(ctx.taker, o.asset_offered, e.vault) {
            Err(err) => {
                return Err(err);
            },
            Ok(()) => {},
        }
        proof {
            lemma_keyed_remove(s, escrow_key(), i as int);
        }
        self.open.remove(i);
        proof {
            assert(self@.offers =~= before.offers.remove(k));
            assert(self@.vaults =~= before.vaults.remove(k));
        }
        Ok(())
    }
}

impl Swap {
    /// What `owner` holds of `asset`.
    pub fn balance_of(&self, owner: Address, asset: Address) -> (r: u64)
        requires
            self.wf(),
        ensures
            r as nat == balance_in(self@.balances, owner, asset),
    {
        self.ledger.balance_of(owner, asset)
    }

    /// Credits `amount` of `asset` to `owner`; fails with
    /// `ArithmeticOverflow`, changing nothing, where the balance would pass
    /// `u64::MAX`. Offers and vaults are untouched.
    pub fn deposit(&mut self, owner: Address, asset: Address, amount: u64) -> (r: Result<
        (),
        SwapError,
    >)
        requires
            old(self).wf(),
        ensures
            final(self).wf(),
            final(self)@.offers == old(self)@.offers,
            final(self)@.vaults == old(self)@.vaults,
            balance_in(old(self)@.balances, owner, asset) + amount <= u64::MAX ==> r is Ok
                && final(self)@.balances == with_balance(
                old(self)@.balances,
                owner,
                asset,
                (balance_in(old(self)@.balances, owner, asset) + amount) as nat,
            ),
            balance_in(old(self)@.balances, owner, asset) + amount > u64::MAX ==> r == Err::<
                (),
                SwapError,
            >(SwapError::ArithmeticOverflow) && final(self)@ == old(self)@,
    {
        self.ledger.deposit(owner, asset, amount)
    }

    /// The open offer of `maker` under `id`, if there is one.
    pub fn offer(&self, maker: Address, id: u64) -> (r: Option<Offer>)
        requires
            self.wf(),
        ensures
            r == (if self@.offers.contains_key((maker, id)) {
                Some(self@.offers[(maker, id)])
            } else {
                None
            }),
    {
        match self.find(maker, id) {
            Some(i) => {
                proof {
                    lemma_keyed_at(self.open@, escrow_key(), i as int);
                }
                Some(self.open[i].offer)
            },
            None => None,
        }
    }

    /// The balance of the vault of `maker`'s offer `id`, if that offer is open.
    pub fn vault_balance(&self, maker: Address, id: u64) -> (r: Option<u64>)
        requires
            self.wf(),
        ensures
            match r {
                Some(v) => self@.vaults.contains_key((maker, id)) && self@.vaults[(maker, id)]
                    == v as nat,
                None => !self@.vaults.contains_key((maker, id)),
            },
    {
        match self.find(maker, id) {
            Some(i) => {
                proof {
                    lemma_keyed_at(self.open@, escrow_key(), i as int);
                }
                Some(self.open[i].vault)
            },
            None => None,
        }
    }

}

} // verus!
