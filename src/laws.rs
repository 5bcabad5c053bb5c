//! Properties of the offer life cycle, stated over the model of the state
//! that `make_offer` and `take_offer` follow.
use vstd::prelude::*;

use crate::error::SwapError;
use crate::ledger::{balance_in, Address};
use crate::escrow::{make_offer_outcome, take_offer_outcome, MakeOffer, SwapModel, TakeOffer};

verus! {

/// Opening an offer keeps the invariant: vaults and open offers still come
/// in pairs.
pub proof fn lemma_make_offer_keeps_wf(
    m: SwapModel,
    ctx: MakeOffer,
    id: u64,
    amount_offered: nat,
    amount_wanted: nat,
)
    requires
        m.wf(),
        amount_wanted <= u64::MAX,
        make_offer_outcome(m, ctx, id, amount_offered, amount_wanted) is Ok,
    ensures
        make_offer_outcome(m, ctx, id, amount_offered, amount_wanted)->Ok_0.wf(),
{
    let n = make_offer_outcome(m, ctx, id, amount_offered, amount_wanted)->Ok_0;
    assert(n.offers.dom() =~= n.vaults.dom());
}

/// Settling an offer keeps the invariant: its record and its vault go
/// together, and the other offers keep theirs.
pub proof fn lemma_take_offer_keeps_wf(m: SwapModel, ctx: TakeOffer)
    requires
        m.wf(),
        take_offer_outcome(m, ctx) is Ok,
    ensures
        take_offer_outcome(m, ctx)->Ok_0.wf(),
{
    let n = take_offer_outcome(m, ctx)->Ok_0;
    assert(n.offers.dom() =~= n.vaults.dom());
}

/// A settlement creates and destroys nothing: the maker's and the taker's
/// holdings of the wanted asset add up to what they did before, and so do
/// the vault and the taker's holding of the offered asset, the vault being
/// empty and gone afterwards. This holds where the two assets differ; where
/// they are one asset the taker's balance of it takes both movements.
pub proof fn lemma_take_offer_conserves(m: SwapModel, ctx: TakeOffer)
    requires
        take_offer_outcome(m, ctx) is Ok,
        m.offers[(ctx.maker, ctx.id)].asset_offered != m.offers[(ctx.maker, ctx.id)].asset_wanted,
    ensures
        ({
            let k = (ctx.maker, ctx.id);
            let o = m.offers[k];
            let n = take_offer_outcome(m, ctx)->Ok_0;
            &&& balance_in(n.balances, o.maker, o.asset_wanted) + balance_in(
                n.balances,
                ctx.taker,
                o.asset_wanted,
            ) == balance_in(m.balances, o.maker, o.asset_wanted) + balance_in(
                m.balances,
                ctx.taker,
                o.asset_wanted,
            )
            &&& !n.vaults.contains_key(k)
            &&& balance_in(n.balances, ctx.taker, o.asset_offered) == m.vaults[k] + balance_in(
                m.balances,
                ctx.taker,
                o.asset_offered,
            )
        }),
{
}

/// An offer is settled at most once: after one successful `take_offer`, any
/// further one on the same maker and identifier fails with `OfferNotFound`.
pub proof fn lemma_no_double_settlement(m: SwapModel, first: TakeOffer, second: TakeOffer)
    requires
        take_offer_outcome(m, first) is Ok,
        second.maker == first.maker,
        second.id == first.id,
    ensures
        take_offer_outcome(take_offer_outcome(m, first)->Ok_0, second) == Err::<
            SwapModel,
            SwapError,
        >(SwapError::OfferNotFound),
{
}

/// Opening an offer is all or nothing. Where no offer of the maker under
/// `id` is open, `make_offer` either creates the record and its vault,
/// funded with the amount offered, or fails; a failure changes no state, so
/// neither a record nor a vault exists under that maker and identifier.
pub proof fn lemma_make_offer_all_or_nothing(
    m: SwapModel,
    ctx: MakeOffer,
    id: u64,
    amount_offered: nat,
    amount_wanted: nat,
)
    requires
        m.wf(),
        !m.offers.contains_key((ctx.maker, id)),
    ensures
        match make_offer_outcome(m, ctx, id, amount_offered, amount_wanted) {
            Ok(n) => n.offers.contains_key((ctx.maker, id)) && n.vaults.contains_key(
                (ctx.maker, id),
            ) && n.vaults[(ctx.maker, id)] == amount_offered,
            Err(_) => !m.offers.contains_key((ctx.maker, id)) && !m.vaults.contains_key(
                (ctx.maker, id),
            ),
        },
{
}

/// Identifiers belong to their maker: two makers may both open an offer
/// under the same identifier, one after the other, and both offers stand,
/// each with its own vault holding what its maker escrowed.
pub proof fn lemma_ids_scoped_by_maker(
    m: SwapModel,
    a: MakeOffer,
    b: MakeOffer,
    id: u64,
    a_offered: nat,
    a_wanted: nat,
    b_offered: nat,
    b_wanted: nat,
)
    requires
        a.maker != b.maker,
        a.maker_signed,
        b.maker_signed,
        a_offered > 0,
        a_wanted > 0,
        b_offered > 0,
        b_wanted > 0,
        !m.offers.contains_key((a.maker, id)),
        !m.offers.contains_key((b.maker, id)),
        balance_in(m.balances, a.maker, a.asset_offered) >= a_offered,
        balance_in(m.balances, b.maker, b.asset_offered) >= b_offered,
    ensures
        make_offer_outcome(m, a, id, a_offered, a_wanted) is Ok,
        make_offer_outcome(make_offer_outcome(m, a, id, a_offered, a_wanted)->Ok_0, b, id, b_offered, b_wanted) is Ok,
        ({
            let n = make_offer_outcome(
                make_offer_outcome(m, a, id, a_offered, a_wanted)->Ok_0,
                b,
                id,
                b_offered,
                b_wanted,
            )->Ok_0;
            &&& n.offers.contains_key((a.maker, id))
            &&& n.offers.contains_key((b.maker, id))
            &&& n.offers[(a.maker, id)].maker == a.maker
            &&& n.offers[(b.maker, id)].maker == b.maker
            &&& n.vaults[(a.maker, id)] == a_offered
            &&& n.vaults[(b.maker, id)] == b_offered
        }),
{
}

/// Opening an offer touches no other: every other maker and identifier has
/// the same record and the same vault balance, or none, as before.
pub proof fn lemma_make_offer_leaves_others(
    m: SwapModel,
    ctx: MakeOffer,
    id: u64,
    amount_offered: nat,
    amount_wanted: nat,
    other: (Address, u64),
)
    requires
        make_offer_outcome(m, ctx, id, amount_offered, amount_wanted) is Ok,
        other != (ctx.maker, id),
    ensures
        ({
            let n = make_offer_outcome(m, ctx, id, amount_offered, amount_wanted)->Ok_0;
            &&& n.offers.contains_key(other) == m.offers.contains_key(other)
            &&& n.vaults.contains_key(other) == m.vaults.contains_key(other)
            &&& m.offers.contains_key(other) ==> n.offers[other] == m.offers[other]
            &&& m.vaults.contains_key(other) ==> n.vaults[other] == m.vaults[other]
        }),
{
}

/// Settling an offer touches no other: every other maker and identifier has
/// the same record and the same vault balance, or none, as before. A vault
/// is thus only ever emptied whole, by the settlement of its own offer.
pub proof fn lemma_take_offer_leaves_others(m: SwapModel, ctx: TakeOffer, other: (Address, u64))
    requires
        take_offer_outcome(m, ctx) is Ok,
        other != (ctx.maker, ctx.id),
    ensures
        ({
            let n = take_offer_outcome(m, ctx)->Ok_0;
            &&& n.offers.contains_key(other) == m.offers.contains_key(other)
            &&& n.vaults.contains_key(other) == m.vaults.contains_key(other)
            &&& m.offers.contains_key(other) ==> n.offers[other] == m.offers[other]
            &&& m.vaults.contains_key(other) ==> n.vaults[other] == m.vaults[other]
        }),
{
}

} // verus!
