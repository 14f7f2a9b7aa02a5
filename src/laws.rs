use vstd::prelude::*;

use crate::pallet::{plan_lapsed, sweep_result, Pallet, PalletView};
use crate::types::{ItemId, INSTALLMENT_WINDOW};

verus! {

/// A burnt asset is neither listed nor under an installment plan.
pub proof fn lemma_burnt_is_unlisted(p: &Pallet, id: ItemId)
    requires
        p.wf(),
        p@.tokens.contains_key(id),
        p@.tokens[id].burnt,
    ensures
        !p@.sales.contains_key(id),
        !p@.orders.contains_key(id),
{
    p.lemma_consistent();
}

/// A sweep of installment plans at `now` keeps a plan opened at
/// `created_at` while no more than the installment window has passed, and
/// closes it once more has.
pub proof fn lemma_plan_window(v: PalletView, w: PalletView, now: u64, id: ItemId)
    requires
        sweep_result(v, w, now, |k: ItemId| true),
        v.orders.contains_key(id),
    ensures
        w.orders.contains_key(id) <==> now <= v.orders[id].created_at + INSTALLMENT_WINDOW,
{
    assert(w.orders.contains_key(id) <==> !plan_lapsed(v.orders[id].created_at, now));
}

} // verus!
