//! What holds of whole plans: no gap between tiers, parents beside their
//! children, and a masked plan inside the nested one.
//!
//! Distances are measured outside, so the laws speak of measured bricks. A
//! [`Survey`] says what the measures of one observer have in common.

use crate::coord::{parent_of, IVec3, Lod};
use crate::measure::Real64;
use crate::order::{is_stable_order, lemma_order_has};
use crate::world_stream::{
    a_brick_around_a_point_in_the_band_is_loaded, band, in_band, is_ladder, is_plan, limits, lod_at,
    lod_is_that_of_the_band, nested_parent_is_loaded, ranks_of, wanted, wanted_of_tier, within, zero, LodTier, TierSweep,
};
use vstd::prelude::*;

verus! {

/// Around where each tier was swept, how far, and how radii were squared.
pub ghost struct Survey {
    pub origins: Seq<IVec3>,
    pub reaches: Seq<int>,
    pub square: spec_fn(Real64) -> Real64,
}

impl Survey {
    /// Squaring keeps the order of what is not negative, and zero.
    pub open spec fn is_monotone(&self) -> bool {
        &&& (self.square)(zero()) == zero()
        &&& forall|a: Real64, b: Real64|
            zero().less_or_equal(a) && a.less_or_equal(b) ==> #[trigger] (self.square)(a).less_or_equal(
                #[trigger] (self.square)(b),
            )
    }
}

/// `sweep` holds a measure of every brick within reach, and no other.
pub open spec fn measures_all(sweep: TierSweep, origin: IVec3, reach: int) -> bool {
    &&& forall|c: IVec3|
        within(origin, reach, c) ==> exists|a: int|
            0 <= a < sweep.cells@.len() && (#[trigger] sweep.cells@[a]).coord == c
    &&& forall|a: int|
        0 <= a < sweep.cells@.len() ==> within(origin, reach, (#[trigger] sweep.cells@[a]).coord)
}

/// Tier `i` was swept as `sweep`: between the squares of the radii that the
/// horizon leaves it, over every brick within reach.
pub open spec fn is_tier_sweep(
    tiers: Seq<LodTier>,
    i: int,
    horizon: Real64,
    mask_finer: bool,
    survey: Survey,
    sweep: TierSweep,
) -> bool {
    &&& sweep.lod == tiers[i].lod
    &&& limits(tiers, i, horizon, mask_finer) is Some
    &&& sweep.inner_sq == (survey.square)((limits(tiers, i, horizon, mask_finer)->0).0)
    &&& sweep.outer_sq == (survey.square)((limits(tiers, i, horizon, mask_finer)->0).1)
    &&& measures_all(sweep, survey.origins[i], survey.reaches[i])
}

/// Every tier of a ladder was swept, each with room below the horizon.
pub open spec fn is_survey(
    tiers: Seq<LodTier>,
    horizon: Real64,
    mask_finer: bool,
    survey: Survey,
    sweeps: Seq<TierSweep>,
) -> bool {
    &&& is_ladder(tiers)
    &&& survey.is_monotone()
    &&& sweeps.len() == tiers.len()
    &&& forall|i: int|
        0 <= i < tiers.len() ==> is_tier_sweep(tiers, i, horizon, mask_finer, survey, #[trigger] sweeps[i])
}

proof fn lemma_wanted_cell(sweep: TierSweep, n: int, a: int) -> (k: int)
    requires
        0 <= a < n <= sweep.cells@.len(),
        in_band(sweep.cells@[a], sweep.inner_sq, sweep.outer_sq),
    ensures
        0 <= k < wanted_of_tier(sweep, n).len(),
        wanted_of_tier(sweep, n)[k].coord == sweep.cells@[a].coord,
        wanted_of_tier(sweep, n)[k].lod == sweep.lod,
    decreases n,
{
    if a == n - 1 {
        wanted_of_tier(sweep, n - 1).len() as int
    } else {
        lemma_wanted_cell(sweep, n - 1, a)
    }
}

proof fn lemma_cell_wanted(sweep: TierSweep, n: int, k: int) -> (a: int)
    requires
        0 <= n <= sweep.cells@.len(),
        0 <= k < wanted_of_tier(sweep, n).len(),
    ensures
        0 <= a < n,
        in_band(sweep.cells@[a], sweep.inner_sq, sweep.outer_sq),
        wanted_of_tier(sweep, n)[k].coord == sweep.cells@[a].coord,
        wanted_of_tier(sweep, n)[k].lod == sweep.lod,
    decreases n,
{
    if k < wanted_of_tier(sweep, n - 1).len() {
        lemma_cell_wanted(sweep, n - 1, k)
    } else {
        n - 1
    }
}

proof fn lemma_wanted_in_tier(sweeps: Seq<TierSweep>, n: int, t: int, a: int) -> (k: int)
    requires
        0 <= t < n <= sweeps.len(),
        0 <= a < sweeps[t].cells@.len(),
        in_band(sweeps[t].cells@[a], sweeps[t].inner_sq, sweeps[t].outer_sq),
    ensures
        0 <= k < wanted(sweeps, n).len(),
        wanted(sweeps, n)[k].coord == sweeps[t].cells@[a].coord,
        wanted(sweeps, n)[k].lod == sweeps[t].lod,
    decreases n,
{
    let front = wanted(sweeps, n - 1);
    if t == n - 1 {
        let k = lemma_wanted_cell(sweeps[t], sweeps[t].cells@.len() as int, a);
        front.len() + k
    } else {
        lemma_wanted_in_tier(sweeps, n - 1, t, a)
    }
}

proof fn lemma_source(sweeps: Seq<TierSweep>, n: int, k: int) -> (at: (int, int))
    requires
        0 <= n <= sweeps.len(),
        0 <= k < wanted(sweeps, n).len(),
    ensures
        0 <= at.0 < n,
        0 <= at.1 < sweeps[at.0].cells@.len(),
        in_band(sweeps[at.0].cells@[at.1], sweeps[at.0].inner_sq, sweeps[at.0].outer_sq),
        wanted(sweeps, n)[k].coord == sweeps[at.0].cells@[at.1].coord,
        wanted(sweeps, n)[k].lod == sweeps[at.0].lod,
    decreases n,
{
    let front = wanted(sweeps, n - 1);
    if k < front.len() {
        lemma_source(sweeps, n - 1, k)
    } else {
        let a = lemma_cell_wanted(
            sweeps[n - 1],
            sweeps[n - 1].cells@.len() as int,
            k - front.len(),
        );
        (n - 1, a)
    }
}

/// A measured brick in its tier's band is in the plan.
pub proof fn a_brick_in_its_band_is_planned(
    sweeps: Seq<TierSweep>,
    plan: Seq<(IVec3, Lod)>,
    t: int,
    a: int,
)
    requires
        is_plan(wanted(sweeps, sweeps.len() as int), plan),
        0 <= t < sweeps.len(),
        0 <= a < sweeps[t].cells@.len(),
        in_band(sweeps[t].cells@[a], sweeps[t].inner_sq, sweeps[t].outer_sq),
    ensures
        plan.contains((sweeps[t].cells@[a].coord, sweeps[t].lod)),
{
    let w = wanted(sweeps, sweeps.len() as int);
    let k = lemma_wanted_in_tier(sweeps, sweeps.len() as int, t, a);
    let order = choose|order: Seq<usize>| #[trigger]
        is_stable_order(ranks_of(w), order) && plan == Seq::new(
            order.len(),
            |i: int| (w[order[i] as int].coord, w[order[i] as int].lod),
        );
    let i = lemma_order_has(ranks_of(w), order, k);
    assert(plan[i] == (w[k].coord, w[k].lod));
}

/// Every brick of the plan is a measured brick in its tier's band.
pub proof fn a_planned_brick_is_in_its_band(
    sweeps: Seq<TierSweep>,
    plan: Seq<(IVec3, Lod)>,
    key: (IVec3, Lod),
) -> (at: (int, int))
    requires
        is_plan(wanted(sweeps, sweeps.len() as int), plan),
        plan.contains(key),
    ensures
        0 <= at.0 < sweeps.len(),
        0 <= at.1 < sweeps[at.0].cells@.len(),
        key == (sweeps[at.0].cells@[at.1].coord, sweeps[at.0].lod),
        in_band(sweeps[at.0].cells@[at.1], sweeps[at.0].inner_sq, sweeps[at.0].outer_sq),
{
    let w = wanted(sweeps, sweeps.len() as int);
    let order = choose|order: Seq<usize>| #[trigger]
        is_stable_order(ranks_of(w), order) && plan == Seq::new(
            order.len(),
            |i: int| (w[order[i] as int].coord, w[order[i] as int].lod),
        );
    let i = plan.index_of(key);
    assert((order[i] as int) < ranks_of(w).len());
    lemma_source(sweeps, sweeps.len() as int, order[i] as int)
}

/// Every distance below the outermost radius lies in some tier's band.
pub proof fn every_distance_has_a_band(tiers: Seq<LodTier>, d: Real64) -> (i: int)
    requires
        is_ladder(tiers),
        tiers.len() > 0,
        zero().less_or_equal(d),
        d.less(tiers.last().outer_radius_m),
    ensures
        0 <= i < tiers.len(),
        band(tiers, i).0.less_or_equal(d),
        d.less(band(tiers, i).1),
{
    lemma_band_below(tiers, d, tiers.len() - 1)
}

proof fn lemma_band_below(tiers: Seq<LodTier>, d: Real64, j: int) -> (i: int)
    requires
        is_ladder(tiers),
        0 <= j < tiers.len(),
        zero().less_or_equal(d),
        d.less(tiers[j].outer_radius_m),
    ensures
        0 <= i <= j,
        band(tiers, i).0.less_or_equal(d),
        d.less(band(tiers, i).1),
    decreases j,
{
    if j == 0 {
        0
    } else if d.less(tiers[j - 1].outer_radius_m) {
        lemma_band_below(tiers, d, j - 1)
    } else {
        assert(!tiers[j - 1].outer_radius_m.is_nan());
        j
    }
}

/// The point at distance `d` whose brick in the grid of each level is
/// `brick_at` was measured: its bricks are within reach, their measures enclose
/// its distance, and the squares tell it from the radii beyond it.
pub open spec fn is_measured_point(
    tiers: Seq<LodTier>,
    horizon: Real64,
    mask_finer: bool,
    survey: Survey,
    sweeps: Seq<TierSweep>,
    d: Real64,
    brick_at: spec_fn(Lod) -> IVec3,
) -> bool {
    forall|i: int|
        #![trigger sweeps[i]]
        0 <= i < tiers.len() && d.less((limits(tiers, i, horizon, mask_finer)->0).1) ==> {
            &&& (survey.square)(d).less(sweeps[i].outer_sq)
            &&& within(survey.origins[i], survey.reaches[i], brick_at(tiers[i].lod))
            &&& forall|a: int|
                0 <= a < sweeps[i].cells@.len() && (#[trigger] sweeps[i].cells@[a]).coord == brick_at(
                    tiers[i].lod,
                ) ==> sweeps[i].cells@[a].near_sq.less_or_equal((survey.square)(d)) && (survey.square)(
                    d,
                ).less_or_equal(sweeps[i].cells@[a].far_sq)
        }
}

/// No gaps: the brick around a point below the outermost radius and the
/// horizon, in the grid of the level that the ladder gives its distance, is in
/// the plan, masked or nested.
pub proof fn no_gaps_at_tier_boundaries(
    tiers: Seq<LodTier>,
    horizon: Real64,
    mask_finer: bool,
    survey: Survey,
    sweeps: Seq<TierSweep>,
    plan: Seq<(IVec3, Lod)>,
    d: Real64,
    brick_at: spec_fn(Lod) -> IVec3,
)
    requires
        is_survey(tiers, horizon, mask_finer, survey, sweeps),
        is_plan(wanted(sweeps, sweeps.len() as int), plan),
        tiers.len() > 0,
        zero().less_or_equal(d),
        d.less(tiers.last().outer_radius_m),
        d.less(horizon),
        is_measured_point(tiers, horizon, mask_finer, survey, sweeps, d, brick_at),
    ensures
        plan.contains((brick_at(lod_at(tiers, d)), lod_at(tiers, d))),
{
    let i = every_distance_has_a_band(tiers, d);
    lod_is_that_of_the_band(tiers, i, d);
    let sweep = sweeps[i];
    assert(is_tier_sweep(tiers, i, horizon, mask_finer, survey, sweep));
    let l = limits(tiers, i, horizon, mask_finer)->0;
    assert(d.less(l.1));
    let c = brick_at(tiers[i].lod);
    assert(within(survey.origins[i], survey.reaches[i], c));
    let a = choose|a: int| 0 <= a < sweep.cells@.len() && (#[trigger] sweep.cells@[a]).coord == c;
    assert(zero().less_or_equal(l.0) && l.0.less_or_equal(d)) by {
        if i > 0 {
            assert(tiers[i - 1].outer_radius_m.rank() > 0);
        }
        assert(tiers[i].outer_radius_m.rank() > 0);
    }
    assert((survey.square)(l.0).less_or_equal((survey.square)(d)));
    a_brick_around_a_point_in_the_band_is_loaded(
        sweep.cells@[a],
        (survey.square)(d),
        sweep.inner_sq,
        sweep.outer_sq,
    );
    a_brick_in_its_band_is_planned(sweeps, plan, i, a);
}

/// The measures of a brick and of its parent fit together: the parent was swept
/// and reaches at least as near.
pub open spec fn parents_are_measured(survey: Survey, sweeps: Seq<TierSweep>, i: int) -> bool {
    &&& forall|a: int|
        0 <= a < sweeps[i].cells@.len() && in_band(
            #[trigger] sweeps[i].cells@[a],
            sweeps[i].inner_sq,
            sweeps[i].outer_sq,
        ) ==> within(
            survey.origins[i + 1],
            survey.reaches[i + 1],
            parent_of((sweeps[i].cells@[a].coord, sweeps[i].lod.depth)).0,
        )
    &&& forall|a: int, b: int|
        0 <= a < sweeps[i].cells@.len() && 0 <= b < sweeps[i + 1].cells@.len() && sweeps[i + 1].cells@[b].coord
            == parent_of((sweeps[i].cells@[a].coord, sweeps[i].lod.depth)).0 ==> (
        #[trigger] sweeps[i + 1].cells@[b]).near_sq.less_or_equal((#[trigger] sweeps[i].cells@[a]).near_sq)
            && zero().less_or_equal(sweeps[i + 1].cells@[b].far_sq)
}

/// Every brick of a nested plan has its parent in the plan, up to the outermost
/// tier.
pub proof fn every_nested_brick_has_its_parent(
    tiers: Seq<LodTier>,
    horizon: Real64,
    survey: Survey,
    sweeps: Seq<TierSweep>,
    plan: Seq<(IVec3, Lod)>,
    key: (IVec3, Lod),
)
    requires
        is_survey(tiers, horizon, false, survey, sweeps),
        is_plan(wanted(sweeps, sweeps.len() as int), plan),
        forall|i: int|
            0 <= i < tiers.len() - 1 ==> (#[trigger] tiers[i]).lod.depth + 1 == tiers[i + 1].lod.depth,
        forall|i: int| 0 <= i < tiers.len() - 1 ==> #[trigger] parents_are_measured(survey, sweeps, i),
        plan.contains(key),
        key.1.depth < tiers.last().lod.depth,
    ensures
        plan.contains(
            (parent_of((key.0, key.1.depth)).0, (Lod { depth: parent_of((key.0, key.1.depth)).1 })),
        ),
{
    let at = a_planned_brick_is_in_its_band(sweeps, plan, key);
    let i = at.0;
    let a = at.1;
    assert(is_tier_sweep(tiers, i, horizon, false, survey, sweeps[i]));
    assert(key.1 == tiers[i].lod);
    assert(i < tiers.len() - 1);
    assert(tiers[i].lod.depth + 1 == tiers[i + 1].lod.depth);
    assert(parents_are_measured(survey, sweeps, i));
    assert(is_tier_sweep(tiers, i + 1, horizon, false, survey, sweeps[i + 1]));
    let p = parent_of((key.0, key.1.depth));
    let up = sweeps[i + 1];
    let child = sweeps[i].cells@[a];
    assert(within(survey.origins[i + 1], survey.reaches[i + 1], p.0));
    let b = choose|b: int| 0 <= b < up.cells@.len() && (#[trigger] up.cells@[b]).coord == p.0;
    let lo = (limits(tiers, i, horizon, false)->0).1;
    let hi = (limits(tiers, i + 1, horizon, false)->0).1;
    assert(zero().less_or_equal(lo) && lo.less_or_equal(hi)) by {
        assert(tiers[i].outer_radius_m.less(tiers[i + 1].outer_radius_m));
        assert(tiers[i].outer_radius_m.rank() > 0);
    }
    assert((survey.square)(lo).less_or_equal((survey.square)(hi)));
    nested_parent_is_loaded(child, up.cells@[b], sweeps[i].outer_sq, up.outer_sq);
    a_brick_in_its_band_is_planned(sweeps, plan, i + 1, b);
    assert(Lod { depth: p.1 } == up.lod);
}

/// Every brick of a masked plan is in the nested plan of the same measures.
pub proof fn a_masked_plan_is_part_of_the_nested_one(
    tiers: Seq<LodTier>,
    horizon: Real64,
    survey: Survey,
    masked: Seq<TierSweep>,
    masked_plan: Seq<(IVec3, Lod)>,
    nested: Seq<TierSweep>,
    nested_plan: Seq<(IVec3, Lod)>,
    key: (IVec3, Lod),
)
    requires
        is_survey(tiers, horizon, true, survey, masked),
        is_survey(tiers, horizon, false, survey, nested),
        forall|i: int| 0 <= i < tiers.len() ==> (#[trigger] masked[i]).cells@ == nested[i].cells@,
        is_plan(wanted(masked, masked.len() as int), masked_plan),
        is_plan(wanted(nested, nested.len() as int), nested_plan),
        masked_plan.contains(key),
    ensures
        nested_plan.contains(key),
{
    let at = a_planned_brick_is_in_its_band(masked, masked_plan, key);
    let i = at.0;
    assert(is_tier_sweep(tiers, i, horizon, true, survey, masked[i]));
    assert(is_tier_sweep(tiers, i, horizon, false, survey, nested[i]));
    let inner = (limits(tiers, i, horizon, true)->0).0;
    assert(zero().less_or_equal(inner)) by {
        if i > 0 {
            assert(tiers[i - 1].outer_radius_m.rank() > 0);
        }
        assert(tiers[i].outer_radius_m.rank() > 0);
    }
    assert((survey.square)(zero()).less_or_equal((survey.square)(inner)));
    assert(in_band(nested[i].cells@[at.1], nested[i].inner_sq, nested[i].outer_sq));
    a_brick_in_its_band_is_planned(nested, nested_plan, i, at.1);
}

} // verus!
