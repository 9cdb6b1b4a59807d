//! Which bricks are loaded around the observer, and which should be.
//!
//! A ladder of tiers gives each distance a level of detail. The streamer lists
//! the bricks that should be loaded, closest first, and keeps a registry of
//! those that are. Distances are measured outside and compared here.

use crate::coord::{covers, parent_is_the_cover, parent_key, parent_of, ChunkKey, IVec3, Lod};
use crate::key_map::{Change, KeyMap};
use crate::measure::Real64;
use crate::order::{
    goes_before, is_stable_order, lemma_order_has, stable_order, stable_order_is_a_permutation,
};
use crate::render::raymarch::RaymarchShadingTier;
use crate::ticket::{a_ticket_does_not_come_again, goes_on, next_ticket, ticket_after};
use crate::voxel::{cell_index, in_brick, Brick, Voxel};
use vstd::prelude::*;

verus! {

/// Bricks fetched per tick.
pub const DEFAULT_BRICKS_PER_TICK: u32 = 128;

/// Ticks that a chunk stays loaded after it is no longer desired.
pub const HYSTERESIS_TICKS: u64 = 2;

/// Drift of the observer beyond which the plan is rebuilt: 4 meters.
pub const PLAN_REBUILD_DRIFT_M: u64 = 0x4010_0000_0000_0000;

/// Cosine of the turn beyond which the plan is rebuilt: 0.9659, about 15
/// degrees.
pub const PLAN_REBUILD_FWD_COS: u64 = 0x3fee_e8a7_1de6_9ad4;

/// The bits of 128 meters.
pub const METERS_128: u64 = 0x4060_0000_0000_0000;

/// The bits of 256 meters.
pub const METERS_256: u64 = 0x4070_0000_0000_0000;

/// The bits of 512 meters.
pub const METERS_512: u64 = 0x4080_0000_0000_0000;

/// The bits of 1024 meters.
pub const METERS_1024: u64 = 0x4090_0000_0000_0000;

/// One rung of the ladder: the level of detail of bricks out to a radius.
#[derive(Clone, Copy, Debug, PartialEq, Eq, Structural)]
pub struct LodTier {
    pub lod: Lod,
    pub outer_radius_m: Real64,
}

/// Tiers from the innermost to the outermost.
#[derive(Clone, Debug)]
pub struct LodLadder {
    pub tiers: Vec<LodTier>,
    pub bricks_per_tick: u32,
}

/// The ladder reduced to its first and last tier.
#[derive(Clone, Copy, Debug, PartialEq, Eq, Structural)]
pub struct StreamingPolicy {
    pub near_lod: Lod,
    pub far_lod: Lod,
    pub transition_radius_m: Real64,
    pub max_radius_m: Real64,
    pub bricks_per_tick: u32,
}

/// Tiers reach farther and get coarser from one to the next.
pub open spec fn is_ladder(tiers: Seq<LodTier>) -> bool {
    &&& forall|i: int, j: int|
        0 <= i < j < tiers.len() ==> (#[trigger] tiers[i]).outer_radius_m.less(
            (#[trigger] tiers[j]).outer_radius_m,
        ) && tiers[i].lod.depth <= tiers[j].lod.depth
    &&& forall|i: int|
        0 <= i < tiers.len() ==> !(#[trigger] tiers[i]).outer_radius_m.is_nan()
            && tiers[i].outer_radius_m.rank() > 0
}

pub open spec fn zero() -> Real64 {
    Real64 { bits: 0 }
}

/// Where tier `i` begins and ends.
pub open spec fn band(tiers: Seq<LodTier>, i: int) -> (Real64, Real64) {
    if i < 0 || i >= tiers.len() {
        (zero(), zero())
    } else {
        (
            if i == 0 {
                zero()
            } else {
                tiers[i - 1].outer_radius_m
            },
            tiers[i].outer_radius_m,
        )
    }
}

/// The level of detail at a distance: that of the first tier that reaches
/// beyond it, or of the last one.
pub open spec fn lod_at(tiers: Seq<LodTier>, d: Real64) -> Lod
    decreases tiers.len(),
{
    if tiers.len() == 0 {
        Lod { depth: 0 }
    } else if d.less(tiers[0].outer_radius_m) || tiers.len() == 1 {
        tiers[0].lod
    } else {
        lod_at(tiers.drop_first(), d)
    }
}

/// The policy of a ladder.
pub open spec fn policy_of(tiers: Seq<LodTier>, bricks_per_tick: u32) -> StreamingPolicy {
    if tiers.len() == 0 {
        StreamingPolicy {
            near_lod: Lod { depth: 0 },
            far_lod: Lod { depth: 0 },
            transition_radius_m: zero(),
            max_radius_m: zero(),
            bricks_per_tick,
        }
    } else {
        StreamingPolicy {
            near_lod: tiers[0].lod,
            far_lod: tiers.last().lod,
            transition_radius_m: tiers[0].outer_radius_m,
            max_radius_m: tiers.last().outer_radius_m,
            bricks_per_tick,
        }
    }
}

/// The four tiers of the default ladder.
pub open spec fn progressive_tiers() -> Seq<LodTier> {
    seq![
        LodTier { lod: Lod { depth: 0 }, outer_radius_m: Real64 { bits: METERS_128 } },
        LodTier { lod: Lod { depth: 1 }, outer_radius_m: Real64 { bits: METERS_256 } },
        LodTier { lod: Lod { depth: 2 }, outer_radius_m: Real64 { bits: METERS_512 } },
        LodTier { lod: Lod { depth: 3 }, outer_radius_m: Real64 { bits: METERS_1024 } },
    ]
}

impl LodLadder {
    /// Four tiers, out to 128, 256, 512 and 1024 meters, of levels 0 to 3.
    pub fn default_progressive() -> (r: Self)
        ensures
            r.tiers@ == progressive_tiers(),
            is_ladder(r.tiers@),
            r.bricks_per_tick == DEFAULT_BRICKS_PER_TICK,
            r.tiers@.len() == 4,
            forall|i: int| 0 <= i < 4 ==> (#[trigger] r.tiers@[i]).lod.depth == i,
            r.tiers@[0].outer_radius_m.bits == 0x4060_0000_0000_0000,
            r.tiers@[1].outer_radius_m.bits == 0x4070_0000_0000_0000,
            r.tiers@[2].outer_radius_m.bits == 0x4080_0000_0000_0000,
            r.tiers@[3].outer_radius_m.bits == 0x4090_0000_0000_0000,
    {
        let tiers: Vec<LodTier> = vec![
            LodTier { lod: Lod { depth: 0 }, outer_radius_m: Real64 { bits: METERS_128 } },
            LodTier { lod: Lod { depth: 1 }, outer_radius_m: Real64 { bits: METERS_256 } },
            LodTier { lod: Lod { depth: 2 }, outer_radius_m: Real64 { bits: METERS_512 } },
            LodTier { lod: Lod { depth: 3 }, outer_radius_m: Real64 { bits: METERS_1024 } },
        ];
        proof {
            assert(tiers@ =~= progressive_tiers());
        }
        LodLadder { tiers, bricks_per_tick: DEFAULT_BRICKS_PER_TICK }
    }

    /// The outermost radius.
    pub fn outer_radius_m(&self) -> (r: Real64)
        ensures
            r == (if self.tiers@.len() == 0 {
                zero()
            } else {
                self.tiers@.last().outer_radius_m
            }),
    {
        if self.tiers.len() == 0 {
            Real64 { bits: 0 }
        } else {
            self.tiers[self.tiers.len() - 1].outer_radius_m
        }
    }

    /// The innermost radius.
    pub fn inner_radius_m(&self) -> (r: Real64)
        ensures
            r == (if self.tiers@.len() == 0 {
                zero()
            } else {
                self.tiers@[0].outer_radius_m
            }),
    {
        if self.tiers.len() == 0 {
            Real64 { bits: 0 }
        } else {
            self.tiers[0].outer_radius_m
        }
    }

    /// Where tier `i` begins and ends; both are 0 for a tier that is not there.
    pub fn tier_band_m(&self, i: usize) -> (r: (Real64, Real64))
        ensures
            r == band(self.tiers@, i as int),
            i >= self.tiers@.len() ==> r.0.bits == 0 && r.1.bits == 0,
            i < self.tiers@.len() ==> r.1 == self.tiers@[i as int].outer_radius_m,
            0 == i < self.tiers@.len() ==> r.0.bits == 0,
            0 < i < self.tiers@.len() ==> r.0 == self.tiers@[i - 1].outer_radius_m,
    {
        if i >= self.tiers.len() {
            return (Real64 { bits: 0 }, Real64 { bits: 0 });
        }
        let inner: Real64 = if i == 0 {
            Real64 { bits: 0 }
        } else {
            self.tiers[i - 1].outer_radius_m
        };
        (inner, self.tiers[i].outer_radius_m)
    }

    /// The level of detail at distance `d_m`. A distance on the edge of two
    /// tiers belongs to the outer one; beyond the last tier its level goes on.
    pub fn lod_for_distance(&self, d_m: Real64) -> (r: Lod)
        ensures
            r == lod_at(self.tiers@, d_m),
            self.tiers@.len() == 0 ==> r.depth == 0,
            self.tiers@.len() > 0 ==> exists|i: int|
                0 <= i < self.tiers@.len() && r == (#[trigger] self.tiers@[i]).lod && (i + 1 == self.tiers@.len()
                    || d_m.less(self.tiers@[i].outer_radius_m)) && forall|j: int|
                    0 <= j < i ==> !d_m.less((#[trigger] self.tiers@[j]).outer_radius_m),
    {
        if self.tiers.len() == 0 {
            return Lod { depth: 0 };
        }
        let mut i: usize = 0;
        proof {
            assert(self.tiers@.skip(0) =~= self.tiers@);
        }
        while i < self.tiers.len() - 1
            invariant
                self.tiers@.len() > 0,
                i <= self.tiers@.len() - 1,
                forall|j: int| 0 <= j < i ==> !d_m.less((#[trigger] self.tiers@[j]).outer_radius_m),
                lod_at(self.tiers@, d_m) == lod_at(self.tiers@.skip(i as int), d_m),
            decreases self.tiers@.len() - i,
        {
            proof {
                assert(self.tiers@.skip(i as int)[0] == self.tiers@[i as int]);
                assert(self.tiers@.skip(i as int).drop_first() =~= self.tiers@.skip(i + 1));
            }
            if d_m.lt(self.tiers[i].outer_radius_m) {
                return self.tiers[i].lod;
            }
            i += 1;
        }
        self.tiers[i].lod
    }

    /// The ladder as a policy of two tiers.
    pub fn as_policy(&self) -> (r: StreamingPolicy)
        ensures
            r == policy_of(self.tiers@, self.bricks_per_tick),
            r.bricks_per_tick == self.bricks_per_tick,
            self.tiers@.len() > 0 ==> r.near_lod == self.tiers@[0].lod && r.transition_radius_m
                == self.tiers@[0].outer_radius_m && r.far_lod == self.tiers@[self.tiers@.len() - 1].lod
                && r.max_radius_m == self.tiers@[self.tiers@.len() - 1].outer_radius_m,
            self.tiers@.len() == 0 ==> r.near_lod.depth == 0 && r.far_lod.depth == 0 && r.transition_radius_m.bits
                == 0 && r.max_radius_m.bits == 0,
    {
        if self.tiers.len() == 0 {
            return StreamingPolicy {
                near_lod: Lod { depth: 0 },
                far_lod: Lod { depth: 0 },
                transition_radius_m: Real64 { bits: 0 },
                max_radius_m: Real64 { bits: 0 },
                bricks_per_tick: self.bricks_per_tick,
            };
        }
        let near: LodTier = self.tiers[0];
        let far: LodTier = self.tiers[self.tiers.len() - 1];
        StreamingPolicy {
            near_lod: near.lod,
            far_lod: far.lod,
            transition_radius_m: near.outer_radius_m,
            max_radius_m: far.outer_radius_m,
            bricks_per_tick: self.bricks_per_tick,
        }
    }
}

impl Default for LodLadder {
    fn default() -> (r: Self)
        ensures
            r.tiers@ == progressive_tiers(),
            r.bricks_per_tick == DEFAULT_BRICKS_PER_TICK,
    {
        Self::default_progressive()
    }
}

/// The bands of a ladder follow one another without gap or overlap.
pub proof fn bands_tile(tiers: Seq<LodTier>, i: int)
    requires
        0 <= i,
        i + 1 < tiers.len(),
    ensures
        band(tiers, 0).0 == zero(),
        band(tiers, i).1 == band(tiers, i + 1).0,
{
}

/// A distance inside a tier's band gets that tier's level of detail.
pub proof fn lod_is_that_of_the_band(tiers: Seq<LodTier>, i: int, d: Real64)
    requires
        is_ladder(tiers),
        0 <= i < tiers.len(),
        band(tiers, i).0.less_or_equal(d),
        d.less(band(tiers, i).1),
    ensures
        lod_at(tiers, d) == tiers[i].lod,
    decreases tiers.len(),
{
    if i > 0 {
        assert(!d.less(tiers[0].outer_radius_m)) by {
            if i > 1 {
                assert(tiers[0].outer_radius_m.less(tiers[i - 1].outer_radius_m));
            }
        }
        let rest = tiers.drop_first();
        assert(is_ladder(rest)) by {
            assert forall|a: int, b: int| 0 <= a < b < rest.len() implies (
            #[trigger] rest[a]).outer_radius_m.less((#[trigger] rest[b]).outer_radius_m)
                && rest[a].lod.depth <= rest[b].lod.depth by {
                assert(rest[a] == tiers[a + 1]);
                assert(rest[b] == tiers[b + 1]);
            }
            assert forall|a: int| 0 <= a < rest.len() implies !(
            #[trigger] rest[a]).outer_radius_m.is_nan() && rest[a].outer_radius_m.rank() > 0 by {
                assert(rest[a] == tiers[a + 1]);
            }
        }
        assert(rest[i - 1] == tiers[i]);
        if i == 1 {
            assert(tiers[0].outer_radius_m.rank() > 0);
            assert(zero().less_or_equal(d));
        }
        lod_is_that_of_the_band(rest, i - 1, d);
    }
}

/// Beyond the last tier its level of detail goes on.
pub proof fn lod_clamps_to_the_last_tier(tiers: Seq<LodTier>, d: Real64)
    requires
        tiers.len() > 0,
        forall|i: int| 0 <= i < tiers.len() ==> !d.less((#[trigger] tiers[i]).outer_radius_m),
    ensures
        lod_at(tiers, d) == tiers.last().lod,
    decreases tiers.len(),
{
    if tiers.len() > 1 {
        assert(!d.less(tiers[0].outer_radius_m));
        let rest = tiers.drop_first();
        assert forall|i: int| 0 <= i < rest.len() implies !d.less((#[trigger] rest[i]).outer_radius_m) by {
            assert(rest[i] == tiers[i + 1]);
        }
        lod_clamps_to_the_last_tier(rest, d);
    }
}

/// The streamer: its ladder, the ladder's policy, and the frame counter.
#[derive(Clone, Debug)]
pub struct ChunkStreamer {
    pub ladder: LodLadder,
    pub policy: StreamingPolicy,
    pub frame: u64,
    pub hysteresis_ticks: u64,
}

impl Default for ChunkStreamer {
    fn default() -> (r: Self)
        ensures
            r.ladder.tiers@ == progressive_tiers(),
            r.ladder.bricks_per_tick == DEFAULT_BRICKS_PER_TICK,
            r.wf(),
            r.frame == 0,
            r.hysteresis_ticks == HYSTERESIS_TICKS,
    {
        Self::with_ladder(LodLadder::default_progressive())
    }
}

impl ChunkStreamer {
    /// The policy is that of the ladder.
    pub open spec fn wf(&self) -> bool {
        self.policy == policy_of(self.ladder.tiers@, self.ladder.bricks_per_tick)
    }

    pub fn with_ladder(ladder: LodLadder) -> (r: Self)
        ensures
            r.wf(),
            r.ladder == ladder,
            r.frame == 0,
            r.hysteresis_ticks == HYSTERESIS_TICKS,
    {
        let policy: StreamingPolicy = ladder.as_policy();
        ChunkStreamer { ladder, policy, frame: 0, hysteresis_ticks: HYSTERESIS_TICKS }
    }

    /// Replaces the ladder, and the policy with it.
    pub fn set_ladder(&mut self, ladder: LodLadder)
        ensures
            final(self).wf(),
            final(self).ladder == ladder,
            final(self).frame == old(self).frame,
            final(self).hysteresis_ticks == old(self).hysteresis_ticks,
    {
        self.policy = ladder.as_policy();
        self.ladder = ladder;
    }

    /// The level of detail of a sample at a distance from the observer.
    pub fn lod_for_meters(&self, distance: Real64) -> (r: Lod)
        ensures
            r == lod_at(self.ladder.tiers@, distance),
    {
        self.ladder.lod_for_distance(distance)
    }

    /// Starts the next frame.
    pub fn tick_frame(&mut self)
        ensures
            final(self).frame == (if old(self).frame == u64::MAX {
                u64::MAX
            } else {
                (old(self).frame + 1) as u64
            }),
            final(self).ladder == old(self).ladder,
            final(self).policy == old(self).policy,
            final(self).hysteresis_ticks == old(self).hysteresis_ticks,
    {
        self.frame = self.frame.saturating_add(1);
    }

    /// The load horizon.
    pub fn outer_radius_m(&self) -> (r: Real64)
        ensures
            r == (if self.ladder.tiers@.len() == 0 {
                zero()
            } else {
                self.ladder.tiers@.last().outer_radius_m
            }),
    {
        self.ladder.outer_radius_m()
    }
}

/// A loaded chunk.
#[derive(Debug)]
pub struct LoadedChunk {
    pub coord: IVec3,
    pub lod: Lod,
    /// The entity that shows it; an empty brick has none.
    pub entity: Option<u64>,
    /// The last frame in which it was desired.
    pub last_seen_frame: u64,
    /// It is on its way out and no longer covers its region.
    pub is_fading_out: bool,
    /// Digest and tier of its shared GPU buffers, where it is ray-marched.
    pub dag_digest: Option<u64>,
    pub dag_tier: Option<RaymarchShadingTier>,
    /// Its voxels, at the finest level only.
    pub brick: Option<Brick>,
}

impl LoadedChunk {
    pub fn key(coord: IVec3, lod: Lod) -> (r: (IVec3, u8))
        ensures
            r == (coord, lod.depth),
    {
        (coord, lod.depth)
    }
}

/// The loaded chunks that count toward covering the brick `parent`: its
/// children that are not fading out.
pub open spec fn live_children(chunks: Map<ChunkKey, LoadedChunk>, parent: ChunkKey) -> Set<ChunkKey> {
    chunks.dom().filter(|k: ChunkKey| !chunks[k].is_fading_out && parent_of(k) == parent)
}

/// The eight bricks that `parent` covers.
pub open spec fn octants(parent: ChunkKey) -> Set<ChunkKey> {
    Set::new(|k: ChunkKey| k.1 < 255 && covers(parent, k))
}

/// Registry of loaded chunks. Beside the chunks it keeps, for every brick, how
/// many of its children are loaded and not fading out.
pub struct LoadedChunks {
    inner: KeyMap<LoadedChunk>,
    child_counts: KeyMap<u32>,
}

struct Touch {
    frame: u64,
}

impl Change<LoadedChunk> for Touch {
    closed spec fn allows(&self, value: LoadedChunk) -> bool {
        true
    }

    closed spec fn changes(&self, before: LoadedChunk, after: LoadedChunk) -> bool {
        after == (LoadedChunk { last_seen_frame: self.frame, ..before })
    }

    fn apply(&self, value: &mut LoadedChunk) {
        value.last_seen_frame = self.frame;
    }
}

struct FadeOut {}

impl Change<LoadedChunk> for FadeOut {
    closed spec fn allows(&self, value: LoadedChunk) -> bool {
        true
    }

    closed spec fn changes(&self, before: LoadedChunk, after: LoadedChunk) -> bool {
        after == (LoadedChunk { is_fading_out: true, ..before })
    }

    fn apply(&self, value: &mut LoadedChunk) {
        value.is_fading_out = true;
    }
}

/// Sets the cells of a resident brick that a mask picks to one voxel.
struct Paint {
    mask: Vec<bool>,
    voxel: Voxel,
}

/// The cells with those that `mask` picks set to `voxel`.
pub open spec fn painted(cells: Seq<Voxel>, mask: Seq<bool>, voxel: Voxel) -> Seq<Voxel> {
    Seq::new(
        cells.len(),
        |i: int|
            if mask[i] {
                voxel
            } else {
                cells[i]
            },
    )
}

/// `after` is `before` but for the contents of its resident brick.
pub open spec fn same_but_brick(before: LoadedChunk, after: LoadedChunk) -> bool {
    &&& after.coord == before.coord
    &&& after.lod == before.lod
    &&& after.entity == before.entity
    &&& after.last_seen_frame == before.last_seen_frame
    &&& after.is_fading_out == before.is_fading_out
    &&& after.dag_digest == before.dag_digest
    &&& after.dag_tier == before.dag_tier
    &&& after.brick is Some <==> before.brick is Some
    &&& after.brick is Some ==> after.brick->0.wf()
}

impl Change<LoadedChunk> for Paint {
    closed spec fn allows(&self, value: LoadedChunk) -> bool {
        &&& self.mask@.len() == 4096
        &&& value.brick is Some ==> value.brick->0.wf()
    }

    closed spec fn changes(&self, before: LoadedChunk, after: LoadedChunk) -> bool {
        &&& same_but_brick(before, after)
        &&& after.brick is Some ==> after.brick->0@ == painted(before.brick->0@, self.mask@, self.voxel)
    }

    fn apply(&self, value: &mut LoadedChunk) {
        match value.brick.take() {
            None => {},
            Some(brick) => {
                let mut b: Brick = brick;
                let ghost cells = b@;
                proof {
                    b.lemma_len();
                }
                let mut i: usize = 0;
                while i < 4096
                    invariant
                        i <= 4096,
                        self.mask@.len() == 4096,
                        cells.len() == 4096,
                        b.wf(),
                        b@.len() == 4096,
                        forall|k: int| 0 <= k < i ==> #[trigger] b@[k] == painted(cells, self.mask@, self.voxel)[k],
                        forall|k: int| i <= k < 4096 ==> #[trigger] b@[k] == cells[k],
                    decreases 4096 - i,
                {
                    if self.mask[i] {
                        let p = IVec3 {
                            x: (i % 16) as i64,
                            y: (i / 16 % 16) as i64,
                            z: (i / 256) as i64,
                        };
                        proof {
                            assert(cell_index(p.x as int, p.y as int, p.z as int) == i);
                        }
                        b.set(p, self.voxel);
                    }
                    i += 1;
                }
                proof {
                    assert(b@ =~= painted(cells, self.mask@, self.voxel));
                }
                value.brick = Some(b);
            },
        }
    }
}

struct SetCell {
    cell: IVec3,
    voxel: Voxel,
}

impl Change<LoadedChunk> for SetCell {
    closed spec fn allows(&self, value: LoadedChunk) -> bool {
        &&& in_brick(self.cell)
        &&& value.brick is Some ==> value.brick->0.wf()
    }

    closed spec fn changes(&self, before: LoadedChunk, after: LoadedChunk) -> bool {
        &&& same_but_brick(before, after)
        &&& after.brick is Some ==> after.brick->0@ == before.brick->0@.update(
            cell_index(self.cell.x as int, self.cell.y as int, self.cell.z as int),
            self.voxel,
        )
    }

    fn apply(&self, value: &mut LoadedChunk) {
        match value.brick.take() {
            None => {},
            Some(brick) => {
                let mut b: Brick = brick;
                b.set(self.cell, self.voxel);
                value.brick = Some(b);
            },
        }
    }
}

proof fn lemma_octants(parent: ChunkKey)
    ensures
        octants(parent).finite(),
        octants(parent).len() <= 8,
{
    if parent.1 == 0 {
        assert(octants(parent) =~= Set::empty());
    } else {
        let d = (parent.1 - 1) as u8;
        let x = parent.0.x;
        let y = parent.0.y;
        let z = parent.0.z;
        let s = Set::<ChunkKey>::empty().insert(
            (IVec3 { x: (2 * x) as i64, y: (2 * y) as i64, z: (2 * z) as i64 }, d),
        ).insert((IVec3 { x: (2 * x + 1) as i64, y: (2 * y) as i64, z: (2 * z) as i64 }, d)).insert(
            (IVec3 { x: (2 * x) as i64, y: (2 * y + 1) as i64, z: (2 * z) as i64 }, d),
        ).insert((IVec3 { x: (2 * x + 1) as i64, y: (2 * y + 1) as i64, z: (2 * z) as i64 }, d)).insert(
            (IVec3 { x: (2 * x) as i64, y: (2 * y) as i64, z: (2 * z + 1) as i64 }, d),
        ).insert((IVec3 { x: (2 * x + 1) as i64, y: (2 * y) as i64, z: (2 * z + 1) as i64 }, d)).insert(
            (IVec3 { x: (2 * x) as i64, y: (2 * y + 1) as i64, z: (2 * z + 1) as i64 }, d),
        ).insert((IVec3 { x: (2 * x + 1) as i64, y: (2 * y + 1) as i64, z: (2 * z + 1) as i64 }, d));
        assert(octants(parent).subset_of(s)) by {
            assert forall|k: ChunkKey| octants(parent).contains(k) implies s.contains(k) by {
                assert(k.0.x == 2 * x || k.0.x == 2 * x + 1);
                assert(k.0.y == 2 * y || k.0.y == 2 * y + 1);
                assert(k.0.z == 2 * z || k.0.z == 2 * z + 1);
                assert(k.1 == d);
            }
        }
        vstd::set_lib::lemma_len_subset(octants(parent), s);
    }
}

/// A brick has at most eight live children, and has eight exactly when each of
/// the eight bricks that it covers is loaded and not fading out.
pub proof fn eight_live_children_cover(chunks: Map<ChunkKey, LoadedChunk>, parent: ChunkKey)
    requires
        chunks.dom().finite(),
        forall|k: ChunkKey| #[trigger] chunks.dom().contains(k) ==> k.1 < 255,
        1 <= parent.1,
        i64::MIN <= 2 * parent.0.x && 2 * parent.0.x + 1 <= i64::MAX,
        i64::MIN <= 2 * parent.0.y && 2 * parent.0.y + 1 <= i64::MAX,
        i64::MIN <= 2 * parent.0.z && 2 * parent.0.z + 1 <= i64::MAX,
    ensures
        live_children(chunks, parent).len() <= 8,
        live_children(chunks, parent).len() == 8 <==> (forall|k: ChunkKey| #[trigger]
            octants(parent).contains(k) ==> chunks.dom().contains(k) && !chunks[k].is_fading_out),
{
    let live = live_children(chunks, parent);
    let all = octants(parent);
    lemma_octants(parent);
    lemma_octants_len(parent);
    assert(live.subset_of(all)) by {
        assert forall|k: ChunkKey| live.contains(k) implies all.contains(k) by {
            parent_is_the_cover(parent, k);
        }
    }
    vstd::set_lib::lemma_len_subset(live, all);
    if live.len() == 8 {
        vstd::set_lib::lemma_subset_equality(live, all);
    }
    if forall|k: ChunkKey| #[trigger] all.contains(k) ==> chunks.dom().contains(k) && !chunks[k].is_fading_out {
        assert(live =~= all) by {
            assert forall|k: ChunkKey| all.contains(k) implies live.contains(k) by {
                parent_is_the_cover(parent, k);
            }
        }
    }
}

proof fn lemma_octants_len(parent: ChunkKey)
    requires
        1 <= parent.1,
        i64::MIN <= 2 * parent.0.x && 2 * parent.0.x + 1 <= i64::MAX,
        i64::MIN <= 2 * parent.0.y && 2 * parent.0.y + 1 <= i64::MAX,
        i64::MIN <= 2 * parent.0.z && 2 * parent.0.z + 1 <= i64::MAX,
    ensures
        octants(parent).len() == 8,
{
    let d = (parent.1 - 1) as u8;
    let x = parent.0.x;
    let y = parent.0.y;
    let z = parent.0.z;
    let k0 = (IVec3 { x: (2 * x) as i64, y: (2 * y) as i64, z: (2 * z) as i64 }, d);
    let k1 = (IVec3 { x: (2 * x + 1) as i64, y: (2 * y) as i64, z: (2 * z) as i64 }, d);
    let k2 = (IVec3 { x: (2 * x) as i64, y: (2 * y + 1) as i64, z: (2 * z) as i64 }, d);
    let k3 = (IVec3 { x: (2 * x + 1) as i64, y: (2 * y + 1) as i64, z: (2 * z) as i64 }, d);
    let k4 = (IVec3 { x: (2 * x) as i64, y: (2 * y) as i64, z: (2 * z + 1) as i64 }, d);
    let k5 = (IVec3 { x: (2 * x + 1) as i64, y: (2 * y) as i64, z: (2 * z + 1) as i64 }, d);
    let k6 = (IVec3 { x: (2 * x) as i64, y: (2 * y + 1) as i64, z: (2 * z + 1) as i64 }, d);
    let k7 = (IVec3 { x: (2 * x + 1) as i64, y: (2 * y + 1) as i64, z: (2 * z + 1) as i64 }, d);
    let s = Set::<ChunkKey>::empty().insert(k0).insert(k1).insert(k2).insert(k3).insert(k4).insert(k5).insert(
        k6,
    ).insert(k7);
    assert(octants(parent) =~= s) by {
        assert forall|k: ChunkKey| octants(parent).contains(k) implies s.contains(k) by {
            assert(k.0.x == 2 * x || k.0.x == 2 * x + 1);
            assert(k.0.y == 2 * y || k.0.y == 2 * y + 1);
            assert(k.0.z == 2 * z || k.0.z == 2 * z + 1);
            assert(k.1 == d);
        }
    }
    assert(s.len() == 8);
}

impl View for LoadedChunks {
    type V = Map<ChunkKey, LoadedChunk>;

    closed spec fn view(&self) -> Map<ChunkKey, LoadedChunk> {
        self.inner@
    }
}

impl Default for LoadedChunks {
    fn default() -> (r: Self)
        ensures
            r.wf(),
            r@ == Map::<ChunkKey, LoadedChunk>::empty(),
    {
        let r = LoadedChunks { inner: KeyMap::new(), child_counts: KeyMap::new() };
        proof {
            assert forall|p: ChunkKey| #![trigger live_children(r@, p)]
                live_children(r@, p) =~= Set::<ChunkKey>::empty() by {}
        }
        r
    }
}

impl LoadedChunks {
    /// The counts are those of the chunks; a brick without a live child has no
    /// entry.
    pub closed spec fn wf(&self) -> bool {
        &&& self@.dom().finite()
        &&& forall|k: ChunkKey| #[trigger] self@.dom().contains(k) ==> k.1 < 255
        &&& forall|k: ChunkKey| #[trigger]
            self@.dom().contains(k) && self@[k].brick is Some ==> self@[k].brick->0.wf()
        &&& forall|p: ChunkKey|
            #![trigger live_children(self@, p)]
            (self.child_counts@.dom().contains(p) <==> live_children(self@, p).len() > 0)
        &&& forall|p: ChunkKey| #[trigger]
            self.child_counts@.dom().contains(p) ==> self.child_counts@[p] as nat == live_children(self@, p).len()
    }

    /// Facts about a registry that its users rely on.
    pub proof fn lemma_wf(&self)
        requires
            self.wf(),
        ensures
            self@.dom().finite(),
            forall|k: ChunkKey| #[trigger] self@.dom().contains(k) ==> k.1 < 255,
            forall|k: ChunkKey| #[trigger]
                self@.dom().contains(k) && self@[k].brick is Some ==> self@[k].brick->0.wf(),
    {
    }

    /// Number of children of `parent` that are loaded and not fading out.
    pub fn child_count(&self, parent: &(IVec3, u8)) -> (r: u32)
        requires
            self.wf(),
        ensures
            r as nat == live_children(self@, *parent).len(),
    {
        match self.child_counts.get(*parent) {
            Some(n) => *n,
            None => {
                assert(live_children(self@, *parent).len() == 0);
                0
            },
        }
    }

    proof fn lemma_children_finite(chunks: Map<ChunkKey, LoadedChunk>, p: ChunkKey)
        requires
            chunks.dom().finite(),
            forall|k: ChunkKey| #[trigger] chunks.dom().contains(k) ==> k.1 < 255,
        ensures
            live_children(chunks, p).finite(),
            live_children(chunks, p).len() <= 8,
    {
        vstd::set_lib::lemma_len_subset(live_children(chunks, p), chunks.dom());
        lemma_octants(p);
        assert(live_children(chunks, p).subset_of(octants(p))) by {
            assert forall|k: ChunkKey| live_children(chunks, p).contains(k) implies octants(p).contains(k) by {
                parent_is_the_cover(p, k);
            }
        }
        vstd::set_lib::lemma_len_subset(live_children(chunks, p), octants(p));
    }

    /// One more live child of `parent`.
    fn count_up(&mut self, parent: ChunkKey)
        requires
            old(self).child_counts@.dom().contains(parent) ==> old(self).child_counts@[parent] < 8,
        ensures
            final(self).inner@ == old(self).inner@,
            final(self).child_counts@ == old(self).child_counts@.insert(
                parent,
                (if old(self).child_counts@.dom().contains(parent) {
                    old(self).child_counts@[parent] + 1
                } else {
                    1
                }) as u32,
            ),
    {
        let n: u32 = match self.child_counts.get(parent) {
            Some(n) => *n,
            None => 0,
        };
        self.child_counts.insert(parent, n + 1);
    }

    /// One live child of `parent` fewer; a count of 0 is dropped.
    fn count_down(&mut self, parent: ChunkKey)
        requires
            old(self).child_counts@.dom().contains(parent) ==> old(self).child_counts@[parent] > 0,
        ensures
            final(self).inner@ == old(self).inner@,
            !old(self).child_counts@.dom().contains(parent) ==> final(self).child_counts@ == old(self).child_counts@,
            old(self).child_counts@.dom().contains(parent) ==> final(self).child_counts@ == (if old(self).child_counts@[parent] == 1 {
                old(self).child_counts@.remove(parent)
            } else {
                old(self).child_counts@.insert(parent, (old(self).child_counts@[parent] - 1) as u32)
            }),
    {
        let n: u32 = match self.child_counts.get(parent) {
            Some(n) => *n,
            None => return ,
        };
        if n == 1 {
            let _ = self.child_counts.remove(parent);
        } else {
            self.child_counts.insert(parent, n - 1);
        }
    }

    /// Adds or replaces a chunk. It counts as a live child of its parent,
    /// whatever it says of fading out.
    pub fn insert(&mut self, key: (IVec3, u8), chunk: LoadedChunk)
        requires
            old(self).wf(),
            key.1 < 255,
            chunk.brick is Some ==> chunk.brick->0.wf(),
        ensures
            final(self).wf(),
            final(self)@ == old(self)@.insert(key, LoadedChunk { is_fading_out: false, ..chunk }),
    {
        let mut fresh: LoadedChunk = chunk;
        fresh.is_fading_out = false;
        let parent: ChunkKey = parent_key(key);
        let ghost before = self@;
        let prev_counted: bool = match self.inner.get(key) {
            Some(c) => !c.is_fading_out,
            None => false,
        };
        proof {
            Self::lemma_children_finite(before, parent);
            assert(prev_counted == live_children(before, parent).contains(key));
            assert(live_children(before, parent).len() > 0 <==> self.child_counts@.dom().contains(parent));
            let after = before.insert(key, fresh);
            assert(live_children(after, parent) =~= live_children(before, parent).insert(key));
            Self::lemma_children_finite(after, parent);
            assert forall|p: ChunkKey| p != parent implies #[trigger] live_children(after, p) == live_children(
                before,
                p,
            ) by {
                assert(live_children(after, p) =~= live_children(before, p));
            }
        }
        if !prev_counted {
            self.count_up(parent);
        }
        self.inner.insert(key, fresh);
        proof {
            let after = self@;
            assert(live_children(after, parent).len() == live_children(before, parent).len() + (
            if prev_counted {
                0int
            } else {
                1int
            }));
        }
    }

    /// Notes that a chunk was desired in `frame`; a chunk that is not loaded is
    /// passed over.
    pub fn touch_last_seen(&mut self, key: &(IVec3, u8), frame: u64)
        requires
            old(self).wf(),
        ensures
            final(self).wf(),
            final(self)@ == (if old(self)@.dom().contains(*key) {
                old(self)@.insert(
                    *key,
                    LoadedChunk { last_seen_frame: frame, ..old(self)@[*key] },
                )
            } else {
                old(self)@
            }),
    {
        let ghost before = self@;
        let _ = self.inner.modify(*key, &Touch { frame });
        proof {
            let after = self@;
            assert(after.dom() =~= before.dom());
            assert forall|p: ChunkKey| #[trigger] live_children(after, p) == live_children(before, p) by {
                assert(live_children(after, p) =~= live_children(before, p));
            }
        }
    }

    pub fn get(&self, key: &(IVec3, u8)) -> (r: Option<&LoadedChunk>)
        ensures
            match r {
                Some(c) => self@.dom().contains(*key) && *c == self@[*key],
                None => !self@.dom().contains(*key),
            },
    {
        self.inner.get(*key)
    }

    pub fn contains_key(&self, key: &(IVec3, u8)) -> (r: bool)
        ensures
            r == self@.dom().contains(*key),
    {
        self.inner.contains_key(*key)
    }

    /// Number of loaded chunks, those fading out included.
    pub fn len(&self) -> (r: usize)
        ensures
            self@.dom().finite(),
            r as nat == self@.dom().len(),
    {
        self.inner.len()
    }

    pub fn is_empty(&self) -> (r: bool)
        ensures
            r == (self@.dom().len() == 0),
    {
        self.inner.len() == 0
    }

    /// The keys of the loaded chunks, each once.
    pub fn keys(&self) -> (r: Vec<(IVec3, u8)>)
        ensures
            r@.to_set() == self@.dom(),
            r@.no_duplicates(),
    {
        self.inner.keys()
    }

    /// Marks a chunk as fading out: it no longer counts as a live child. A
    /// chunk that is marked already, or not loaded, is left as it is.
    pub fn mark_fading_out(&mut self, key: &(IVec3, u8))
        requires
            old(self).wf(),
        ensures
            final(self).wf(),
            final(self)@ == (if old(self)@.dom().contains(*key) {
                old(self)@.insert(
                    *key,
                    LoadedChunk { is_fading_out: true, ..old(self)@[*key] },
                )
            } else {
                old(self)@
            }),
    {
        let ghost before = self@;
        let fading: bool = match self.inner.get(*key) {
            Some(c) => c.is_fading_out,
            None => return ,
        };
        if fading {
            proof {
                assert(self@ =~= before.insert(*key, LoadedChunk { is_fading_out: true, ..before[*key] }));
            }
            return ;
        }
        let parent: ChunkKey = parent_key(*key);
        let _ = self.inner.modify(*key, &FadeOut {  });
        proof {
            Self::lemma_children_finite(before, parent);
            let after = self@;
            assert(after.dom() =~= before.dom());
            assert(live_children(before, parent).contains(*key));
            assert(live_children(after, parent) =~= live_children(before, parent).remove(*key));
            Self::lemma_children_finite(after, parent);
            assert forall|p: ChunkKey| p != parent implies #[trigger] live_children(after, p) == live_children(
                before,
                p,
            ) by {
                assert(live_children(after, p) =~= live_children(before, p));
            }
            assert(live_children(before, parent).len() > 0);
            assert(self.child_counts@.dom().contains(parent));
        }
        self.count_down(parent);
    }

    /// Removes a chunk and hands it back.
    pub fn remove(&mut self, key: &(IVec3, u8)) -> (r: Option<LoadedChunk>)
        requires
            old(self).wf(),
        ensures
            final(self).wf(),
            match r {
                Some(c) => old(self)@.dom().contains(*key) && c == old(self)@[*key] && final(self)@ == old(self)@.remove(*key),
                None => !old(self)@.dom().contains(*key) && final(self)@ == old(self)@,
            },
    {
        let ghost before = self@;
        let removed: LoadedChunk = match self.inner.remove(*key) {
            Some(c) => c,
            None => return None,
        };
        proof {
            let parent = parent_of(*key);
            let after = self@;
            Self::lemma_children_finite(before, parent);
            assert(live_children(after, parent) =~= live_children(before, parent).remove(*key));
            Self::lemma_children_finite(after, parent);
            assert forall|p: ChunkKey| p != parent implies #[trigger] live_children(after, p) == live_children(
                before,
                p,
            ) by {
                assert(live_children(after, p) =~= live_children(before, p));
            }
            if !removed.is_fading_out {
                assert(live_children(before, parent).contains(*key));
                assert(live_children(before, parent).len() > 0);
                assert(self.child_counts@.dom().contains(parent));
            }
        }
        if !removed.is_fading_out {
            let parent: ChunkKey = parent_key(*key);
            self.count_down(parent);
        }
        Some(removed)
    }

    /// Sets one cell of a resident brick. Without a resident brick nothing
    /// changes.
    pub fn patch_cell(&mut self, key: &(IVec3, u8), cell: IVec3, voxel: Voxel)
        requires
            old(self).wf(),
            in_brick(cell),
        ensures
            final(self).wf(),
            final(self)@.dom() == old(self)@.dom(),
            forall|k: ChunkKey| k != *key && old(self)@.dom().contains(k) ==> #[trigger] final(self)@[k] == old(self)@[k],
            old(self)@.dom().contains(*key) ==> same_but_brick(old(self)@[*key], final(self)@[*key]),
            old(self)@.dom().contains(*key) && old(self)@[*key].brick is Some ==> final(self)@[*key].brick->0@
                == old(self)@[*key].brick->0@.update(
                cell_index(cell.x as int, cell.y as int, cell.z as int),
                voxel,
            ),
    {
        let ghost before = self@;
        let _ = self.inner.modify(*key, &SetCell { cell, voxel });
        proof {
            let after = self@;
            assert(after.dom() =~= before.dom());
            assert forall|p: ChunkKey| #[trigger] live_children(after, p) == live_children(before, p) by {
                assert(live_children(after, p) =~= live_children(before, p));
            }
        }
    }

    /// Sets the cells of a resident brick that a mask picks, in the order of
    /// [`cell_index`]. Without a resident brick nothing changes.
    pub fn patch_masked(&mut self, key: &(IVec3, u8), mask: Vec<bool>, voxel: Voxel)
        requires
            old(self).wf(),
            mask@.len() == 4096,
        ensures
            final(self).wf(),
            final(self)@.dom() == old(self)@.dom(),
            forall|k: ChunkKey| k != *key && old(self)@.dom().contains(k) ==> #[trigger] final(self)@[k] == old(self)@[k],
            old(self)@.dom().contains(*key) ==> same_but_brick(old(self)@[*key], final(self)@[*key]),
            old(self)@.dom().contains(*key) && old(self)@[*key].brick is Some ==> final(self)@[*key].brick->0@
                == painted(old(self)@[*key].brick->0@, mask@, voxel),
            old(self)@.dom().contains(*key) && old(self)@[*key].brick is Some ==> forall|i: int|
                0 <= i < 4096 ==> #[trigger] final(self)@[*key].brick->0@[i] == (if mask@[i] {
                    voxel
                } else {
                    old(self)@[*key].brick->0@[i]
                }),
    {
        let ghost before = self@;
        proof {
            if before.dom().contains(*key) && before[*key].brick is Some {
                before[*key].brick->0.lemma_len();
            }
        }
        let _ = self.inner.modify(*key, &Paint { mask, voxel });
        proof {
            let after = self@;
            assert(after.dom() =~= before.dom());
            assert forall|p: ChunkKey| #[trigger] live_children(after, p) == live_children(before, p) by {
                assert(live_children(after, p) =~= live_children(before, p));
            }
        }
    }

    /// Whether a loaded chunk has not been desired for `hysteresis` frames.
    pub fn is_stale(&self, key: &(IVec3, u8), now: u64, hysteresis: u64) -> (r: bool)
        ensures
            r == (self@.dom().contains(*key) && spec_is_stale(self@[*key], now, hysteresis)),
            r ==> self@.dom().contains(*key),
            self@.dom().contains(*key) && self@[*key].last_seen_frame <= now ==> (r <==> self@[*key].last_seen_frame
                + hysteresis <= now),
            self@.dom().contains(*key) && now < self@[*key].last_seen_frame ==> (r <==> hysteresis == 0),
    {
        match self.inner.get(*key) {
            Some(c) => now.saturating_sub(c.last_seen_frame) >= hysteresis,
            None => false,
        }
    }
}

/// A chunk has not been desired for `hysteresis` frames.
pub open spec fn spec_is_stale(c: LoadedChunk, now: u64, hysteresis: u64) -> bool {
    if now < c.last_seen_frame {
        hysteresis == 0
    } else {
        now - c.last_seen_frame >= hysteresis
    }
}

/// Fading out takes a chunk out of its parent's count, once and for all;
/// loading it again puts it back; and neither touches another brick's count.
pub proof fn fading_out_and_back(chunks: Map<ChunkKey, LoadedChunk>, key: ChunkKey, chunk: LoadedChunk, p: ChunkKey)
    requires
        chunks.dom().contains(key),
    ensures
        ({
            let out = chunks.insert(key, LoadedChunk { is_fading_out: true, ..chunks[key] });
            let back = out.insert(key, LoadedChunk { is_fading_out: false, ..chunk });
            &&& live_children(out, p) == live_children(chunks, p).remove(key)
            &&& out.insert(key, LoadedChunk { is_fading_out: true, ..out[key] }) == out
            &&& live_children(back, p) == (if p == parent_of(key) {
                live_children(chunks, p).insert(key)
            } else {
                live_children(chunks, p)
            })
            &&& live_children(out.remove(key), p) == live_children(out, p)
        }),
{
    let out = chunks.insert(key, LoadedChunk { is_fading_out: true, ..chunks[key] });
    let back = out.insert(key, LoadedChunk { is_fading_out: false, ..chunk });
    assert(live_children(out, p) =~= live_children(chunks, p).remove(key));
    assert(out.insert(key, LoadedChunk { is_fading_out: true, ..out[key] }) =~= out);
    if p == parent_of(key) {
        assert(live_children(back, p) =~= live_children(chunks, p).insert(key));
    } else {
        assert(live_children(back, p) =~= live_children(chunks, p));
    }
    assert(live_children(out.remove(key), p) =~= live_children(out, p));
}

/// A point or a direction in space, by the bits of its coordinates.
#[derive(Clone, Copy, Debug, PartialEq, Eq, Structural)]
pub struct DVec3 {
    pub x: Real64,
    pub y: Real64,
    pub z: Real64,
}

/// Where the observer stands and looks.
#[derive(Clone, Copy, Debug, PartialEq, Eq, Structural)]
pub struct Pose {
    pub observer: DVec3,
    pub forward: DVec3,
}

/// The latest plan of bricks to load, and the rebuild that is under way.
#[derive(Debug)]
pub struct DesiredChunksCache {
    /// The pose that the plan was built for.
    pub built_for: Option<Pose>,
    /// The bricks to load, the most wanted first.
    pub plan: Vec<(IVec3, Lod)>,
    /// Where the dispatch loop goes on.
    pub cursor: usize,
    /// The pose of a rebuild that is under way.
    pub rebuild: Option<Pose>,
    /// The ticket of the latest rebuild that was started.
    pub ticket: u64,
}

/// What is heard of a rebuild.
pub enum RebuildNews {
    /// The rebuild of this ticket has a plan.
    Finished { ticket: u64, plan: Vec<(IVec3, Lod)> },
    Pending,
    /// The builder of this ticket is gone without a result.
    Lost { ticket: u64 },
}

impl Default for DesiredChunksCache {
    fn default() -> (r: Self)
        ensures
            r.built_for is None,
            r.plan@.len() == 0,
            r.cursor == 0,
            r.rebuild is None,
    {
        DesiredChunksCache { built_for: None, plan: Vec::new(), cursor: 0, rebuild: None, ticket: 0 }
    }
}

impl DesiredChunksCache {
    /// The pose that drift is measured against: that of a rebuild under way,
    /// else that of the plan.
    pub open spec fn spec_reference(&self) -> Option<Pose> {
        match self.rebuild {
            Some(p) => Some(p),
            None => self.built_for,
        }
    }

    /// Installing a plan took the cache from `self` to `after`.
    pub open spec fn became(self, after: Self, pose: Pose, plan: Vec<(IVec3, Lod)>) -> bool {
        &&& after.built_for == Some(pose)
        &&& after.plan == plan
        &&& after.cursor == 0
        &&& after.rebuild == self.rebuild
        &&& after.ticket == self.ticket
    }

    /// Declaring the plan out of date took the cache from `self` to `after`.
    pub open spec fn invalidated(self, after: Self) -> bool {
        &&& after.built_for is None
        &&& after.rebuild is None
        &&& after.plan == self.plan
        &&& after.cursor == self.cursor
        &&& after.ticket == self.ticket
    }

    /// Claiming a rebuild took the cache from `self` to `after`: while one is
    /// under way nothing happens.
    pub open spec fn claimed(self, after: Self, pose: Pose) -> bool {
        &&& after.built_for == self.built_for
        &&& after.plan == self.plan
        &&& after.cursor == self.cursor
        &&& if self.rebuild is None {
            after.rebuild == Some(pose) && after.ticket == ticket_after(self.ticket, 1)
        } else {
            after.rebuild == self.rebuild && after.ticket == self.ticket
        }
    }

    /// Taking in news took the cache from `self` to `after`. News of another
    /// rebuild than the one under way changes nothing.
    pub open spec fn heard(self, after: Self, news: RebuildNews) -> bool {
        match (self.rebuild, news) {
            (Some(pose), RebuildNews::Finished { ticket, plan }) if ticket == self.ticket => {
                &&& after.built_for == Some(pose)
                &&& after.plan == plan
                &&& after.cursor == 0
                &&& after.rebuild is None
                &&& after.ticket == self.ticket
            },
            (Some(_), RebuildNews::Lost { ticket }) if ticket == self.ticket => {
                &&& after.built_for == self.built_for
                &&& after.plan == self.plan
                &&& after.cursor == self.cursor
                &&& after.rebuild is None
                &&& after.ticket == self.ticket
            },
            _ => {
                &&& after.built_for == self.built_for
                &&& after.plan == self.plan
                &&& after.cursor == self.cursor
                &&& after.rebuild == self.rebuild
                &&& after.ticket == self.ticket
            },
        }
    }

    pub fn reference(&self) -> (r: Option<Pose>)
        ensures
            r == self.spec_reference(),
            self.rebuild is Some ==> r == self.rebuild,
            self.rebuild is None ==> r == self.built_for,
    {
        match self.rebuild {
            Some(p) => Some(p),
            None => self.built_for,
        }
    }

    /// Whether the plan is out of date. `drift` is the observer's distance from
    /// the reference pose, and `dot` the product of the two forward
    /// directions; without a reference the plan is always out of date.
    pub fn should_rebuild(&self, drift: Real64, dot: Real64) -> (r: bool)
        ensures
            r == (self.spec_reference() is None || (Real64 { bits: PLAN_REBUILD_DRIFT_M }).less(drift)
                || dot.less(Real64 { bits: PLAN_REBUILD_FWD_COS })),
    {
        self.should_rebuild_with(
            drift,
            dot,
            Real64 { bits: PLAN_REBUILD_DRIFT_M },
            Real64 { bits: PLAN_REBUILD_FWD_COS },
        )
    }

    /// As [`DesiredChunksCache::should_rebuild`], with given thresholds.
    pub fn should_rebuild_with(
        &self,
        drift: Real64,
        dot: Real64,
        drift_threshold_m: Real64,
        fwd_cos_threshold: Real64,
    ) -> (r: bool)
        ensures
            r == (self.spec_reference() is None || drift_threshold_m.less(drift) || dot.less(
                fwd_cos_threshold,
            )),
    {
        match self.reference() {
            None => true,
            Some(_) => drift_threshold_m.lt(drift) || dot.lt(fwd_cos_threshold),
        }
    }

    /// Installs a plan; the dispatch loop starts over.
    pub fn set(&mut self, pose: Pose, plan: Vec<(IVec3, Lod)>)
        ensures
            old(self).became(*final(self), pose, plan),
            final(self).built_for == Some(pose),
            final(self).plan == plan,
            final(self).cursor == 0,
            final(self).rebuild == old(self).rebuild,
    {
        self.built_for = Some(pose);
        self.plan = plan;
        self.cursor = 0;
    }

    /// Declares the plan out of date, and drops a rebuild that is under way: it
    /// was started from what no longer holds.
    pub fn invalidate(&mut self)
        ensures
            old(self).invalidated(*final(self)),
            final(self).spec_reference() is None,
            final(self).built_for is None,
            final(self).rebuild is None,
            final(self).plan == old(self).plan,
            final(self).cursor == old(self).cursor,
    {
        self.built_for = None;
        self.rebuild = None;
    }

    /// Whether a rebuild is under way.
    pub fn is_rebuilding(&self) -> (r: bool)
        ensures
            r == self.rebuild is Some,
    {
        self.rebuild.is_some()
    }

    /// Claims a rebuild for `pose`. A ticket means that the caller has to start
    /// it, and send its plan back with the ticket; while one is under way
    /// nothing happens.
    pub fn spawn_rebuild(&mut self, pose: Pose) -> (r: Option<u64>)
        ensures
            old(self).claimed(*final(self), pose),
            final(self).plan == old(self).plan,
            final(self).built_for == old(self).built_for,
            final(self).cursor == old(self).cursor,
            old(self).rebuild is None ==> final(self).rebuild == Some(pose) && final(self).ticket != old(self).ticket,
            old(self).rebuild is Some ==> final(self).rebuild == old(self).rebuild && final(self).ticket == old(self).ticket,
            r == (if old(self).rebuild is None {
                Some(final(self).ticket)
            } else {
                None
            }),
    {
        if self.rebuild.is_some() {
            return None;
        }
        self.rebuild = Some(pose);
        self.ticket = next_ticket(self.ticket);
        Some(self.ticket)
    }

    /// Takes in what is heard of a rebuild; `true` means that a plan was
    /// installed. News of a rebuild that was dropped is ignored.
    pub fn poll_rebuild(&mut self, news: RebuildNews) -> (r: bool)
        ensures
            old(self).heard(*final(self), news),
            r ==> final(self).built_for == old(self).rebuild && news is Finished && final(self).plan == news->plan
                && final(self).cursor == 0,
            !r ==> final(self).built_for == old(self).built_for && final(self).plan == old(self).plan && final(self).cursor == old(self).cursor,
            final(self).rebuild is None <==> old(self).rebuild is None || r || (news matches RebuildNews::Lost {
                ticket,
            } && ticket == old(self).ticket),
            final(self).rebuild is Some ==> final(self).rebuild == old(self).rebuild,
            final(self).ticket == old(self).ticket,
            r == (match news {
                RebuildNews::Finished { ticket, .. } => {
                    old(self).rebuild is Some && ticket == old(self).ticket
                },
                _ => false,
            }),
    {
        match self.rebuild {
            None => false,
            Some(pose) => match news {
                RebuildNews::Finished { ticket, plan } => {
                    if ticket != self.ticket {
                        return false;
                    }
                    self.rebuild = None;
                    self.built_for = Some(pose);
                    self.plan = plan;
                    self.cursor = 0;
                    true
                },
                RebuildNews::Pending => false,
                RebuildNews::Lost { ticket } => {
                    if ticket == self.ticket {
                        self.rebuild = None;
                    }
                    false
                },
            },
        }
    }
}

/// What happens to the cache of the plan.
pub ghost enum CacheEvent {
    Claim(Pose),
    Hear(RebuildNews),
    Invalidate,
    Replace(Pose, Vec<(IVec3, Lod)>),
}

/// One event took the cache from `before` to `after`.
pub open spec fn happened(before: DesiredChunksCache, after: DesiredChunksCache, event: CacheEvent) -> bool {
    match event {
        CacheEvent::Claim(pose) => before.claimed(after, pose),
        CacheEvent::Hear(news) => before.heard(after, news),
        CacheEvent::Invalidate => before.invalidated(after),
        CacheEvent::Replace(pose, plan) => before.became(after, pose, plan),
    }
}

/// `caches` is what the cache is before, between and after `events`.
pub open spec fn is_cache_history(caches: Seq<DesiredChunksCache>, events: Seq<CacheEvent>) -> bool {
    &&& caches.len() == events.len() + 1
    &&& forall|n: int|
        #![trigger events[n]]
        0 <= n < events.len() ==> happened(caches[n], caches[n + 1], events[n])
}

/// The news ends the rebuild of a ticket.
pub open spec fn ends(event: CacheEvent, ticket: u64) -> bool {
    match event {
        CacheEvent::Hear(RebuildNews::Finished { ticket: t, .. }) => t == ticket,
        CacheEvent::Hear(RebuildNews::Lost { ticket: t }) => t == ticket,
        CacheEvent::Invalidate => true,
        _ => false,
    }
}

proof fn lemma_still_rebuilding(
    caches: Seq<DesiredChunksCache>,
    events: Seq<CacheEvent>,
    i: int,
    k: int,
    pose: Pose,
)
    requires
        is_cache_history(caches, events),
        0 <= i < k <= events.len(),
        events[i] == CacheEvent::Claim(pose),
        caches[i].rebuild is None,
        forall|n: int| i < n < k ==> !ends(#[trigger] events[n], caches[i + 1].ticket),
    ensures
        caches[k].rebuild == Some(pose),
        caches[k].ticket == caches[i + 1].ticket,
    decreases k - i,
{
    if k == i + 1 {
        assert(happened(caches[i], caches[i + 1], events[i]));
    } else {
        lemma_still_rebuilding(caches, events, i, k - 1, pose);
        assert(happened(caches[k - 1], caches[(k - 1) + 1], events[k - 1]));
        assert(!ends(events[k - 1], caches[i + 1].ticket));
    }
}

/// A rebuild that was started and not dropped is installed when its plan
/// arrives: for its own pose, with the dispatch loop starting over.
pub proof fn a_finished_rebuild_is_installed<F: Fn(IVec3, Lod) -> Real64>(
    caches: Seq<DesiredChunksCache>,
    events: Seq<CacheEvent>,
    i: int,
    k: int,
    pose: Pose,
    sweeps: Seq<TierSweep>,
    score: F,
    plan: Vec<(IVec3, Lod)>,
)
    requires
        is_cache_history(caches, events),
        0 <= i < k < events.len(),
        events[i] == CacheEvent::Claim(pose),
        caches[i].rebuild is None,
        forall|n: int| i < n < k ==> !ends(#[trigger] events[n], caches[i + 1].ticket),
        is_view_plan(sweeps, score, plan@),
        events[k] == CacheEvent::Hear(RebuildNews::Finished { ticket: caches[i + 1].ticket, plan }),
    ensures
        is_view_plan(sweeps, score, caches[k + 1].plan@),
        caches[k + 1].plan == plan,
        caches[k + 1].built_for == Some(pose),
        caches[k + 1].cursor == 0,
        caches[k + 1].rebuild is None,
{
    lemma_still_rebuilding(caches, events, i, k, pose);
    assert(happened(caches[k], caches[k + 1], events[k]));
}

proof fn lemma_drawn_or_idle(caches: Seq<DesiredChunksCache>, events: Seq<CacheEvent>, j: int, k: int) -> (m: int)
    requires
        is_cache_history(caches, events),
        0 <= j < k <= events.len(),
        events[j] is Invalidate,
    ensures
        caches[k].rebuild is Some ==> j < m < k && caches[m + 1].ticket == ticket_after(caches[m].ticket, 1),
    decreases k - j,
{
    assert(happened(caches[k - 1], caches[(k - 1) + 1], events[k - 1]));
    if k == j + 1 {
        0
    } else {
        let m = lemma_drawn_or_idle(caches, events, j, k - 1);
        if caches[k - 1].rebuild is Some {
            m
        } else {
            k - 1
        }
    }
}

/// A rebuild that was dropped is never installed, however late its plan
/// arrives and whatever was started since, within two to the power of 64
/// events.
pub proof fn a_dropped_rebuild_is_never_installed(
    caches: Seq<DesiredChunksCache>,
    events: Seq<CacheEvent>,
    i: int,
    j: int,
    k: int,
    late: Vec<(IVec3, Lod)>,
)
    requires
        is_cache_history(caches, events),
        events.len() < 0x1_0000_0000_0000_0000,
        0 <= i < j < k < events.len(),
        events[i] is Claim,
        caches[i].rebuild is None,
        events[j] is Invalidate,
        events[k] == CacheEvent::Hear(RebuildNews::Finished { ticket: caches[i + 1].ticket, plan: late }),
    ensures
        caches[k + 1].plan == caches[k].plan,
        caches[k + 1].built_for == caches[k].built_for,
        caches[k + 1].cursor == caches[k].cursor,
        caches[k + 1].rebuild == caches[k].rebuild,
{
    assert(happened(caches[k], caches[k + 1], events[k]));
    let m = lemma_drawn_or_idle(caches, events, j, k);
    if caches[k].rebuild is Some {
        let tickets = Seq::new(caches.len(), |n: int| caches[n].ticket);
        assert forall|n: int| 0 <= n < tickets.len() - 1 implies #[trigger] goes_on(tickets, n) by {
            assert(happened(caches[n], caches[n + 1], events[n]));
        }
        a_ticket_does_not_come_again(tickets, i + 1, m, k);
    }
}

/// The radii between which a tier loads bricks, or nothing where the horizon
/// leaves it no room. `mask_finer` leaves out what a finer tier covers;
/// otherwise every tier loads all the way in.
pub open spec fn limits(
    tiers: Seq<LodTier>,
    i: int,
    horizon: Real64,
    mask_finer: bool,
) -> Option<(Real64, Real64)> {
    let outer = band(tiers, i).1.lesser(horizon);
    if outer.less_or_equal(zero()) {
        None
    } else {
        Some(
            (
                if mask_finer {
                    band(tiers, i).0.lesser(outer)
                } else {
                    zero()
                },
                outer,
            ),
        )
    }
}

impl LodLadder {
    /// The radii between which tier `i` loads bricks.
    pub fn tier_limits(&self, i: usize, horizon: Real64, mask_finer: bool) -> (r: Option<
        (Real64, Real64),
    >)
        ensures
            r == limits(self.tiers@, i as int, horizon, mask_finer),
    {
        let b: (Real64, Real64) = self.tier_band_m(i);
        let outer: Real64 = b.1.min(horizon);
        let inner: Real64 = if mask_finer {
            b.0.min(outer)
        } else {
            Real64 { bits: 0 }
        };
        if outer.le(Real64 { bits: 0 }) {
            None
        } else {
            Some((inner, outer))
        }
    }
}

/// Whether `c` lies in the cube of bricks within `reach` of `origin`.
pub open spec fn within(origin: IVec3, reach: int, c: IVec3) -> bool {
    &&& origin.x - reach <= c.x <= origin.x + reach
    &&& origin.y - reach <= c.y <= origin.y + reach
    &&& origin.z - reach <= c.z <= origin.z + reach
}

/// The order in which bricks are swept: by z, then y, then x.
pub open spec fn swept_before(a: IVec3, b: IVec3) -> bool {
    ||| a.z < b.z
    ||| a.z == b.z && a.y < b.y
    ||| a.z == b.z && a.y == b.y && a.x < b.x
}

/// The bricks within `reach` of `origin`, each once, by z, then y, then x.
pub fn sweep_cells(origin: IVec3, reach: i64) -> (r: Vec<IVec3>)
    requires
        0 <= reach,
        i64::MIN <= origin.x - reach && origin.x + reach <= i64::MAX,
        i64::MIN <= origin.y - reach && origin.y + reach <= i64::MAX,
        i64::MIN <= origin.z - reach && origin.z + reach <= i64::MAX,
    ensures
        forall|c: IVec3| #[trigger] r@.contains(c) <==> within(origin, reach as int, c),
        forall|i: int, j: int| 0 <= i < j < r@.len() ==> swept_before(#[trigger] r@[i], #[trigger] r@[j]),
        r@.no_duplicates(),
        forall|c: IVec3| #[trigger]
            r@.contains(c) <==> -reach <= c.x - origin.x <= reach && -reach <= c.y - origin.y <= reach && -reach
                <= c.z - origin.z <= reach,
        forall|i: int, j: int|
            0 <= i < j < r@.len() ==> (#[trigger] r@[i]).z <= (#[trigger] r@[j]).z && (r@[i].z == r@[j].z ==> r@[i].y
                <= r@[j].y && (r@[i].y == r@[j].y ==> r@[i].x < r@[j].x)),
{
    let mut out: Vec<IVec3> = Vec::new();
    let hx: i128 = origin.x as i128 + reach as i128;
    let hy: i128 = origin.y as i128 + reach as i128;
    let hz: i128 = origin.z as i128 + reach as i128;
    let mut bz: i128 = origin.z as i128 - reach as i128;
    while bz <= hz
        invariant
            0 <= reach,
            hx == origin.x + reach,
            hy == origin.y + reach,
            hz == origin.z + reach,
            hx <= i64::MAX,
            hy <= i64::MAX,
            hz <= i64::MAX,
            i64::MIN <= origin.x - reach,
            i64::MIN <= origin.y - reach,
            i64::MIN <= origin.z - reach,
            origin.z - reach <= bz <= hz + 1,
            forall|c: IVec3| #[trigger] out@.contains(c) <==> within(origin, reach as int, c) && c.z < bz,
            forall|i: int, j: int|
                0 <= i < j < out@.len() ==> swept_before(#[trigger] out@[i], #[trigger] out@[j]),
        decreases hz + 1 - bz,
    {
        let mut by: i128 = origin.y as i128 - reach as i128;
        while by <= hy
            invariant
                0 <= reach,
                hx == origin.x + reach,
                hy == origin.y + reach,
                hz == origin.z + reach,
                hx <= i64::MAX,
                hy <= i64::MAX,
                hz <= i64::MAX,
                i64::MIN <= origin.x - reach,
                i64::MIN <= origin.y - reach,
                i64::MIN <= origin.z - reach,
                origin.z - reach <= bz <= hz,
                origin.y - reach <= by <= hy + 1,
                forall|c: IVec3| #[trigger]
                    out@.contains(c) <==> within(origin, reach as int, c) && (c.z < bz || (c.z == bz && c.y < by)),
                forall|i: int, j: int|
                    0 <= i < j < out@.len() ==> swept_before(#[trigger] out@[i], #[trigger] out@[j]),
            decreases hy + 1 - by,
        {
            let mut bx: i128 = origin.x as i128 - reach as i128;
            while bx <= hx
                invariant
                    0 <= reach,
                    hx == origin.x + reach,
                    hy == origin.y + reach,
                    hz == origin.z + reach,
                    hx <= i64::MAX,
                    hy <= i64::MAX,
                    hz <= i64::MAX,
                    i64::MIN <= origin.x - reach,
                    i64::MIN <= origin.y - reach,
                    i64::MIN <= origin.z - reach,
                    origin.z - reach <= bz <= hz,
                    origin.y - reach <= by <= hy,
                    origin.x - reach <= bx <= hx + 1,
                    forall|c: IVec3| #[trigger]
                        out@.contains(c) <==> within(origin, reach as int, c) && (c.z < bz || (c.z == bz && (
                        c.y < by || (c.y == by && c.x < bx)))),
                    forall|i: int, j: int|
                        0 <= i < j < out@.len() ==> swept_before(#[trigger] out@[i], #[trigger] out@[j]),
                decreases hx + 1 - bx,
            {
                let cell = IVec3 { x: bx as i64, y: by as i64, z: bz as i64 };
                let ghost before = out@;
                out.push(cell);
                proof {
                    assert forall|c: IVec3| #[trigger] out@.contains(c) <==> (before.contains(c) || c == cell) by {
                        if before.contains(c) {
                            let i = before.index_of(c);
                            assert(out@[i] == c);
                        }
                        assert(out@[before.len() as int] == cell);
                        if out@.contains(c) && c != cell {
                            let i = out@.index_of(c);
                            assert(before[i] == c);
                        }
                    }
                    assert forall|i: int, j: int| 0 <= i < j < out@.len() implies swept_before(
                        #[trigger] out@[i],
                        #[trigger] out@[j],
                    ) by {
                        if j == before.len() {
                            assert(before.contains(before[i]));
                        }
                    }
                }
                bx += 1;
            }
            by += 1;
        }
        bz += 1;
    }
    proof {
        assert forall|i: int, j: int| 0 <= i < out@.len() && 0 <= j < out@.len() && i != j implies out@[i]
            != out@[j] by {
            if i < j {
                assert(swept_before(out@[i], out@[j]));
            } else {
                assert(swept_before(out@[j], out@[i]));
            }
        }
    }
    out
}

/// A brick as measured from the observer: the squares of the distances to its
/// nearest and farthest point and to its centre.
#[derive(Clone, Copy, Debug)]
pub struct CellMeasure {
    pub coord: IVec3,
    pub near_sq: Real64,
    pub far_sq: Real64,
    pub centre_sq: Real64,
}

/// The measured bricks of one tier, and the squares of the radii between which
/// it loads them.
#[derive(Debug)]
pub struct TierSweep {
    pub lod: Lod,
    pub inner_sq: Real64,
    pub outer_sq: Real64,
    pub cells: Vec<CellMeasure>,
}

/// A brick that reaches into the outer sphere and is not wholly inside the
/// inner one.
pub open spec fn in_band(m: CellMeasure, inner_sq: Real64, outer_sq: Real64) -> bool {
    !m.far_sq.less(inner_sq) && !outer_sq.less_or_equal(m.near_sq)
}

/// A brick to load, with the rank of its distance.
pub ghost struct Wanted {
    pub coord: IVec3,
    pub lod: Lod,
    pub rank: int,
}

/// The bricks of a tier that are to be loaded, among the first `n` measured.
pub open spec fn wanted_of_tier(sweep: TierSweep, n: int) -> Seq<Wanted>
    decreases n,
{
    if n <= 0 {
        Seq::empty()
    } else {
        let front = wanted_of_tier(sweep, n - 1);
        let m = sweep.cells@[n - 1];
        if in_band(m, sweep.inner_sq, sweep.outer_sq) {
            front.push(Wanted { coord: m.coord, lod: sweep.lod, rank: m.centre_sq.rank() })
        } else {
            front
        }
    }
}

/// The bricks to load of the first `n` tiers.
pub open spec fn wanted(sweeps: Seq<TierSweep>, n: int) -> Seq<Wanted>
    decreases n,
{
    if n <= 0 {
        Seq::empty()
    } else {
        wanted(sweeps, n - 1) + wanted_of_tier(sweeps[n - 1], sweeps[n - 1].cells@.len() as int)
    }
}

pub open spec fn ranks_of(w: Seq<Wanted>) -> Seq<i128> {
    Seq::new(w.len(), |i: int| w[i].rank as i128)
}

/// `plan` lists the bricks of `w` by rank, those of equal rank in their order.
pub open spec fn is_plan(w: Seq<Wanted>, plan: Seq<(IVec3, Lod)>) -> bool {
    exists|order: Seq<usize>| #[trigger]
        is_stable_order(ranks_of(w), order) && plan == Seq::new(
            order.len(),
            |i: int| (w[order[i] as int].coord, w[order[i] as int].lod),
        )
}

/// The rank of a measured quantity as an exec value.
fn rank_of(m: Real64) -> (r: i128)
    ensures
        r as int == m.rank(),
{
    if m.bits >= 0x8000_0000_0000_0000 {
        -((m.bits - 0x8000_0000_0000_0000) as i128)
    } else {
        m.bits as i128
    }
}

/// Lists items by rank, items of equal rank in their order.
fn arrange(items: &Vec<(IVec3, Lod)>, ranks: &Vec<i128>) -> (r: (Vec<(IVec3, Lod)>, Ghost<Seq<usize>>))
    requires
        items@.len() == ranks@.len(),
    ensures
        is_stable_order(ranks@, r.1@),
        r.0@ == Seq::new(r.1@.len(), |i: int| items@[r.1@[i] as int]),
{
    let order: Vec<usize> = stable_order(ranks);
    let mut out: Vec<(IVec3, Lod)> = Vec::new();
    let mut i: usize = 0;
    while i < order.len()
        invariant
            i <= order@.len(),
            items@.len() == ranks@.len(),
            is_stable_order(ranks@, order@),
            out@.len() == i,
            forall|k: int| 0 <= k < i ==> #[trigger] out@[k] == items@[order@[k] as int],
        decreases order@.len() - i,
    {
        proof {
            assert((order@[i as int] as int) < ranks@.len());
        }
        out.push(items[order[i]]);
        i += 1;
    }
    proof {
        assert(out@ =~= Seq::new(order@.len(), |i: int| items@[order@[i] as int]));
    }
    (out, Ghost(order@))
}

/// The bricks that should be loaded, closest first. Every tier contributes the
/// measured bricks that lie in its band.
pub fn desired_chunks(sweeps: &Vec<TierSweep>) -> (r: Vec<(IVec3, Lod)>)
    ensures
        is_plan(wanted(sweeps@, sweeps@.len() as int), r@),
{
    let mut items: Vec<(IVec3, Lod)> = Vec::new();
    let mut ranks: Vec<i128> = Vec::new();
    let mut t: usize = 0;
    while t < sweeps.len()
        invariant
            t <= sweeps@.len(),
            items@.len() == ranks@.len(),
            items@.len() == wanted(sweeps@, t as int).len(),
            forall|k: int|
                0 <= k < items@.len() ==> #[trigger] items@[k] == (
                    wanted(sweeps@, t as int)[k].coord,
                    wanted(sweeps@, t as int)[k].lod,
                ),
            forall|k: int|
                0 <= k < ranks@.len() ==> #[trigger] ranks@[k] as int == wanted(sweeps@, t as int)[k].rank,
        decreases sweeps@.len() - t,
    {
        let sweep: &TierSweep = &sweeps[t];
        let ghost front = wanted(sweeps@, t as int);
        let mut i: usize = 0;
        while i < sweep.cells.len()
            invariant
                i <= sweep.cells@.len(),
                items@.len() == ranks@.len(),
                items@.len() == (front + wanted_of_tier(*sweep, i as int)).len(),
                forall|k: int|
                    0 <= k < items@.len() ==> #[trigger] items@[k] == (
                        (front + wanted_of_tier(*sweep, i as int))[k].coord,
                        (front + wanted_of_tier(*sweep, i as int))[k].lod,
                    ),
                forall|k: int|
                    0 <= k < ranks@.len() ==> #[trigger] ranks@[k] as int == (front + wanted_of_tier(
                        *sweep,
                        i as int,
                    ))[k].rank,
            decreases sweep.cells@.len() - i,
        {
            let m: CellMeasure = sweep.cells[i];
            if !m.far_sq.lt(sweep.inner_sq) && !sweep.outer_sq.le(m.near_sq) {
                items.push((m.coord, sweep.lod));
                ranks.push(rank_of(m.centre_sq));
            }
            i += 1;
        }
        t += 1;
    }
    let ghost w = wanted(sweeps@, sweeps@.len() as int);
    let arranged: (Vec<(IVec3, Lod)>, Ghost<Seq<usize>>) = arrange(&items, &ranks);
    proof {
        let order = arranged.1@;
        assert(ranks_of(w) =~= ranks@);
        assert(is_stable_order(ranks_of(w), order));
        assert(arranged.0@ =~= Seq::new(
            order.len(),
            |i: int| (w[order[i] as int].coord, w[order[i] as int].lod),
        )) by {
            assert forall|i: int| 0 <= i < order.len() implies arranged.0@[i] == (
                w[order[i] as int].coord,
                w[order[i] as int].lod,
            ) by {
                assert((order[i] as int) < ranks@.len());
            }
        }
    }
    arranged.0
}

pub open spec fn score_ranks(scores: Seq<Real64>) -> Seq<i128> {
    Seq::new(scores.len(), |i: int| scores[i].rank() as i128)
}

/// `sorted` is `plan` by the scores' rank, entries of equal score in their
/// order.
pub open spec fn is_prioritized(
    plan: Seq<(IVec3, Lod)>,
    scores: Seq<Real64>,
    sorted: Seq<(IVec3, Lod)>,
) -> bool {
    exists|order: Seq<usize>| #[trigger]
        is_stable_order(score_ranks(scores), order) && sorted
            == Seq::new(order.len(), |i: int| plan[order[i] as int])
}

/// Sorts a plan again by view priority: the lower an entry's score, the earlier
/// it is loaded.
pub fn prioritize_view(plan: &Vec<(IVec3, Lod)>, scores: &Vec<Real64>) -> (r: Vec<(IVec3, Lod)>)
    requires
        plan@.len() == scores@.len(),
    ensures
        is_prioritized(plan@, scores@, r@),
{
    let mut ranks: Vec<i128> = Vec::new();
    let mut i: usize = 0;
    while i < scores.len()
        invariant
            i <= scores@.len(),
            ranks@.len() == i,
            forall|k: int| 0 <= k < i ==> #[trigger] ranks@[k] == scores@[k].rank() as i128,
        decreases scores@.len() - i,
    {
        ranks.push(rank_of(scores[i]));
        i += 1;
    }
    proof {
        assert(ranks@ =~= score_ranks(scores@));
    }
    let arranged: (Vec<(IVec3, Lod)>, Ghost<Seq<usize>>) = arrange(plan, &ranks);
    proof {
        let order = arranged.1@;
        assert(is_stable_order(score_ranks(scores@), order));
    }
    arranged.0
}

/// The scores that `score` gives the entries of a plan.
pub open spec fn is_scored<F: Fn(IVec3, Lod) -> Real64>(
    score: F,
    plan: Seq<(IVec3, Lod)>,
    scores: Seq<Real64>,
) -> bool {
    &&& scores.len() == plan.len()
    &&& forall|i: int| 0 <= i < plan.len() ==> call_ensures(score, plan[i], #[trigger] scores[i])
}

/// `plan` lists the bricks that the sweeps want, closest first, sorted again by
/// the scores that `score` gives.
pub open spec fn is_view_plan<F: Fn(IVec3, Lod) -> Real64>(
    sweeps: Seq<TierSweep>,
    score: F,
    plan: Seq<(IVec3, Lod)>,
) -> bool {
    exists|near: Seq<(IVec3, Lod)>, scores: Seq<Real64>| #[trigger]
        is_prioritized(near, scores, plan) && is_scored(score, near, scores) && is_plan(
            wanted(sweeps, sweeps.len() as int),
            near,
        )
}

/// The plan of a rebuild: the bricks that should be loaded, by view priority.
/// The score of a brick is what `score` gives.
pub fn plan_view<F: Fn(IVec3, Lod) -> Real64>(sweeps: &Vec<TierSweep>, score: F) -> (r: Vec<(IVec3, Lod)>)
    requires
        forall|c: IVec3, l: Lod| #[trigger] call_requires(score, (c, l)),
    ensures
        is_view_plan(sweeps@, score, r@),
{
    let near: Vec<(IVec3, Lod)> = desired_chunks(sweeps);
    let mut scores: Vec<Real64> = Vec::new();
    let mut i: usize = 0;
    while i < near.len()
        invariant
            forall|c: IVec3, l: Lod| #[trigger] call_requires(score, (c, l)),
            i <= near@.len(),
            scores@.len() == i,
            forall|k: int| 0 <= k < i ==> call_ensures(score, near@[k], #[trigger] scores@[k]),
        decreases near@.len() - i,
    {
        let e: (IVec3, Lod) = near[i];
        scores.push(score(e.0, e.1));
        i += 1;
    }
    prioritize_view(&near, &scores)
}

/// No gaps: a point whose distance lies in a tier's band is in a brick that the
/// tier loads, if the brick's measures enclose the distances of its points.
pub proof fn a_brick_around_a_point_in_the_band_is_loaded(
    m: CellMeasure,
    point_sq: Real64,
    inner_sq: Real64,
    outer_sq: Real64,
)
    requires
        m.near_sq.less_or_equal(point_sq),
        point_sq.less_or_equal(m.far_sq),
        inner_sq.less_or_equal(point_sq),
        point_sq.less(outer_sq),
    ensures
        in_band(m, inner_sq, outer_sq),
{
}

/// With nothing masked, a brick's parent is loaded with it: the parent reaches
/// at least as near, and its tier at least as far.
pub proof fn nested_parent_is_loaded(
    child: CellMeasure,
    parent: CellMeasure,
    child_outer_sq: Real64,
    parent_outer_sq: Real64,
)
    requires
        in_band(child, zero(), child_outer_sq),
        parent.near_sq.less_or_equal(child.near_sq),
        zero().less_or_equal(parent.far_sq),
        child_outer_sq.less_or_equal(parent_outer_sq),
    ensures
        in_band(parent, zero(), parent_outer_sq),
{
}

proof fn lemma_wanted_of_tier(sweep: TierSweep, n: int, i: int, j: int)
    requires
        0 <= n <= sweep.cells@.len(),
        forall|a: int, b: int|
            0 <= a < b < sweep.cells@.len() ==> (#[trigger] sweep.cells@[a]).coord != (
            #[trigger] sweep.cells@[b]).coord,
        0 <= i < j < wanted_of_tier(sweep, n).len(),
    ensures
        wanted_of_tier(sweep, n)[i].coord != wanted_of_tier(sweep, n)[j].coord,
    decreases n,
{
    let front = wanted_of_tier(sweep, n - 1);
    if j < front.len() {
        lemma_wanted_of_tier(sweep, n - 1, i, j);
    } else {
        let a = lemma_wanted_source(sweep, n - 1, i);
        assert(front[i].coord == sweep.cells@[a].coord);
        assert(sweep.cells@[a].coord != sweep.cells@[n - 1].coord);
    }
}

proof fn lemma_wanted_source(sweep: TierSweep, n: int, i: int) -> (a: int)
    requires
        0 <= n <= sweep.cells@.len(),
        0 <= i < wanted_of_tier(sweep, n).len(),
    ensures
        0 <= a < n,
        wanted_of_tier(sweep, n)[i].coord == sweep.cells@[a].coord,
        wanted_of_tier(sweep, n)[i].lod == sweep.lod,
    decreases n,
{
    if i < wanted_of_tier(sweep, n - 1).len() {
        lemma_wanted_source(sweep, n - 1, i)
    } else {
        n - 1
    }
}

proof fn lemma_wanted_tier(sweeps: Seq<TierSweep>, n: int, i: int) -> (t: int)
    requires
        0 <= n <= sweeps.len(),
        0 <= i < wanted(sweeps, n).len(),
    ensures
        0 <= t < n,
        wanted(sweeps, n)[i].lod == sweeps[t].lod,
    decreases n,
{
    let front = wanted(sweeps, n - 1);
    if i < front.len() {
        lemma_wanted_tier(sweeps, n - 1, i)
    } else {
        let a = lemma_wanted_source(sweeps[n - 1], sweeps[n - 1].cells@.len() as int, i - front.len());
        n - 1
    }
}

proof fn lemma_wanted_distinct(sweeps: Seq<TierSweep>, n: int, i: int, j: int)
    requires
        0 <= n <= sweeps.len(),
        forall|t: int, a: int, b: int|
            0 <= t < sweeps.len() && 0 <= a < b < sweeps[t].cells@.len() ==> (
            #[trigger] sweeps[t].cells@[a]).coord != (#[trigger] sweeps[t].cells@[b]).coord,
        forall|s: int, t: int|
            0 <= s < t < sweeps.len() ==> (#[trigger] sweeps[s]).lod != (#[trigger] sweeps[t]).lod,
        0 <= i < j < wanted(sweeps, n).len(),
    ensures
        wanted(sweeps, n)[i].coord != wanted(sweeps, n)[j].coord || wanted(sweeps, n)[i].lod != wanted(
            sweeps,
            n,
        )[j].lod,
    decreases n,
{
    let front = wanted(sweeps, n - 1);
    let last = sweeps[n - 1];
    if j < front.len() {
        lemma_wanted_distinct(sweeps, n - 1, i, j);
    } else if i < front.len() {
        let s = lemma_wanted_tier(sweeps, n - 1, i);
        let a = lemma_wanted_source(last, last.cells@.len() as int, j - front.len());
        assert(sweeps[s].lod != sweeps[n - 1].lod);
    } else {
        lemma_wanted_of_tier(last, last.cells@.len() as int, i - front.len(), j - front.len());
    }
}

/// No brick is listed twice, if no tier measures a brick twice and no two tiers
/// have the same level of detail.
pub proof fn plan_has_distinct_keys(sweeps: Seq<TierSweep>, plan: Seq<(IVec3, Lod)>)
    requires
        is_plan(wanted(sweeps, sweeps.len() as int), plan),
        forall|t: int, a: int, b: int|
            0 <= t < sweeps.len() && 0 <= a < b < sweeps[t].cells@.len() ==> (
            #[trigger] sweeps[t].cells@[a]).coord != (#[trigger] sweeps[t].cells@[b]).coord,
        forall|s: int, t: int|
            0 <= s < t < sweeps.len() ==> (#[trigger] sweeps[s]).lod != (#[trigger] sweeps[t]).lod,
    ensures
        plan.no_duplicates(),
{
    let w = wanted(sweeps, sweeps.len() as int);
    let order = choose|order: Seq<usize>| #[trigger]
        is_stable_order(ranks_of(w), order) && plan == Seq::new(
            order.len(),
            |i: int| (w[order[i] as int].coord, w[order[i] as int].lod),
        );
    stable_order_is_a_permutation(ranks_of(w), order);
    assert forall|i: int, j: int| 0 <= i < j < plan.len() implies plan[i] != plan[j] by {
        let a = order[i] as int;
        let b = order[j] as int;
        assert(a < w.len() && b < w.len());
        assert(order[i] != order[j]);
        if a < b {
            lemma_wanted_distinct(sweeps, sweeps.len() as int, a, b);
        } else {
            lemma_wanted_distinct(sweeps, sweeps.len() as int, b, a);
        }
    }
}

/// The plan goes from near to far.
pub proof fn plan_is_closest_first(w: Seq<Wanted>, plan: Seq<(IVec3, Lod)>) -> (order: Seq<usize>)
    requires
        is_plan(w, plan),
        forall|i: int| 0 <= i < w.len() ==> i128::MIN <= (#[trigger] w[i]).rank <= i128::MAX,
    ensures
        order.len() == plan.len(),
        plan.len() == w.len(),
        forall|i: int|
            0 <= i < plan.len() ==> (order[i] as int) < w.len() && #[trigger] plan[i] == (
                w[order[i] as int].coord,
                w[order[i] as int].lod,
            ),
        forall|i: int, j: int|
            0 <= i < j < plan.len() ==> w[#[trigger] order[i] as int].rank <= w[#[trigger] order[j] as int].rank,
{
    let order = choose|order: Seq<usize>| #[trigger]
        is_stable_order(ranks_of(w), order) && plan == Seq::new(
            order.len(),
            |i: int| (w[order[i] as int].coord, w[order[i] as int].lod),
        );
    assert forall|i: int, j: int| 0 <= i < j < plan.len() implies w[#[trigger] order[i] as int].rank
        <= w[#[trigger] order[j] as int].rank by {
        assert(goes_before(ranks_of(w), order[i] as int, order[j] as int));
        assert((order[i] as int) < w.len());
        assert((order[j] as int) < w.len());
    }
    order
}

/// Where a wanted brick comes from: its tier and its place among the measured
/// bricks of the tier.
proof fn lemma_wanted_origin(sweeps: Seq<TierSweep>, n: int) -> (src: Seq<(int, int)>)
    requires
        0 <= n <= sweeps.len(),
    ensures
        src.len() == wanted(sweeps, n).len(),
        forall|p: int|
            0 <= p < src.len() ==> 0 <= (#[trigger] src[p]).0 < n && 0 <= src[p].1 < sweeps[src[p].0].cells@.len(),
        forall|p: int|
            0 <= p < src.len() ==> ({
                let s = sweeps[src[p].0];
                let m = s.cells@[src[p].1];
                &&& (#[trigger] src[p], true).1
                &&& !m.far_sq.less(s.inner_sq)
                &&& !s.outer_sq.less_or_equal(m.near_sq)
                &&& wanted(sweeps, n)[p].coord == m.coord
                &&& wanted(sweeps, n)[p].lod == s.lod
                &&& wanted(sweeps, n)[p].rank == m.centre_sq.rank()
            }),
        forall|p: int, q: int|
            0 <= p < q < src.len() ==> (#[trigger] src[p]).0 < (#[trigger] src[q]).0 || (src[p].0 == src[q].0
                && src[p].1 < src[q].1),
        forall|t: int, i: int|
            0 <= t < n && 0 <= i < sweeps[t].cells@.len() && !(#[trigger] sweeps[t].cells@[i]).far_sq.less(
                sweeps[t].inner_sq,
            ) && !sweeps[t].outer_sq.less_or_equal(sweeps[t].cells@[i].near_sq) ==> src.contains((t, i)),
    decreases n,
{
    if n == 0 {
        Seq::<(int, int)>::empty()
    } else {
        let front = lemma_wanted_origin(sweeps, n - 1);
        let s = sweeps[n - 1];
        let at = lemma_tier_origin(s, s.cells@.len() as int);
        let back = Seq::new(at.len(), |p: int| (n - 1, at[p]));
        let src = front + back;
        assert forall|t: int, i: int|
            0 <= t < n && 0 <= i < sweeps[t].cells@.len() && !(#[trigger] sweeps[t].cells@[i]).far_sq.less(
                sweeps[t].inner_sq,
            ) && !sweeps[t].outer_sq.less_or_equal(sweeps[t].cells@[i].near_sq) implies src.contains((t, i)) by {
            if t < n - 1 {
                let p = front.index_of((t, i));
                assert(src[p] == (t, i));
            } else {
                let p = at.index_of(i);
                assert(src[front.len() + p] == (t, i));
            }
        }
        src
    }
}

proof fn lemma_tier_origin(s: TierSweep, n: int) -> (at: Seq<int>)
    requires
        0 <= n <= s.cells@.len(),
    ensures
        at.len() == wanted_of_tier(s, n).len(),
        forall|p: int| 0 <= p < at.len() ==> 0 <= #[trigger] at[p] < n,
        forall|p: int|
            0 <= p < at.len() ==> ({
                let m = s.cells@[#[trigger] at[p]];
                &&& !m.far_sq.less(s.inner_sq)
                &&& !s.outer_sq.less_or_equal(m.near_sq)
                &&& wanted_of_tier(s, n)[p].coord == m.coord
                &&& wanted_of_tier(s, n)[p].lod == s.lod
                &&& wanted_of_tier(s, n)[p].rank == m.centre_sq.rank()
            }),
        forall|p: int, q: int| 0 <= p < q < at.len() ==> #[trigger] at[p] < #[trigger] at[q],
        forall|i: int|
            0 <= i < n && !(#[trigger] s.cells@[i]).far_sq.less(s.inner_sq) && !s.outer_sq.less_or_equal(
                s.cells@[i].near_sq,
            ) ==> at.contains(i),
    decreases n,
{
    if n == 0 {
        Seq::<int>::empty()
    } else {
        let front = lemma_tier_origin(s, n - 1);
        let at = if in_band(s.cells@[n - 1], s.inner_sq, s.outer_sq) {
            front.push(n - 1)
        } else {
            front
        };
        assert forall|i: int|
            0 <= i < n && !(#[trigger] s.cells@[i]).far_sq.less(s.inner_sq) && !s.outer_sq.less_or_equal(
                s.cells@[i].near_sq,
            ) implies at.contains(i) by {
            if i < n - 1 {
                let p = front.index_of(i);
                assert(at[p] == i);
            } else {
                assert(at[front.len() as int] == i);
            }
        }
        at
    }
}

/// The plan lists every measured brick of every tier that reaches into the
/// tier's outer sphere and is not wholly inside its inner one, each once, and
/// no other; nearer centres come first, and of equally near ones those of the
/// earlier tier, and within a tier those measured earlier.
pub proof fn every_brick_in_its_band_is_planned(sweeps: Seq<TierSweep>, plan: Seq<(IVec3, Lod)>) -> (src: Seq<
    (int, int),
>)
    requires
        is_plan(wanted(sweeps, sweeps.len() as int), plan),
    ensures
        src.len() == plan.len(),
        src.no_duplicates(),
        forall|p: int|
            0 <= p < src.len() ==> 0 <= (#[trigger] src[p]).0 < sweeps.len() && 0 <= src[p].1
                < sweeps[src[p].0].cells@.len(),
        forall|p: int|
            0 <= p < plan.len() ==> #[trigger] plan[p] == (
                sweeps[src[p].0].cells@[src[p].1].coord,
                sweeps[src[p].0].lod,
            ),
        forall|t: int, i: int|
            0 <= t < sweeps.len() && 0 <= i < sweeps[t].cells@.len() ==> (src.contains((t, i)) <==> !(
            #[trigger] sweeps[t].cells@[i]).far_sq.less(sweeps[t].inner_sq) && !sweeps[t].outer_sq.less_or_equal(
                sweeps[t].cells@[i].near_sq,
            )),
        forall|p: int, q: int|
            0 <= p < q < src.len() ==> ({
                let a = sweeps[(#[trigger] src[p]).0].cells@[src[p].1].centre_sq;
                let b = sweeps[(#[trigger] src[q]).0].cells@[src[q].1].centre_sq;
                &&& !b.less(a)
                &&& a.rank() == b.rank() ==> src[p].0 < src[q].0 || (src[p].0 == src[q].0 && src[p].1 < src[q].1)
            }),
{
    let w = wanted(sweeps, sweeps.len() as int);
    let origin = lemma_wanted_origin(sweeps, sweeps.len() as int);
    let order = choose|order: Seq<usize>| #[trigger]
        is_stable_order(ranks_of(w), order) && plan == Seq::new(
            order.len(),
            |i: int| (w[order[i] as int].coord, w[order[i] as int].lod),
        );
    let src = Seq::new(order.len(), |p: int| origin[order[p] as int]);
    assert forall|p: int| 0 <= p < order.len() implies (#[trigger] order[p] as int) < w.len() by {}
    assert forall|i: int| 0 <= i < w.len() implies ranks_of(w)[i] as int == (#[trigger] w[i]).rank by {
        assert(origin[i].0 >= 0);
    }
    assert forall|p: int|
        0 <= p < src.len() implies 0 <= (#[trigger] src[p]).0 < sweeps.len() && 0 <= src[p].1
        < sweeps[src[p].0].cells@.len() by {
        assert(src[p] == origin[order[p] as int]);
    }
    assert forall|p: int|
        0 <= p < plan.len() implies #[trigger] plan[p] == (
        sweeps[src[p].0].cells@[src[p].1].coord,
        sweeps[src[p].0].lod,
    ) by {
        assert(src[p] == origin[order[p] as int]);
    }
    assert forall|t: int, i: int|
        0 <= t < sweeps.len() && 0 <= i < sweeps[t].cells@.len() implies (src.contains((t, i)) <==> !(
    #[trigger] sweeps[t].cells@[i]).far_sq.less(sweeps[t].inner_sq) && !sweeps[t].outer_sq.less_or_equal(
        sweeps[t].cells@[i].near_sq,
    )) by {
        if src.contains((t, i)) {
            let p = src.index_of((t, i));
            assert(src[p] == origin[order[p] as int]);
        }
        if !sweeps[t].cells@[i].far_sq.less(sweeps[t].inner_sq) && !sweeps[t].outer_sq.less_or_equal(
            sweeps[t].cells@[i].near_sq,
        ) {
            let a = origin.index_of((t, i));
            let p = lemma_order_has(ranks_of(w), order, a);
            assert(src[p] == (t, i));
        }
    }
    assert forall|p: int, q: int|
        0 <= p < q < src.len() implies ({
        let a = sweeps[(#[trigger] src[p]).0].cells@[src[p].1].centre_sq;
        let b = sweeps[(#[trigger] src[q]).0].cells@[src[q].1].centre_sq;
        &&& !b.less(a)
        &&& a.rank() == b.rank() ==> src[p].0 < src[q].0 || (src[p].0 == src[q].0 && src[p].1 < src[q].1)
    }) by {
        let (i, j) = (order[p] as int, order[q] as int);
        assert(goes_before(ranks_of(w), i, j));
        assert(src[p] == origin[i] && src[q] == origin[j]);
        assert(ranks_of(w)[i] as int == w[i].rank && ranks_of(w)[j] as int == w[j].rank);
    }
    assert forall|p: int, q: int| 0 <= p < src.len() && 0 <= q < src.len() && p != q implies src[p] != src[q] by {
        let (i, j) = (order[p] as int, order[q] as int);
        if p < q {
            assert(goes_before(ranks_of(w), i, j));
        } else {
            assert(goes_before(ranks_of(w), j, i));
        }
        assert(src[p] == origin[i] && src[q] == origin[j]);
        assert(i != j);
    }
    src
}

/// Sorting a plan by its scores keeps every entry, once; a lower score comes
/// first, and entries of equal score stay in their order.
pub proof fn every_entry_is_prioritized(
    plan: Seq<(IVec3, Lod)>,
    scores: Seq<Real64>,
    sorted: Seq<(IVec3, Lod)>,
) -> (order: Seq<usize>)
    requires
        plan.len() == scores.len(),
        is_prioritized(plan, scores, sorted),
    ensures
        sorted.len() == plan.len(),
        order.len() == plan.len(),
        order.no_duplicates(),
        forall|i: int|
            0 <= i < sorted.len() ==> (order[i] as int) < plan.len() && #[trigger] sorted[i] == plan[order[i] as int],
        forall|i: int, j: int|
            0 <= i < j < order.len() ==> ({
                let a = scores[#[trigger] order[i] as int];
                let b = scores[#[trigger] order[j] as int];
                &&& !b.less(a)
                &&& a.rank() == b.rank() ==> order[i] < order[j]
            }),
        forall|e: (IVec3, Lod)| plan.contains(e) <==> #[trigger] sorted.contains(e),
{
    let order = choose|order: Seq<usize>| #[trigger]
        is_stable_order(score_ranks(scores), order) && sorted
            == Seq::new(order.len(), |i: int| plan[order[i] as int]);
    stable_order_is_a_permutation(score_ranks(scores), order);
    assert forall|i: int, j: int|
        0 <= i < j < order.len() implies ({
        let a = scores[#[trigger] order[i] as int];
        let b = scores[#[trigger] order[j] as int];
        &&& !b.less(a)
        &&& a.rank() == b.rank() ==> order[i] < order[j]
    }) by {
        assert(goes_before(score_ranks(scores), order[i] as int, order[j] as int));
        assert((order[i] as int) < scores.len() && (order[j] as int) < scores.len());
    }
    assert forall|e: (IVec3, Lod)| plan.contains(e) <==> #[trigger] sorted.contains(e) by {
        if plan.contains(e) {
            let a = plan.index_of(e);
            let i = lemma_order_has(score_ranks(scores), order, a);
            assert(sorted[i] == e);
        }
        if sorted.contains(e) {
            let i = sorted.index_of(e);
            assert((order[i] as int) < plan.len());
            assert(plan[order[i] as int] == e);
        }
    }
    order
}

/// The plan of a rebuild lists exactly the bricks that lie in the band of their
/// tier, by rising score.
pub proof fn a_view_plan_lists_every_brick_in_its_band<F: Fn(IVec3, Lod) -> Real64>(
    sweeps: Seq<TierSweep>,
    score: F,
    plan: Seq<(IVec3, Lod)>,
) -> (scores: Seq<Real64>)
    requires
        is_view_plan(sweeps, score, plan),
    ensures
        scores.len() == plan.len(),
        forall|i: int| 0 <= i < plan.len() ==> call_ensures(score, plan[i], #[trigger] scores[i]),
        forall|i: int, j: int| 0 <= i < j < plan.len() ==> !(#[trigger] scores[j]).less(#[trigger] scores[i]),
        forall|c: IVec3, l: Lod| #[trigger]
            plan.contains((c, l)) <==> exists|t: int, i: int|
                0 <= t < sweeps.len() && 0 <= i < sweeps[t].cells@.len() && sweeps[t].lod == l && (
                #[trigger] sweeps[t].cells@[i]).coord == c && !sweeps[t].cells@[i].far_sq.less(sweeps[t].inner_sq)
                    && !sweeps[t].outer_sq.less_or_equal(sweeps[t].cells@[i].near_sq),
{
    let (near, given) = choose|near: Seq<(IVec3, Lod)>, given: Seq<Real64>| #[trigger]
        is_prioritized(near, given, plan) && is_scored(score, near, given) && is_plan(
            wanted(sweeps, sweeps.len() as int),
            near,
        );
    let order = every_entry_is_prioritized(near, given, plan);
    let src = every_brick_in_its_band_is_planned(sweeps, near);
    let scores = Seq::new(plan.len(), |i: int| given[order[i] as int]);
    assert forall|i: int| 0 <= i < plan.len() implies call_ensures(score, plan[i], #[trigger] scores[i]) by {
        assert(plan[i] == near[order[i] as int]);
        assert(call_ensures(score, near[order[i] as int], given[order[i] as int]));
    }
    assert forall|c: IVec3, l: Lod| #[trigger]
        plan.contains((c, l)) <==> exists|t: int, i: int|
            0 <= t < sweeps.len() && 0 <= i < sweeps[t].cells@.len() && sweeps[t].lod == l && (
            #[trigger] sweeps[t].cells@[i]).coord == c && !sweeps[t].cells@[i].far_sq.less(sweeps[t].inner_sq)
                && !sweeps[t].outer_sq.less_or_equal(sweeps[t].cells@[i].near_sq) by {
        if plan.contains((c, l)) {
            let p = near.index_of((c, l));
            assert(near[p] == (c, l));
            let (t, i) = src[p];
            assert(src.contains((t, i)));
            assert(sweeps[t].cells@[i].coord == c);
        }
        if exists|t: int, i: int|
            0 <= t < sweeps.len() && 0 <= i < sweeps[t].cells@.len() && sweeps[t].lod == l && (
            #[trigger] sweeps[t].cells@[i]).coord == c && !sweeps[t].cells@[i].far_sq.less(sweeps[t].inner_sq)
                && !sweeps[t].outer_sq.less_or_equal(sweeps[t].cells@[i].near_sq) {
            let (t, i) = choose|t: int, i: int|
                0 <= t < sweeps.len() && 0 <= i < sweeps[t].cells@.len() && sweeps[t].lod == l && (
                #[trigger] sweeps[t].cells@[i]).coord == c && !sweeps[t].cells@[i].far_sq.less(sweeps[t].inner_sq)
                    && !sweeps[t].outer_sq.less_or_equal(sweeps[t].cells@[i].near_sq);
            let p = src.index_of((t, i));
            assert(near[p] == (c, l));
        }
    }
    scores
}

/// A tier loads no farther than its own radius and the horizon, whichever is
/// less, and from where the tier before it ends, or all the way in where
/// nothing is masked; it loads nothing where that leaves no room.
pub proof fn limits_go_from_the_finer_tier_to_the_horizon(
    tiers: Seq<LodTier>,
    i: int,
    horizon: Real64,
    mask_finer: bool,
)
    requires
        is_ladder(tiers),
        0 <= i < tiers.len(),
        !horizon.is_nan(),
    ensures
        limits(tiers, i, horizon, mask_finer) is None <==> horizon.rank() <= 0,
        limits(tiers, i, horizon, mask_finer) matches Some(l) ==> {
            &&& l.1.rank() == (if horizon.rank() < tiers[i].outer_radius_m.rank() {
                horizon.rank()
            } else {
                tiers[i].outer_radius_m.rank()
            })
            &&& !mask_finer || i == 0 ==> l.0.rank() == 0
            &&& mask_finer && i > 0 ==> l.0.rank() == (if l.1.rank() < tiers[i - 1].outer_radius_m.rank() {
                l.1.rank()
            } else {
                tiers[i - 1].outer_radius_m.rank()
            })
        },
{
    assert(!tiers[i].outer_radius_m.is_nan() && tiers[i].outer_radius_m.rank() > 0);
    if i > 0 {
        assert(!tiers[i - 1].outer_radius_m.is_nan() && tiers[i - 1].outer_radius_m.rank() > 0);
    }
}

} // verus!
