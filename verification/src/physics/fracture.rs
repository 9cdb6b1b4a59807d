//! What comes loose when voxels are removed.
//!
//! The host decides what breaks off and removes it from the world. Here it is
//! decided what to ask of the host, and what to make of its reply: which bricks
//! to refresh, and which pieces fall.

use crate::brick_gen::{
    fresh_keys, land_all, lemma_nothing_pending, no_brick_is_fetched_twice, ready_keys,
    repeated_keys, BrickReady, BrickRefreshQueue, Key, RefreshState,
};
use crate::coord::{ChunkKey, IVec3};
use crate::key_map::{KeyMap, KeySet};
use crate::order::{is_selection, lemma_select_next, lemma_select_none};
use crate::modes::edit::{
    accepts_refresh, brick_of, is_live, keep_live, live_ready, spec_brick_of, VoxelEditEvent,
};
use crate::voxel::Voxel;
use crate::world_stream::{LoadedChunk, LoadedChunks};
use std::collections::VecDeque;
use vstd::prelude::*;

verus! {

/// Voxels added around the touched bricks on every side.
pub const REGION_SKIRT: i64 = 2;

/// Largest region that is examined, in voxels: 48 along each edge.
pub const MAX_REGION_VOXELS: u128 = 110592;

/// Most requests to the host at a time.
pub const MAX_IN_FLIGHT_FRACTURES: usize = 8;

/// The lowest coordinate of bricks along an axis, given by `pick`.
pub open spec fn lowest(bricks: Seq<IVec3>, pick: spec_fn(IVec3) -> int) -> int
    decreases bricks.len(),
{
    if bricks.len() <= 1 {
        pick(bricks[0])
    } else {
        let front = lowest(bricks.drop_last(), pick);
        if pick(bricks.last()) < front {
            pick(bricks.last())
        } else {
            front
        }
    }
}

/// The highest coordinate of bricks along an axis, given by `pick`.
pub open spec fn highest(bricks: Seq<IVec3>, pick: spec_fn(IVec3) -> int) -> int
    decreases bricks.len(),
{
    if bricks.len() <= 1 {
        pick(bricks[0])
    } else {
        let front = highest(bricks.drop_last(), pick);
        if pick(bricks.last()) > front {
            pick(bricks.last())
        } else {
            front
        }
    }
}

/// The x coordinate of a cell.
pub open spec fn x_of() -> spec_fn(IVec3) -> int {
    |p: IVec3| p.x as int
}

/// The y coordinate of a cell.
pub open spec fn y_of() -> spec_fn(IVec3) -> int {
    |p: IVec3| p.y as int
}

/// The z coordinate of a cell.
pub open spec fn z_of() -> spec_fn(IVec3) -> int {
    |p: IVec3| p.z as int
}

/// The lowest and highest coordinates of some cells.
#[derive(Clone, Copy, Debug, PartialEq, Eq, Structural)]
pub struct Bounds {
    pub lo: IVec3,
    pub hi: IVec3,
}

/// The bounds of cells.
pub open spec fn bounds_of(cells: Seq<IVec3>) -> Bounds {
    Bounds {
        lo: IVec3 {
            x: lowest(cells, x_of()) as i64,
            y: lowest(cells, y_of()) as i64,
            z: lowest(cells, z_of()) as i64,
        },
        hi: IVec3 {
            x: highest(cells, x_of()) as i64,
            y: highest(cells, y_of()) as i64,
            z: highest(cells, z_of()) as i64,
        },
    }
}

fn min64(a: i64, b: i64) -> (r: i64)
    ensures
        r == (if a < b {
            a
        } else {
            b
        }),
{
    if a < b {
        a
    } else {
        b
    }
}

fn max64(a: i64, b: i64) -> (r: i64)
    ensures
        r == (if a > b {
            a
        } else {
            b
        }),
{
    if a > b {
        a
    } else {
        b
    }
}

proof fn lemma_bounds_are_cells(cells: Seq<IVec3>)
    requires
        cells.len() > 0,
    ensures
        i64::MIN <= lowest(cells, x_of()) <= i64::MAX,
        i64::MIN <= lowest(cells, y_of()) <= i64::MAX,
        i64::MIN <= lowest(cells, z_of()) <= i64::MAX,
        i64::MIN <= highest(cells, x_of()) <= i64::MAX,
        i64::MIN <= highest(cells, y_of()) <= i64::MAX,
        i64::MIN <= highest(cells, z_of()) <= i64::MAX,
    decreases cells.len(),
{
    if cells.len() > 1 {
        lemma_bounds_are_cells(cells.drop_last());
    }
}

/// The bounds of cells, of which there has to be one.
fn find_bounds(cells: &Vec<IVec3>) -> (r: Bounds)
    requires
        cells@.len() > 0,
    ensures
        r == bounds_of(cells@),
{
    let mut b = Bounds { lo: cells[0], hi: cells[0] };
    let mut i: usize = 1;
    while i < cells.len()
        invariant
            1 <= i <= cells@.len(),
            b == bounds_of(cells@.take(i as int)),
        decreases cells@.len() - i,
    {
        let c: IVec3 = cells[i];
        proof {
            let a = cells@.take(i as int);
            let n = cells@.take(i + 1);
            assert(n.drop_last() =~= a);
            assert(n.last() == c);
            lemma_bounds_are_cells(a);
            lemma_bounds_are_cells(n);
        }
        b = Bounds {
            lo: IVec3 { x: min64(b.lo.x, c.x), y: min64(b.lo.y, c.y), z: min64(b.lo.z, c.z) },
            hi: IVec3 { x: max64(b.hi.x, c.x), y: max64(b.hi.y, c.y), z: max64(b.hi.z, c.z) },
        };
        i += 1;
    }
    proof {
        assert(cells@.take(cells@.len() as int) =~= cells@);
    }
    b
}

/// Every cell lies within the bounds.
pub proof fn bounds_hold_every_cell(cells: Seq<IVec3>, i: int)
    requires
        0 <= i < cells.len(),
    ensures
        lowest(cells, x_of()) <= cells[i].x <= highest(cells, x_of()),
        lowest(cells, y_of()) <= cells[i].y <= highest(cells, y_of()),
        lowest(cells, z_of()) <= cells[i].z <= highest(cells, z_of()),
    decreases cells.len(),
{
    if cells.len() > 1 {
        if i < cells.len() - 1 {
            assert(cells.drop_last()[i] == cells[i]);
            bounds_hold_every_cell(cells.drop_last(), i);
        } else {
            assert(cells.last() == cells[i]);
            bounds_hold_every_cell(cells.drop_last(), 0);
        }
    }
}

/// A region of voxels: its lower corner and its size.
#[derive(Clone, Copy, Debug)]
pub struct Region {
    pub min: IVec3,
    pub dims: (u32, u32, u32),
}

/// The size of the region around bricks `lo` to `hi` along an axis, in voxels.
pub open spec fn span(lo: int, hi: int) -> int {
    16 * (hi - lo + 1) + 4
}

/// The coordinates of the region around the bricks fit in 64 bits.
pub open spec fn region_fits(bricks: Seq<IVec3>) -> bool {
    let b = bounds_of(bricks);
    &&& i64::MIN <= 16 * b.lo.x - 2 && 16 * b.hi.x + 16 <= i64::MAX && span(b.lo.x as int, b.hi.x as int) <= i64::MAX
    &&& i64::MIN <= 16 * b.lo.y - 2 && 16 * b.hi.y + 16 <= i64::MAX && span(b.lo.y as int, b.hi.y as int) <= i64::MAX
    &&& i64::MIN <= 16 * b.lo.z - 2 && 16 * b.hi.z + 16 <= i64::MAX && span(b.lo.z as int, b.hi.z as int) <= i64::MAX
}

/// The voxels of the touched bricks and a skirt around them; no bricks make no
/// region. A size beyond 32 bits wraps.
pub fn region_for_bricks(bricks: &Vec<IVec3>) -> (r: Option<Region>)
    requires
        bricks@.len() > 0 ==> region_fits(bricks@),
    ensures
        match r {
            None => bricks@.len() == 0,
            Some(region) => {
                let b = bounds_of(bricks@);
                &&& bricks@.len() > 0
                &&& region.min.x == 16 * b.lo.x - REGION_SKIRT
                &&& region.min.y == 16 * b.lo.y - REGION_SKIRT
                &&& region.min.z == 16 * b.lo.z - REGION_SKIRT
                &&& region.dims.0 as int == span(b.lo.x as int, b.hi.x as int) % 0x1_0000_0000
                &&& region.dims.1 as int == span(b.lo.y as int, b.hi.y as int) % 0x1_0000_0000
                &&& region.dims.2 as int == span(b.lo.z as int, b.hi.z as int) % 0x1_0000_0000
            },
        },
{
    if bricks.len() == 0 {
        return None;
    }
    let b: Bounds = find_bounds(bricks);
    proof {
        bounds_hold_every_cell(bricks@, 0);
        lemma_bounds_are_cells(bricks@);
    }
    let min = IVec3 {
        x: b.lo.x * 16 - REGION_SKIRT,
        y: b.lo.y * 16 - REGION_SKIRT,
        z: b.lo.z * 16 - REGION_SKIRT,
    };
    let dx: u64 = ((b.hi.x - b.lo.x + 1) * 16 + 2 * REGION_SKIRT) as u64;
    let dy: u64 = ((b.hi.y - b.lo.y + 1) * 16 + 2 * REGION_SKIRT) as u64;
    let dz: u64 = ((b.hi.z - b.lo.z + 1) * 16 + 2 * REGION_SKIRT) as u64;
    Some(
        Region {
            min,
            dims: (
                (dx % 0x1_0000_0000) as u32,
                (dy % 0x1_0000_0000) as u32,
                (dz % 0x1_0000_0000) as u32,
            ),
        },
    )
}

/// Where to ask the host for a fracture after an edit: the middle of the
/// touched region. Placing voxels detaches nothing, and a region that is too
/// large is passed over.
pub open spec fn impact_of(removed: bool, bricks: Seq<IVec3>) -> Option<IVec3> {
    let b = bounds_of(bricks);
    let dx = span(b.lo.x as int, b.hi.x as int) % 0x1_0000_0000;
    let dy = span(b.lo.y as int, b.hi.y as int) % 0x1_0000_0000;
    let dz = span(b.lo.z as int, b.hi.z as int) % 0x1_0000_0000;
    if removed && bricks.len() > 0 && dx * dy * dz <= MAX_REGION_VOXELS {
        Some(
            IVec3 {
                x: (16 * b.lo.x - REGION_SKIRT + dx / 2) as i64,
                y: (16 * b.lo.y - REGION_SKIRT + dy / 2) as i64,
                z: (16 * b.lo.z - REGION_SKIRT + dz / 2) as i64,
            },
        )
    } else {
        None
    }
}

/// Where to ask the host for a fracture after an edit, if at all.
pub fn fracture_impact(removed: bool, bricks: &Vec<IVec3>) -> (r: Option<IVec3>)
    requires
        removed && bricks@.len() > 0 ==> region_fits(bricks@),
    ensures
        r == impact_of(removed, bricks@),
{
    if !removed {
        return None;
    }
    let region: Region = match region_for_bricks(bricks) {
        Some(region) => region,
        None => return None,
    };
    let (dx, dy, dz): (u32, u32, u32) = region.dims;
    proof {
        assert(0 <= dx * dy <= 0xffff_ffff * 0xffff_ffff) by (nonlinear_arith)
            requires
                0 <= dx <= 0xffff_ffff,
                0 <= dy <= 0xffff_ffff,
        ;
        assert(0 <= (dx * dy) * dz <= 0xffff_ffff * 0xffff_ffff * 0xffff_ffff) by (nonlinear_arith)
            requires
                0 <= dx * dy <= 0xffff_ffff * 0xffff_ffff,
                0 <= dz <= 0xffff_ffff,
        ;
    }
    let volume: u128 = dx as u128 * dy as u128 * dz as u128;
    if volume > MAX_REGION_VOXELS {
        return None;
    }
    proof {
        bounds_hold_every_cell(bricks@, 0);
        lemma_bounds_are_cells(bricks@);
        let b = bounds_of(bricks@);
        assert(dx <= span(b.lo.x as int, b.hi.x as int));
        assert(dy <= span(b.lo.y as int, b.hi.y as int));
        assert(dz <= span(b.lo.z as int, b.hi.z as int));
        assert(16 * b.lo.x - 2 + dx as int / 2 <= 16 * b.hi.x + 16);
        assert(16 * b.lo.y - 2 + dy as int / 2 <= 16 * b.hi.y + 16);
        assert(16 * b.lo.z - 2 + dz as int / 2 <= 16 * b.hi.z + 16);
    }
    Some(
        IVec3 {
            x: region.min.x + (dx / 2) as i64,
            y: region.min.y + (dy / 2) as i64,
            z: region.min.z + (dz / 2) as i64,
        },
    )
}

/// Whether one axis of a region fits in 64 bits.
fn axis_fits(lo: i64, hi: i64) -> (r: bool)
    ensures
        r == (i64::MIN <= 16 * lo - 2 && 16 * hi + 16 <= i64::MAX && span(lo as int, hi as int) <= i64::MAX),
{
    let lo: i128 = lo as i128;
    let hi: i128 = hi as i128;
    let low: i128 = i64::MIN as i128;
    let top: i128 = i64::MAX as i128;
    low <= 16 * lo - 2 && 16 * hi + 16 <= top && 16 * (hi - lo + 1) + 4 <= top
}

impl<A> VoxelEditEvent<A> {
    /// The region that the edit touched can be measured.
    pub open spec fn measurable(self) -> bool {
        self.removed && self.bricks@.len() > 0 ==> region_fits(self.bricks@)
    }

    /// Whether the region that the edit touched can be measured: bricks at the
    /// ends of the coordinate range cannot.
    pub fn is_measurable(&self) -> (r: bool)
        ensures
            r == self.measurable(),
    {
        if !self.removed || self.bricks.len() == 0 {
            return true;
        }
        let b: Bounds = find_bounds(&self.bricks);
        axis_fits(b.lo.x, b.hi.x) && axis_fits(b.lo.y, b.hi.y) && axis_fits(b.lo.z, b.hi.z)
    }
}

/// The worlds and places that the host is asked about after edits, in their
/// order, while there is room for more requests.
pub open spec fn asked<A>(edits: Seq<VoxelEditEvent<A>>, room: nat) -> Seq<(A, IVec3)>
    decreases edits.len(),
{
    if edits.len() == 0 {
        Seq::empty()
    } else {
        let front = asked(edits.drop_last(), room);
        match impact_of(edits.last().removed, edits.last().bricks@) {
            Some(p) if front.len() < room => front.push((edits.last().addr, p)),
            _ => front,
        }
    }
}

/// Claims a request for every edit of this frame that may have loosened
/// something. The caller asks the host about the places that come back; an edit
/// for which there is no room stays without a fracture.
pub fn dispatch_fracture_checks<P, A: Copy>(
    edits: &Vec<VoxelEditEvent<A>>,
    workers: &mut FractureWorkers<P>,
) -> (r: Vec<(A, IVec3)>)
    requires
        old(workers).wf(),
        forall|i: int| 0 <= i < edits@.len() ==> (#[trigger] edits@[i]).measurable(),
    ensures
        final(workers).wf(),
        ({
            let free = MAX_IN_FLIGHT_FRACTURES - old(workers).requests();
            r@ == asked(
                edits@,
                if free < 0 {
                    0
                } else {
                    free as nat
                },
            )
        }),
        final(workers).requests() == old(workers).requests() + r@.len(),
        final(workers).replies() == old(workers).replies(),
        final(workers).state() == old(workers).state(),
        final(workers).results() == old(workers).results(),
{
    let mut out: Vec<(A, IVec3)> = Vec::new();
    let ghost free = MAX_IN_FLIGHT_FRACTURES - workers.requests();
    let ghost room: nat = if free < 0 {
        0
    } else {
        free as nat
    };
    proof {
        assert(edits@.take(0) =~= Seq::<VoxelEditEvent<A>>::empty());
    }
    let mut i: usize = 0;
    while i < edits.len()
        invariant
            i <= edits@.len(),
            workers.wf(),
            forall|k: int| 0 <= k < edits@.len() ==> (#[trigger] edits@[k]).measurable(),
            free == MAX_IN_FLIGHT_FRACTURES - old(workers).requests(),
            room == (if free < 0 {
                0
            } else {
                free as nat
            }),
            out@ == asked(edits@.take(i as int), room),
            workers.requests() == old(workers).requests() + out@.len(),
            workers.replies() == old(workers).replies(),
            workers.state() == old(workers).state(),
            workers.results() == old(workers).results(),
        decreases edits@.len() - i,
    {
        proof {
            assert(edits@.take(i + 1).drop_last() =~= edits@.take(i as int));
            assert(edits@.take(i + 1).last() == edits@[i as int]);
        }
        match fracture_impact(edits[i].removed, &edits[i].bricks) {
            Some(p) => {
                if workers.dispatch_fracture() {
                    out.push((edits[i].addr, p));
                }
            },
            None => {},
        }
        i += 1;
    }
    proof {
        assert(edits@.take(edits@.len() as int) =~= edits@);
    }
    out
}

/// One step of what the host did.
#[derive(Debug)]
pub enum FractureCommand {
    SetVoxel { pos: IVec3, before: Voxel, after: Voxel },
    SpawnDebris { id: u32, voxels: Vec<IVec3> },
}

/// The host's reply to a request; an empty one where nothing broke or the host
/// failed.
#[derive(Debug)]
pub struct FractureApplied {
    pub commands: Vec<FractureCommand>,
}

/// The materials of the carved voxels, as they were before: the first `n`
/// commands, later ones first.
pub open spec fn carved(commands: Seq<FractureCommand>, n: int) -> Map<ChunkKey, u16>
    decreases n,
{
    if n <= 0 {
        Map::empty()
    } else {
        match commands[n - 1] {
            FractureCommand::SetVoxel { pos, before, .. } => carved(commands, n - 1).insert(
                (pos, 0u8),
                before.0,
            ),
            _ => carved(commands, n - 1),
        }
    }
}

/// The live bricks that the first `n` commands carve.
pub open spec fn carved_bricks(
    commands: Seq<FractureCommand>,
    chunks: Map<ChunkKey, LoadedChunk>,
    n: int,
) -> Set<ChunkKey>
    decreases n,
{
    if n <= 0 {
        Set::empty()
    } else {
        match commands[n - 1] {
            FractureCommand::SetVoxel { pos, .. } => if is_live(chunks, (spec_brick_of(pos), 0u8)) {
                carved_bricks(commands, chunks, n - 1).insert((spec_brick_of(pos), 0u8))
            } else {
                carved_bricks(commands, chunks, n - 1)
            },
            _ => carved_bricks(commands, chunks, n - 1),
        }
    }
}

/// What a reply leads to.
pub struct FractureReading {
    /// The materials of the carved voxels, as they were.
    pub materials: KeyMap<u16>,
    /// The bricks to refresh, each once.
    pub touched: Vec<(IVec3, u8)>,
}

/// Reads a reply: recovers the materials of the carved voxels, which the world
/// no longer holds, and lists the bricks to refresh.
pub fn read_commands(commands: &Vec<FractureCommand>, loaded: &LoadedChunks) -> (r: FractureReading)
    ensures
        r.materials@ == carved(commands@, commands@.len() as int),
        r.touched@.to_set() == carved_bricks(commands@, loaded@, commands@.len() as int),
        r.touched@.no_duplicates(),
{
    let mut materials: KeyMap<u16> = KeyMap::new();
    let mut touched: KeySet = KeySet::new();
    let mut i: usize = 0;
    while i < commands.len()
        invariant
            i <= commands@.len(),
            materials@ == carved(commands@, i as int),
            touched@ == carved_bricks(commands@, loaded@, i as int),
        decreases commands@.len() - i,
    {
        match &commands[i] {
            FractureCommand::SetVoxel { pos, before, after: _ } => {
                materials.insert((*pos, 0u8), before.0);
                let key: (IVec3, u8) = (brick_of(*pos), 0u8);
                if accepts_refresh(loaded, &key) {
                    let _: bool = touched.insert(key);
                }
            },
            FractureCommand::SpawnDebris { id: _, voxels: _ } => {},
        }
        i += 1;
    }
    FractureReading { materials, touched: touched.keys() }
}

/// A piece that broke off, as the analysis of it asks for it.
pub struct IslandSource {
    cells: KeySet,
    origin: IVec3,
    dims: (i32, i32, i32),
}

/// The world cell of a piece's cell.
pub open spec fn world_cell(origin: IVec3, x: i32, y: i32, z: i32) -> IVec3 {
    IVec3 { x: (origin.x + x) as i64, y: (origin.y + y) as i64, z: (origin.z + z) as i64 }
}

/// The extent of a piece fits in 32 bits along every axis.
pub open spec fn island_fits(voxels: Seq<IVec3>) -> bool {
    let b = bounds_of(voxels);
    &&& b.hi.x - b.lo.x < i32::MAX
    &&& b.hi.y - b.lo.y < i32::MAX
    &&& b.hi.z - b.lo.z < i32::MAX
}

impl IslandSource {
    pub closed spec fn spec_cells(&self) -> Set<ChunkKey> {
        self.cells@
    }

    pub closed spec fn spec_origin(&self) -> IVec3 {
        self.origin
    }

    pub closed spec fn spec_dims(&self) -> (i32, i32, i32) {
        self.dims
    }

    /// The piece holds these voxels and no others, in the smallest box around
    /// them.
    pub open spec fn made_of(&self, voxels: Seq<IVec3>) -> bool {
        let b = bounds_of(voxels);
        &&& self.spec_origin() == b.lo
        &&& self.spec_dims().0 == b.hi.x - b.lo.x + 1
        &&& self.spec_dims().1 == b.hi.y - b.lo.y + 1
        &&& self.spec_dims().2 == b.hi.z - b.lo.z + 1
        &&& forall|p: IVec3| #[trigger] self.spec_cells().contains((p, 0u8)) <==> voxels.contains(p)
    }

    /// The piece made of these voxels; none makes no piece.
    pub fn bake_island(voxels: &Vec<IVec3>) -> (r: Option<Self>)
        requires
            voxels@.len() > 0 ==> island_fits(voxels@),
        ensures
            match r {
                None => voxels@.len() == 0,
                Some(s) => voxels@.len() > 0 && s.made_of(voxels@),
            },
            r is Some ==> forall|p: IVec3| #[trigger] r->0.spec_cells().contains((p, 0u8)) <==> voxels@.contains(p),
            r is Some ==> forall|i: int|
                0 <= i < voxels@.len() ==> r->0.spec_origin().x <= (#[trigger] voxels@[i]).x < r->0.spec_origin().x
                    + r->0.spec_dims().0 && r->0.spec_origin().y <= voxels@[i].y < r->0.spec_origin().y
                    + r->0.spec_dims().1 && r->0.spec_origin().z <= voxels@[i].z < r->0.spec_origin().z
                    + r->0.spec_dims().2,
    {
        if voxels.len() == 0 {
            return None;
        }
        let b: Bounds = find_bounds(voxels);
        proof {
            bounds_hold_every_cell(voxels@, 0);
            lemma_bounds_are_cells(voxels@);
        }
        let dims: (i32, i32, i32) = (
            (b.hi.x - b.lo.x + 1) as i32,
            (b.hi.y - b.lo.y + 1) as i32,
            (b.hi.z - b.lo.z + 1) as i32,
        );
        let mut cells: KeySet = KeySet::new();
        let mut i: usize = 0;
        while i < voxels.len()
            invariant
                i <= voxels@.len(),
                forall|p: IVec3| #[trigger] cells@.contains((p, 0u8)) <==> voxels@.take(i as int).contains(p),
            decreases voxels@.len() - i,
        {
            let v: IVec3 = voxels[i];
            let ghost a = voxels@.take(i as int);
            let ghost n = voxels@.take(i + 1);
            let _: bool = cells.insert((v, 0u8));
            proof {
                assert forall|p: IVec3| n.contains(p) <==> (a.contains(p) || p == v) by {
                    if a.contains(p) {
                        let j = a.index_of(p);
                        assert(n[j] == p);
                    }
                    assert(n[i as int] == v);
                    if n.contains(p) && p != v {
                        let j = n.index_of(p);
                        assert(a[j] == p);
                    }
                }
            }
            i += 1;
        }
        proof {
            assert(voxels@.take(voxels@.len() as int) =~= voxels@);
            assert forall|k: int| 0 <= k < voxels@.len() implies b.lo.x <= (#[trigger] voxels@[k]).x <= b.hi.x && b.lo.y
                <= voxels@[k].y <= b.hi.y && b.lo.z <= voxels@[k].z <= b.hi.z by {
                bounds_hold_every_cell(voxels@, k);
            }
        }
        Some(IslandSource { cells, origin: b.lo, dims })
    }

    /// The lower corner of the piece in the world.
    pub fn origin(&self) -> (r: IVec3)
        ensures
            r == self.spec_origin(),
    {
        self.origin
    }

    /// The size of the piece.
    pub fn dims(&self) -> (r: (i32, i32, i32))
        ensures
            r == self.spec_dims(),
    {
        self.dims
    }

    /// Whether a cell of the piece's box belongs to it.
    pub fn is_solid(&self, x: i32, y: i32, z: i32) -> (r: bool)
        requires
            i64::MIN <= self.spec_origin().x + x <= i64::MAX,
            i64::MIN <= self.spec_origin().y + y <= i64::MAX,
            i64::MIN <= self.spec_origin().z + z <= i64::MAX,
        ensures
            r == self.spec_cells().contains((world_cell(self.spec_origin(), x, y, z), 0u8)),
            r <==> exists|p: IVec3| #[trigger]
                self.spec_cells().contains((p, 0u8)) && p.x == self.spec_origin().x + x && p.y == self.spec_origin().y + y
                    && p.z == self.spec_origin().z + z,
    {
        let p = IVec3 {
            x: self.origin.x + x as i64,
            y: self.origin.y + y as i64,
            z: self.origin.z + z as i64,
        };
        self.cells.contains((p, 0u8))
    }

    /// The material of a cell of the piece's box, as it was before it was
    /// carved; air where nothing is known.
    pub fn material_at(&self, materials: &KeyMap<u16>, x: i32, y: i32, z: i32) -> (r: u16)
        requires
            i64::MIN <= self.spec_origin().x + x <= i64::MAX,
            i64::MIN <= self.spec_origin().y + y <= i64::MAX,
            i64::MIN <= self.spec_origin().z + z <= i64::MAX,
        ensures
            ({
                let key = (world_cell(self.spec_origin(), x, y, z), 0u8);
                r == (if materials@.dom().contains(key) {
                    materials@[key]
                } else {
                    0
                })
            }),
            forall|p: IVec3|
                p.x == self.spec_origin().x + x && p.y == self.spec_origin().y + y && p.z == self.spec_origin().z + z
                    && #[trigger] materials@.dom().contains((p, 0u8)) ==> r == materials@[(p, 0u8)],
    {
        let p = IVec3 {
            x: self.origin.x + x as i64,
            y: self.origin.y + y as i64,
            z: self.origin.z + z as i64,
        };
        match materials.get((p, 0u8)) {
            Some(m) => *m,
            None => 0,
        }
    }
}

/// Every voxel of a piece is a cell of its box, counted from its lower corner.
pub proof fn island_box_holds_its_voxels(voxels: Seq<IVec3>, i: int)
    requires
        0 <= i < voxels.len(),
        island_fits(voxels),
    ensures
        ({
            let b = bounds_of(voxels);
            &&& 0 <= voxels[i].x - b.lo.x < b.hi.x - b.lo.x + 1
            &&& 0 <= voxels[i].y - b.lo.y < b.hi.y - b.lo.y + 1
            &&& 0 <= voxels[i].z - b.lo.z < b.hi.z - b.lo.z + 1
            &&& world_cell(
                b.lo,
                (voxels[i].x - b.lo.x) as i32,
                (voxels[i].y - b.lo.y) as i32,
                (voxels[i].z - b.lo.z) as i32,
            ) == voxels[i]
        }),
{
    bounds_hold_every_cell(voxels, i);
    lemma_bounds_are_cells(voxels);
}

/// The requests to the host that are under way, its replies, and the refreshes
/// that they lead to.
pub struct FractureWorkers<P> {
    in_flight: usize,
    replies: VecDeque<FractureApplied>,
    refresh: BrickRefreshQueue<P>,
    has_host: bool,
}

impl<P> FractureWorkers<P> {
    /// Requests under way.
    pub closed spec fn requests(&self) -> nat {
        self.in_flight as nat
    }

    /// Replies that were not drained yet, oldest first.
    pub closed spec fn replies(&self) -> Seq<FractureApplied> {
        self.replies@
    }

    pub closed spec fn state(&self) -> RefreshState {
        self.refresh.state()
    }

    /// Finished refreshes that were not drained yet, oldest first.
    pub closed spec fn results(&self) -> Seq<BrickReady<P>> {
        self.refresh.results()
    }

    /// The cap on requests holds, only bricks in flight are pending, and a
    /// refresh under way was started by a dispatch.
    pub closed spec fn wf(&self) -> bool {
        &&& self.in_flight <= MAX_IN_FLIGHT_FRACTURES
        &&& self.refresh.wf()
        &&& !self.has_host ==> self.refresh.state().pending == Set::<Key>::empty()
    }

    pub fn new() -> (r: Self)
        ensures
            r.wf(),
            r.requests() == 0,
            r.replies().len() == 0,
            r.state() == (RefreshState { in_flight: Set::empty(), pending: Set::empty() }),
            r.results().len() == 0,
    {
        FractureWorkers {
            in_flight: 0,
            replies: VecDeque::new(),
            refresh: BrickRefreshQueue::new(),
            has_host: false,
        }
    }

    /// Number of requests under way.
    pub fn in_flight_count(&self) -> (r: usize)
        ensures
            r as nat == self.requests(),
    {
        self.in_flight
    }

    /// Claims a request to the host. `true` means that the caller has to send
    /// it; at the cap nothing happens, and the edit does not fracture.
    pub fn dispatch_fracture(&mut self) -> (r: bool)
        requires
            old(self).wf(),
        ensures
            final(self).wf(),
            r == (old(self).requests() < MAX_IN_FLIGHT_FRACTURES),
            r <==> old(self).requests() < 8,
            final(self).requests() == old(self).requests() + (if r {
                1nat
            } else {
                0nat
            }),
            final(self).replies() == old(self).replies(),
            final(self).state() == old(self).state(),
            final(self).results() == old(self).results(),
    {
        if self.in_flight >= MAX_IN_FLIGHT_FRACTURES {
            return false;
        }
        self.in_flight += 1;
        true
    }

    /// Queues a reply of the host.
    pub fn deliver_reply(&mut self, reply: FractureApplied)
        requires
            old(self).wf(),
        ensures
            final(self).wf(),
            final(self).requests() == old(self).requests(),
            final(self).replies() == old(self).replies().push(reply),
            final(self).state() == old(self).state(),
            final(self).results() == old(self).results(),
    {
        self.replies.push_back(reply);
    }

    /// Hands out all replies; their requests are no longer under way.
    pub fn drain_applied(&mut self) -> (r: Vec<FractureApplied>)
        requires
            old(self).wf(),
        ensures
            final(self).wf(),
            r@ == old(self).replies(),
            final(self).replies().len() == 0,
            final(self).requests() as int == (if old(self).requests() >= r@.len() {
                old(self).requests() - r@.len()
            } else {
                0
            }),
            final(self).state() == old(self).state(),
            final(self).results() == old(self).results(),
    {
        let mut out: Vec<FractureApplied> = Vec::new();
        let ghost all = self.replies();
        let ghost start = self.requests();
        proof {
            assert(all.skip(0) =~= all);
            assert(out@ =~= all.take(0));
        }
        while self.replies.len() > 0
            invariant
                all == old(self).replies(),
                start == old(self).requests(),
                self.wf(),
                out@.len() <= all.len(),
                out@ == all.take(out@.len() as int),
                self.replies() == all.skip(out@.len() as int),
                self.requests() as int == (if start >= out@.len() {
                    start - out@.len()
                } else {
                    0
                }),
                self.state() == old(self).state(),
                self.results() == old(self).results(),
            decreases self.replies().len(),
        {
            let ghost n = out@.len() as int;
            match self.replies.pop_front() {
                Some(a) => {
                    self.in_flight = self.in_flight.saturating_sub(1);
                    out.push(a);
                    proof {
                        assert(a == all[n]);
                        assert(out@ =~= all.take(n + 1));
                        assert(self.replies() =~= all.skip(n + 1));
                    }
                },
                None => {},
            }
        }
        proof {
            assert(all.take(all.len() as int) =~= all);
        }
        out
    }

    /// Claims carved bricks for refresh. The caller fetches those that come
    /// back; the others are under way and will be fetched again.
    pub fn dispatch_brick_refresh(&mut self, bricks: &Vec<Key>) -> (r: Vec<Key>)
        requires
            old(self).wf(),
        ensures
            final(self).wf(),
            r@ == fresh_keys(old(self).state().in_flight, bricks@),
            final(self).state().in_flight == old(self).state().in_flight.union(bricks@.to_set()),
            final(self).state().pending == old(self).state().pending.union(
                repeated_keys(old(self).state().in_flight, bricks@),
            ),
            final(self).results() == old(self).results(),
            final(self).requests() == old(self).requests(),
            final(self).replies() == old(self).replies(),
    {
        if bricks.len() == 0 {
            proof {
                let s = self.state();
                assert(bricks@ =~= Seq::<Key>::empty());
                assert(s.in_flight.union(bricks@.to_set()) =~= s.in_flight);
                assert(s.pending.union(repeated_keys(s.in_flight, bricks@)) =~= s.pending);
            }
            return Vec::new();
        }
        self.has_host = true;
        self.refresh.claim(bricks)
    }

    /// Queues a finished refresh.
    pub fn deliver(&mut self, ready: BrickReady<P>)
        requires
            old(self).wf(),
        ensures
            final(self).wf(),
            final(self).state() == old(self).state(),
            final(self).results() == old(self).results().push(ready),
            final(self).requests() == old(self).requests(),
            final(self).replies() == old(self).replies(),
    {
        self.refresh.deliver(ready);
    }

    /// Hands out the finished refreshes, and the bricks that the caller has to
    /// fetch once more because they were carved meanwhile.
    pub fn drain_refresh(&mut self) -> (r: (Vec<BrickReady<P>>, Vec<Key>))
        requires
            old(self).wf(),
        ensures
            final(self).wf(),
            r.0@ == old(self).results(),
            final(self).results().len() == 0,
            (final(self).state(), r.1@) == land_all(old(self).state(), ready_keys(r.0@)),
            final(self).requests() == old(self).requests(),
            final(self).replies() == old(self).replies(),
    {
        let drained: (Vec<BrickReady<P>>, Vec<Key>) = self.refresh.drain();
        proof {
            if !old(self).has_host {
                lemma_nothing_pending(old(self).state(), ready_keys(drained.0@));
            }
        }
        if drained.1.len() > 0 && !self.has_host {
            return (drained.0, Vec::new());
        }
        drained
    }

    /// Number of refreshes under way.
    pub fn refresh_in_flight_count(&self) -> (r: usize)
        ensures
            self.state().in_flight.finite(),
            r as nat == self.state().in_flight.len(),
    {
        self.refresh.in_flight_count()
    }
}

impl FractureApplied {
    /// Every piece of the reply can be measured.
    pub open spec fn measurable(self) -> bool {
        forall|i: int| 0 <= i < self.commands@.len() ==> piece_fits(#[trigger] self.commands@[i])
    }

    /// Whether every piece of the reply can be measured.
    pub fn is_measurable(&self) -> (r: bool)
        ensures
            r == self.measurable(),
    {
        let mut i: usize = 0;
        while i < self.commands.len()
            invariant
                i <= self.commands@.len(),
                forall|k: int| 0 <= k < i ==> piece_fits(#[trigger] self.commands@[k]),
            decreases self.commands@.len() - i,
        {
            match &self.commands[i] {
                FractureCommand::SpawnDebris { id: _, voxels } => {
                    if voxels.len() > 0 {
                        let b: Bounds = find_bounds(voxels);
                        let top: i128 = i32::MAX as i128;
                        let fits: bool = (b.hi.x as i128) - (b.lo.x as i128) < top && (b.hi.y as i128) - (
                        b.lo.y as i128) < top && (b.hi.z as i128) - (b.lo.z as i128) < top;
                        if !fits {
                            assert(!piece_fits(self.commands@[i as int]));
                            return false;
                        }
                    }
                },
                FractureCommand::SetVoxel { pos: _, before: _, after: _ } => {},
            }
            i += 1;
        }
        true
    }
}

/// The piece that a command spawns, if it does, can be measured.
pub open spec fn piece_fits(command: FractureCommand) -> bool {
    match command {
        FractureCommand::SpawnDebris { id: _, voxels } => voxels@.len() > 0 ==> island_fits(voxels@),
        FractureCommand::SetVoxel { .. } => true,
    }
}

/// A piece that falls, under the number that the host gave it.
pub struct FallingPiece {
    pub id: u32,
    pub source: IslandSource,
}

/// What a reply of the host leads to.
pub struct CarvedReply {
    /// The materials of the carved voxels, as they were.
    pub materials: KeyMap<u16>,
    pub pieces: Vec<FallingPiece>,
    /// The bricks to fetch again.
    pub fetch: Vec<Key>,
}

/// The pieces that the first `n` commands spawn, each with its number.
pub open spec fn spawned_pieces(commands: Seq<FractureCommand>, n: int) -> Seq<(u32, Seq<IVec3>)>
    decreases n,
{
    if n <= 0 {
        Seq::empty()
    } else {
        let front = spawned_pieces(commands, n - 1);
        match commands[n - 1] {
            FractureCommand::SpawnDebris { id, voxels } if voxels@.len() > 0 => front.push((id, voxels@)),
            _ => front,
        }
    }
}

/// The pieces are those that commands spawn.
pub open spec fn are_pieces(pieces: Seq<FallingPiece>, spawned: Seq<(u32, Seq<IVec3>)>) -> bool {
    &&& pieces.len() == spawned.len()
    &&& forall|i: int|
        0 <= i < pieces.len() ==> (#[trigger] pieces[i]).id == spawned[i].0 && pieces[i].source.made_of(
            spawned[i].1,
        )
}

/// The live bricks that a reply carves.
pub open spec fn reply_bricks(reply: FractureApplied, chunks: Map<ChunkKey, LoadedChunk>) -> Set<ChunkKey> {
    carved_bricks(reply.commands@, chunks, reply.commands@.len() as int)
}

/// A reply was read: the materials are those before the carving, the pieces
/// those that the host spawned, and every live brick that was carved is fetched
/// again unless it is already in flight.
pub open spec fn is_carved(
    r: CarvedReply,
    reply: FractureApplied,
    chunks: Map<ChunkKey, LoadedChunk>,
    in_flight: Set<Key>,
) -> bool {
    &&& r.materials@ == carved(reply.commands@, reply.commands@.len() as int)
    &&& are_pieces(r.pieces@, spawned_pieces(reply.commands@, reply.commands@.len() as int))
    &&& r.fetch@.no_duplicates()
    &&& forall|k: Key| #[trigger]
        r.fetch@.contains(k) <==> reply_bricks(reply, chunks).contains(k) && !in_flight.contains(k)
}

/// The refreshes under way and pending once the first `n` replies were read.
/// A carved brick that is already in flight is fetched once more when it lands.
pub open spec fn after_replies(
    s: RefreshState,
    replies: Seq<FractureApplied>,
    chunks: Map<ChunkKey, LoadedChunk>,
    n: int,
) -> RefreshState
    decreases n,
{
    if n <= 0 {
        s
    } else {
        let t = after_replies(s, replies, chunks, n - 1);
        let bricks = reply_bricks(replies[n - 1], chunks);
        RefreshState {
            in_flight: t.in_flight.union(bricks),
            pending: t.pending.union(bricks.intersect(t.in_flight)),
        }
    }
}

fn bake_pieces(commands: &Vec<FractureCommand>) -> (r: Vec<FallingPiece>)
    requires
        forall|i: int| 0 <= i < commands@.len() ==> piece_fits(#[trigger] commands@[i]),
    ensures
        are_pieces(r@, spawned_pieces(commands@, commands@.len() as int)),
{
    let mut out: Vec<FallingPiece> = Vec::new();
    let mut i: usize = 0;
    while i < commands.len()
        invariant
            i <= commands@.len(),
            forall|k: int| 0 <= k < commands@.len() ==> piece_fits(#[trigger] commands@[k]),
            are_pieces(out@, spawned_pieces(commands@, i as int)),
        decreases commands@.len() - i,
    {
        assert(piece_fits(commands@[i as int]));
        match &commands[i] {
            FractureCommand::SpawnDebris { id, voxels } => {
                match IslandSource::bake_island(voxels) {
                    Some(source) => {
                        out.push(FallingPiece { id: *id, source });
                    },
                    None => {},
                }
            },
            FractureCommand::SetVoxel { pos: _, before: _, after: _ } => {},
        }
        i += 1;
    }
    out
}

/// Without repetitions, the keys that are repeated are those in flight.
proof fn lemma_repeated(in_flight: Set<Key>, keys: Seq<Key>)
    requires
        keys.no_duplicates(),
    ensures
        repeated_keys(in_flight, keys) == keys.to_set().intersect(in_flight),
{
    assert forall|k: Key| repeated_keys(in_flight, keys).contains(k) <==> keys.to_set().intersect(
        in_flight,
    ).contains(k) by {
        if repeated_keys(in_flight, keys).contains(k) {
            let i = choose|i: int|
                0 <= i < keys.len() && #[trigger] keys[i] == k && (in_flight.contains(k)
                    || keys.take(i).contains(k));
            if keys.take(i).contains(k) {
                let j = keys.take(i).index_of(k);
                assert(keys[j] == k);
            }
        }
        if keys.to_set().intersect(in_flight).contains(k) {
            let i = keys.index_of(k);
            assert(keys[i] == k);
        }
    }
    assert(repeated_keys(in_flight, keys) =~= keys.to_set().intersect(in_flight));
}

/// Reads one reply of the host and claims the carved bricks for refresh.
fn apply_reply<P>(reply: &FractureApplied, loaded: &LoadedChunks, workers: &mut FractureWorkers<P>) -> (r: CarvedReply)
    requires
        old(workers).wf(),
        reply.measurable(),
    ensures
        final(workers).wf(),
        is_carved(r, *reply, loaded@, old(workers).state().in_flight),
        final(workers).state() == (RefreshState {
            in_flight: old(workers).state().in_flight.union(reply_bricks(*reply, loaded@)),
            pending: old(workers).state().pending.union(
                reply_bricks(*reply, loaded@).intersect(old(workers).state().in_flight),
            ),
        }),
        final(workers).results() == old(workers).results(),
        final(workers).requests() == old(workers).requests(),
        final(workers).replies() == old(workers).replies(),
{
    let reading: FractureReading = read_commands(&reply.commands, loaded);
    let pieces: Vec<FallingPiece> = bake_pieces(&reply.commands);
    let fetch: Vec<Key> = workers.dispatch_brick_refresh(&reading.touched);
    proof {
        let flight = old(workers).state().in_flight;
        lemma_repeated(flight, reading.touched@);
        no_brick_is_fetched_twice(flight, reading.touched@);
        assert forall|k: Key| #[trigger] fetch@.contains(k) <==> reply_bricks(*reply, loaded@).contains(k)
            && !flight.contains(k) by {
            assert(reading.touched@.to_set().contains(k) <==> reading.touched@.contains(k));
        }
    }
    CarvedReply { materials: reading.materials, pieces, fetch }
}

/// What one frame of fractures leads to.
pub struct FractureFrame<P> {
    /// Refreshed bricks to swap in.
    pub show: Vec<BrickReady<P>>,
    /// Bricks to fetch once more because they were carved meanwhile.
    pub refetch: Vec<Key>,
    /// What the host's replies lead to, in their order.
    pub carved: Vec<CarvedReply>,
    /// Requests to the host that are under way.
    pub in_flight: usize,
    /// Refreshes that are under way.
    pub refresh_in_flight: usize,
}

/// One frame of fractures: swaps in the refreshes that finished, then reads the
/// host's replies, and claims the carved bricks for refresh.
pub fn apply_fracture_results<P>(loaded: &LoadedChunks, workers: &mut FractureWorkers<P>) -> (r: FractureFrame<P>)
    requires
        old(workers).wf(),
        forall|i: int| 0 <= i < old(workers).replies().len() ==> (#[trigger] old(workers).replies()[i]).measurable(),
    ensures
        final(workers).wf(),
        final(workers).results().len() == 0,
        final(workers).replies().len() == 0,
        ({
            let replies = old(workers).replies();
            let (landed, redo) = land_all(old(workers).state(), ready_keys(old(workers).results()));
            &&& r.show@ == live_ready(old(workers).results(), loaded@)
            &&& r.refetch@ == redo
            &&& r.carved@.len() == replies.len()
            &&& forall|k: int|
                0 <= k < replies.len() ==> is_carved(
                    #[trigger] r.carved@[k],
                    replies[k],
                    loaded@,
                    after_replies(landed, replies, loaded@, k).in_flight,
                )
            &&& final(workers).state() == after_replies(landed, replies, loaded@, replies.len() as int)
            &&& r.in_flight as int == (if old(workers).requests() >= replies.len() {
                old(workers).requests() - replies.len()
            } else {
                0
            })
        }),
        r.in_flight as nat == final(workers).requests(),
        r.refresh_in_flight as nat == final(workers).state().in_flight.len(),
{
    let ghost replies = workers.replies();
    let (ready, refetch): (Vec<BrickReady<P>>, Vec<Key>) = workers.drain_refresh();
    let ghost landed = workers.state();
    let show: Vec<BrickReady<P>> = keep_live(ready, loaded);
    let applied: Vec<FractureApplied> = workers.drain_applied();
    let ghost requests = workers.requests();
    let mut carved: Vec<CarvedReply> = Vec::new();
    let mut i: usize = 0;
    while i < applied.len()
        invariant
            i <= applied@.len(),
            applied@ == replies,
            forall|k: int| 0 <= k < replies.len() ==> (#[trigger] replies[k]).measurable(),
            workers.wf(),
            workers.results().len() == 0,
            workers.replies().len() == 0,
            workers.requests() == requests,
            workers.state() == after_replies(landed, replies, loaded@, i as int),
            carved@.len() == i,
            forall|k: int|
                0 <= k < i ==> is_carved(
                    #[trigger] carved@[k],
                    replies[k],
                    loaded@,
                    after_replies(landed, replies, loaded@, k).in_flight,
                ),
        decreases applied@.len() - i,
    {
        let one: CarvedReply = apply_reply(&applied[i], loaded, workers);
        carved.push(one);
        i += 1;
    }
    FractureFrame {
        show,
        refetch,
        carved,
        in_flight: workers.in_flight_count(),
        refresh_in_flight: workers.refresh_in_flight_count(),
    }
}

/// The bounds of cells are reached: along each axis some cell lies at the lowest
/// and some at the highest coordinate.
pub proof fn bounds_are_reached(cells: Seq<IVec3>, pick: spec_fn(IVec3) -> int)
    requires
        cells.len() > 0,
    ensures
        exists|i: int| 0 <= i < cells.len() && pick(#[trigger] cells[i]) == lowest(cells, pick),
        exists|i: int| 0 <= i < cells.len() && pick(#[trigger] cells[i]) == highest(cells, pick),
        forall|i: int|
            0 <= i < cells.len() ==> lowest(cells, pick) <= pick(#[trigger] cells[i]) <= highest(cells, pick),
    decreases cells.len(),
{
    if cells.len() == 1 {
        assert(pick(cells[0]) == lowest(cells, pick));
    } else {
        let front = cells.drop_last();
        let n = cells.len() - 1;
        bounds_are_reached(front, pick);
        assert(cells[n] == cells.last());
        let i = choose|i: int| 0 <= i < front.len() && pick(#[trigger] front[i]) == lowest(front, pick);
        let j = choose|j: int| 0 <= j < front.len() && pick(#[trigger] front[j]) == highest(front, pick);
        assert(cells[i] == front[i] && cells[j] == front[j]);
        assert forall|k: int| 0 <= k < cells.len() implies lowest(cells, pick) <= pick(#[trigger] cells[k])
            <= highest(cells, pick) by {
            if k < n {
                assert(cells[k] == front[k]);
            }
        }
    }
}

proof fn lemma_bounds_are(bricks: Seq<IVec3>, lo: IVec3, hi: IVec3)
    requires
        bricks.len() > 0,
        forall|i: int|
            0 <= i < bricks.len() ==> lo.x <= (#[trigger] bricks[i]).x <= hi.x && lo.y <= bricks[i].y <= hi.y
                && lo.z <= bricks[i].z <= hi.z,
        exists|i: int| 0 <= i < bricks.len() && (#[trigger] bricks[i]).x == lo.x,
        exists|i: int| 0 <= i < bricks.len() && (#[trigger] bricks[i]).y == lo.y,
        exists|i: int| 0 <= i < bricks.len() && (#[trigger] bricks[i]).z == lo.z,
        exists|i: int| 0 <= i < bricks.len() && (#[trigger] bricks[i]).x == hi.x,
        exists|i: int| 0 <= i < bricks.len() && (#[trigger] bricks[i]).y == hi.y,
        exists|i: int| 0 <= i < bricks.len() && (#[trigger] bricks[i]).z == hi.z,
    ensures
        bounds_of(bricks) == (Bounds { lo, hi }),
{
    bounds_are_reached(bricks, x_of());
    bounds_are_reached(bricks, y_of());
    bounds_are_reached(bricks, z_of());
    let a = choose|i: int| 0 <= i < bricks.len() && (#[trigger] bricks[i]).x == lo.x;
    assert(x_of()(bricks[a]) == lo.x);
    let b = choose|i: int| 0 <= i < bricks.len() && (#[trigger] bricks[i]).y == lo.y;
    assert(y_of()(bricks[b]) == lo.y);
    let c = choose|i: int| 0 <= i < bricks.len() && (#[trigger] bricks[i]).z == lo.z;
    assert(z_of()(bricks[c]) == lo.z);
    let d = choose|i: int| 0 <= i < bricks.len() && (#[trigger] bricks[i]).x == hi.x;
    assert(x_of()(bricks[d]) == hi.x);
    let e = choose|i: int| 0 <= i < bricks.len() && (#[trigger] bricks[i]).y == hi.y;
    assert(y_of()(bricks[e]) == hi.y);
    let f = choose|i: int| 0 <= i < bricks.len() && (#[trigger] bricks[i]).z == hi.z;
    assert(z_of()(bricks[f]) == hi.z);
    let p = choose|i: int| 0 <= i < bricks.len() && x_of()(#[trigger] bricks[i]) == lowest(bricks, x_of());
    let q = choose|i: int| 0 <= i < bricks.len() && y_of()(#[trigger] bricks[i]) == lowest(bricks, y_of());
    let r = choose|i: int| 0 <= i < bricks.len() && z_of()(#[trigger] bricks[i]) == lowest(bricks, z_of());
    let s = choose|i: int| 0 <= i < bricks.len() && x_of()(#[trigger] bricks[i]) == highest(bricks, x_of());
    let t = choose|i: int| 0 <= i < bricks.len() && y_of()(#[trigger] bricks[i]) == highest(bricks, y_of());
    let u = choose|i: int| 0 <= i < bricks.len() && z_of()(#[trigger] bricks[i]) == highest(bricks, z_of());
    assert(lo.x <= bricks[p].x && lo.y <= bricks[q].y && lo.z <= bricks[r].z);
    assert(bricks[s].x <= hi.x && bricks[t].y <= hi.y && bricks[u].z <= hi.z);
}

/// A removal that touches bricks asks the host about the middle of the box
/// around all of them, two voxels wider on every side, as long as that box holds
/// at most 48 cubed voxels: the point is as far from the lower side as from the
/// upper one along every axis. A larger box, no bricks, and a placement ask
/// nothing.
pub proof fn a_removal_asks_about_the_middle_of_what_it_touched(bricks: Seq<IVec3>, lo: IVec3, hi: IVec3)
    requires
        bricks.len() > 0,
        region_fits(bricks),
        forall|i: int|
            0 <= i < bricks.len() ==> lo.x <= (#[trigger] bricks[i]).x <= hi.x && lo.y <= bricks[i].y <= hi.y
                && lo.z <= bricks[i].z <= hi.z,
        exists|i: int| 0 <= i < bricks.len() && (#[trigger] bricks[i]).x == lo.x,
        exists|i: int| 0 <= i < bricks.len() && (#[trigger] bricks[i]).y == lo.y,
        exists|i: int| 0 <= i < bricks.len() && (#[trigger] bricks[i]).z == lo.z,
        exists|i: int| 0 <= i < bricks.len() && (#[trigger] bricks[i]).x == hi.x,
        exists|i: int| 0 <= i < bricks.len() && (#[trigger] bricks[i]).y == hi.y,
        exists|i: int| 0 <= i < bricks.len() && (#[trigger] bricks[i]).z == hi.z,
    ensures
        ({
            let (x0, x1) = (16 * lo.x - 2, 16 * hi.x + 18);
            let (y0, y1) = (16 * lo.y - 2, 16 * hi.y + 18);
            let (z0, z1) = (16 * lo.z - 2, 16 * hi.z + 18);
            let voxels = (x1 - x0) * (y1 - y0) * (z1 - z0);
            &&& voxels <= 48 * 48 * 48 ==> match impact_of(true, bricks) {
                Some(p) => p.x - x0 == x1 - p.x && p.y - y0 == y1 - p.y && p.z - z0 == z1 - p.z,
                None => false,
            }
            &&& voxels > 48 * 48 * 48 && x1 - x0 < 0x1_0000_0000 && y1 - y0 < 0x1_0000_0000 && z1 - z0
                < 0x1_0000_0000 ==> impact_of(true, bricks) is None
        }),
        impact_of(false, bricks) is None,
        impact_of(true, Seq::<IVec3>::empty()) is None,
{
    lemma_bounds_are(bricks, lo, hi);
    let dx = 16 * (hi.x - lo.x + 1) + 4;
    let dy = 16 * (hi.y - lo.y + 1) + 4;
    let dz = 16 * (hi.z - lo.z + 1) + 4;
    assert(bricks[0].x <= hi.x && bricks[0].y <= hi.y && bricks[0].z <= hi.z);
    if dx * dy * dz <= 48 * 48 * 48 {
        assert(dx <= 110592 && dy <= 110592 && dz <= 110592) by (nonlinear_arith)
            requires
                dx >= 20,
                dy >= 20,
                dz >= 20,
                dx * dy * dz <= 48 * 48 * 48,
        ;
    }
}

/// The region around touched bricks holds every voxel of every one of them, and
/// reaches two voxels further on every side of the outermost.
pub proof fn the_region_holds_every_touched_brick(bricks: Seq<IVec3>, i: int)
    requires
        0 <= i < bricks.len(),
    ensures
        ({
            let b = bounds_of(bricks);
            &&& 16 * b.lo.x - REGION_SKIRT + 2 <= 16 * bricks[i].x && 16 * bricks[i].x + 16 + 2 <= 16 * b.lo.x
                - REGION_SKIRT + span(b.lo.x as int, b.hi.x as int)
            &&& 16 * b.lo.y - REGION_SKIRT + 2 <= 16 * bricks[i].y && 16 * bricks[i].y + 16 + 2 <= 16 * b.lo.y
                - REGION_SKIRT + span(b.lo.y as int, b.hi.y as int)
            &&& 16 * b.lo.z - REGION_SKIRT + 2 <= 16 * bricks[i].z && 16 * bricks[i].z + 16 + 2 <= 16 * b.lo.z
                - REGION_SKIRT + span(b.lo.z as int, b.hi.z as int)
        }),
        REGION_SKIRT == 2,
{
    bounds_hold_every_cell(bricks, i);
    lemma_bounds_are_cells(bricks);
}

proof fn lemma_asked<A>(edits: Seq<VoxelEditEvent<A>>, room: nat, n: int) -> (at: Seq<int>)
    requires
        0 <= n <= edits.len(),
    ensures
        asked(edits.take(n), room).len() <= room,
        is_selection(at, n, |i: int| impact_of(edits[i].removed, edits[i].bricks@) is Some),
        asked(edits.take(n), room).len() == (if at.len() <= room {
            at.len()
        } else {
            room
        }),
        forall|p: int|
            0 <= p < asked(edits.take(n), room).len() ==> #[trigger] asked(edits.take(n), room)[p] == (
                edits[at[p]].addr,
                impact_of(edits[at[p]].removed, edits[at[p]].bricks@)->0,
            ),
    decreases n,
{
    let wanted = |i: int| impact_of(edits[i].removed, edits[i].bricks@) is Some;
    if n == 0 {
        lemma_select_none(wanted);
        Seq::<int>::empty()
    } else {
        let front = lemma_asked(edits, room, n - 1);
        assert(edits.take(n).drop_last() =~= edits.take(n - 1));
        assert(edits.take(n).last() == edits[n - 1]);
        lemma_select_next(front, n - 1, wanted)
    }
}

/// The host is asked about every edit of a frame that may have loosened
/// something, each in its own world, in the order of the edits, as long as there
/// is room for requests; no more is asked.
pub proof fn every_carve_is_asked_about<A>(edits: Seq<VoxelEditEvent<A>>, room: nat) -> (at: Seq<int>)
    ensures
        is_selection(
            at,
            edits.len() as int,
            |i: int| impact_of(edits[i].removed, edits[i].bricks@) is Some,
        ),
        asked(edits, room).len() == (if at.len() <= room {
            at.len()
        } else {
            room
        }),
        forall|p: int|
            0 <= p < asked(edits, room).len() ==> (#[trigger] asked(edits, room)[p]).0 == edits[at[p]].addr && Some(
                asked(edits, room)[p].1,
            ) == impact_of(edits[at[p]].removed, edits[at[p]].bricks@),
{
    let at = lemma_asked(edits, room, edits.len() as int);
    assert(edits.take(edits.len() as int) =~= edits);
    at
}

/// A reply gives back, for every voxel that it carves, the material that the
/// voxel had before the last carving of it; it knows of no other voxel.
pub proof fn a_carved_voxel_keeps_its_material(commands: Seq<FractureCommand>, n: int, p: IVec3)
    requires
        0 <= n <= commands.len(),
    ensures
        carved(commands, n).dom().contains((p, 0u8)) <==> exists|i: int|
            0 <= i < n && (#[trigger] commands[i] matches FractureCommand::SetVoxel { pos, .. } && pos == p),
        forall|i: int|
            0 <= i < n && (#[trigger] commands[i] matches FractureCommand::SetVoxel { pos, .. } && pos == p) && (
            forall|j: int|
                i < j < n ==> !(#[trigger] commands[j] matches FractureCommand::SetVoxel { pos, .. } && pos == p))
                ==> Voxel(carved(commands, n)[(p, 0u8)]) == commands[i]->before,
    decreases n,
{
    if n > 0 {
        a_carved_voxel_keeps_its_material(commands, n - 1, p);
        let last = commands[n - 1];
        if exists|i: int|
            0 <= i < n - 1 && (#[trigger] commands[i] matches FractureCommand::SetVoxel { pos, .. } && pos == p) {
            let i = choose|i: int|
                0 <= i < n - 1 && (#[trigger] commands[i] matches FractureCommand::SetVoxel { pos, .. } && pos == p);
            assert(commands[i] matches FractureCommand::SetVoxel { pos, .. } && pos == p);
        }
        assert forall|i: int|
            0 <= i < n && (#[trigger] commands[i] matches FractureCommand::SetVoxel { pos, .. } && pos == p) && (
            forall|j: int|
                i < j < n ==> !(#[trigger] commands[j] matches FractureCommand::SetVoxel { pos, .. } && pos == p)) implies Voxel(
            carved(commands, n)[(p, 0u8)],
        ) == commands[i]->before by {
            if i < n - 1 {
                assert(!(commands[n - 1] matches FractureCommand::SetVoxel { pos, .. } && pos == p));
            }
        }
    }
}

/// A brick is refreshed after a reply exactly where the reply carves a voxel of
/// it and it is loaded at the finest level and not fading out.
pub proof fn every_carved_live_brick_is_refreshed(
    commands: Seq<FractureCommand>,
    chunks: Map<ChunkKey, LoadedChunk>,
    n: int,
    k: ChunkKey,
)
    requires
        0 <= n <= commands.len(),
    ensures
        carved_bricks(commands, chunks, n).contains(k) <==> k.1 == 0 && chunks.dom().contains(k)
            && !chunks[k].is_fading_out && exists|i: int|
            0 <= i < n && (#[trigger] commands[i] matches FractureCommand::SetVoxel { pos, .. } && 16 * k.0.x
                <= pos.x < 16 * k.0.x + 16 && 16 * k.0.y <= pos.y < 16 * k.0.y + 16 && 16 * k.0.z <= pos.z < 16
                * k.0.z + 16),
    decreases n,
{
    if n > 0 {
        every_carved_live_brick_is_refreshed(commands, chunks, n - 1, k);
        match commands[n - 1] {
            FractureCommand::SetVoxel { pos, .. } => {
                assert(16 * k.0.x <= pos.x < 16 * k.0.x + 16 <==> k.0.x as int == pos.x as int / 16);
                assert(16 * k.0.y <= pos.y < 16 * k.0.y + 16 <==> k.0.y as int == pos.y as int / 16);
                assert(16 * k.0.z <= pos.z < 16 * k.0.z + 16 <==> k.0.z as int == pos.z as int / 16);
            },
            _ => {},
        }
        if exists|i: int|
            0 <= i < n - 1 && (#[trigger] commands[i] matches FractureCommand::SetVoxel { pos, .. } && 16 * k.0.x
                <= pos.x < 16 * k.0.x + 16 && 16 * k.0.y <= pos.y < 16 * k.0.y + 16 && 16 * k.0.z <= pos.z < 16
                * k.0.z + 16) {
            let i = choose|i: int|
                0 <= i < n - 1 && (#[trigger] commands[i] matches FractureCommand::SetVoxel { pos, .. } && 16
                    * k.0.x <= pos.x < 16 * k.0.x + 16 && 16 * k.0.y <= pos.y < 16 * k.0.y + 16 && 16 * k.0.z
                    <= pos.z < 16 * k.0.z + 16);
            assert(commands[i] is SetVoxel);
        }
    }
}

proof fn lemma_spawned(commands: Seq<FractureCommand>, n: int) -> (at: Seq<int>)
    requires
        0 <= n <= commands.len(),
    ensures
        is_selection(
            at,
            n,
            |i: int| commands[i] matches FractureCommand::SpawnDebris { voxels, .. } && voxels@.len() > 0,
        ),
        spawned_pieces(commands, n).len() == at.len(),
        forall|p: int|
            0 <= p < at.len() ==> (#[trigger] spawned_pieces(commands, n)[p]).0 == commands[at[p]]->id
                && spawned_pieces(commands, n)[p].1 == commands[at[p]]->voxels@,
    decreases n,
{
    let wanted = |i: int|
        commands[i] matches FractureCommand::SpawnDebris { voxels, .. } && voxels@.len() > 0;
    if n == 0 {
        lemma_select_none(wanted);
        Seq::<int>::empty()
    } else {
        let front = lemma_spawned(commands, n - 1);
        lemma_select_next(front, n - 1, wanted)
    }
}

/// Every piece that the host spawns falls, under its number, in the order of the
/// commands, and nothing else does: its cells are exactly the host's voxels, and
/// its box is the smallest around them.
pub proof fn every_spawned_piece_falls(commands: Seq<FractureCommand>, pieces: Seq<FallingPiece>) -> (at: Seq<int>)
    requires
        are_pieces(pieces, spawned_pieces(commands, commands.len() as int)),
    ensures
        is_selection(
            at,
            commands.len() as int,
            |i: int| commands[i] matches FractureCommand::SpawnDebris { voxels, .. } && voxels@.len() > 0,
        ),
        pieces.len() == at.len(),
        forall|p: int| 0 <= p < at.len() ==> (#[trigger] pieces[p]).id == commands[at[p]]->id,
        forall|p: int, v: IVec3|
            0 <= p < at.len() ==> ((#[trigger] pieces[p]).source.spec_cells().contains((v, 0u8))
                <==> #[trigger] commands[at[p]]->voxels@.contains(v)),
        forall|p: int, v: IVec3|
            0 <= p < at.len() && #[trigger] commands[at[p]]->voxels@.contains(v) ==> {
                let s = (#[trigger] pieces[p]).source;
                &&& 0 <= v.x - s.spec_origin().x < s.spec_dims().0
                &&& 0 <= v.y - s.spec_origin().y < s.spec_dims().1
                &&& 0 <= v.z - s.spec_origin().z < s.spec_dims().2
            },
{
    let n = commands.len() as int;
    let at = lemma_spawned(commands, n);
    let spawned = spawned_pieces(commands, n);
    assert forall|p: int, v: IVec3|
        0 <= p < at.len() && #[trigger] commands[at[p]]->voxels@.contains(v) implies ({
        let s = (#[trigger] pieces[p]).source;
        &&& 0 <= v.x - s.spec_origin().x < s.spec_dims().0
        &&& 0 <= v.y - s.spec_origin().y < s.spec_dims().1
        &&& 0 <= v.z - s.spec_origin().z < s.spec_dims().2
    }) by {
        let voxels = commands[at[p]]->voxels@;
        let i = voxels.index_of(v);
        bounds_hold_every_cell(voxels, i);
        lemma_bounds_are_cells(voxels);
        assert(spawned[p].1 == voxels);
    }
    assert forall|p: int, v: IVec3|
        0 <= p < at.len() implies ((#[trigger] pieces[p]).source.spec_cells().contains((v, 0u8))
            <==> #[trigger] commands[at[p]]->voxels@.contains(v)) by {
        assert(spawned[p].1 == commands[at[p]]->voxels@);
    }
    at
}

/// Once all replies were read, every live brick that one of them carved is in
/// flight, what was in flight or pending stays so, and a brick that was in
/// flight when it was carved is pending.
pub proof fn every_carved_brick_is_on_its_way(
    s: RefreshState,
    replies: Seq<FractureApplied>,
    chunks: Map<ChunkKey, LoadedChunk>,
    n: int,
    k: ChunkKey,
)
    requires
        0 <= n <= replies.len(),
    ensures
        ({
            let t = after_replies(s, replies, chunks, n);
            &&& t.in_flight.contains(k) <==> s.in_flight.contains(k) || exists|i: int|
                0 <= i < n && carved_bricks(
                    (#[trigger] replies[i]).commands@,
                    chunks,
                    replies[i].commands@.len() as int,
                ).contains(k)
            &&& s.pending.contains(k) ==> t.pending.contains(k)
            &&& s.in_flight.contains(k) && (exists|i: int|
                0 <= i < n && carved_bricks(
                    (#[trigger] replies[i]).commands@,
                    chunks,
                    replies[i].commands@.len() as int,
                ).contains(k)) ==> t.pending.contains(k)
            &&& t.pending.contains(k) ==> s.pending.contains(k) || t.in_flight.contains(k)
        }),
    decreases n,
{
    if n > 0 {
        every_carved_brick_is_on_its_way(s, replies, chunks, n - 1, k);
        let last = replies[n - 1];
        if exists|i: int|
            0 <= i < n - 1 && carved_bricks(
                (#[trigger] replies[i]).commands@,
                chunks,
                replies[i].commands@.len() as int,
            ).contains(k) {
            let i = choose|i: int|
                0 <= i < n - 1 && carved_bricks(
                    (#[trigger] replies[i]).commands@,
                    chunks,
                    replies[i].commands@.len() as int,
                ).contains(k);
            assert(carved_bricks(replies[i].commands@, chunks, replies[i].commands@.len() as int).contains(k));
        }
        assert(reply_bricks(last, chunks) == carved_bricks(last.commands@, chunks, last.commands@.len() as int));
    }
}

/// What a reply leads to: its carved voxels' materials, its pieces, and a fetch
/// of every live brick that it carved and that is not in flight, each once.
pub proof fn a_reply_is_read_in_full(
    r: CarvedReply,
    reply: FractureApplied,
    chunks: Map<ChunkKey, LoadedChunk>,
    in_flight: Set<Key>,
    k: Key,
    p: IVec3,
)
    requires
        is_carved(r, reply, chunks, in_flight),
    ensures
        r.fetch@.no_duplicates(),
        r.fetch@.contains(k) <==> !in_flight.contains(k) && k.1 == 0 && chunks.dom().contains(k)
            && !chunks[k].is_fading_out && exists|i: int|
            0 <= i < reply.commands@.len() && (
            #[trigger] reply.commands@[i] matches FractureCommand::SetVoxel { pos, .. } && 16 * k.0.x <= pos.x < 16
                * k.0.x + 16 && 16 * k.0.y <= pos.y < 16 * k.0.y + 16 && 16 * k.0.z <= pos.z < 16 * k.0.z + 16),
        r.materials@.dom().contains((p, 0u8)) <==> exists|i: int|
            0 <= i < reply.commands@.len() && (
            #[trigger] reply.commands@[i] matches FractureCommand::SetVoxel { pos, .. } && pos == p),
        are_pieces(r.pieces@, spawned_pieces(reply.commands@, reply.commands@.len() as int)),
        r.materials@ == carved(reply.commands@, reply.commands@.len() as int),
{
    every_carved_live_brick_is_refreshed(reply.commands@, chunks, reply.commands@.len() as int, k);
    a_carved_voxel_keeps_its_material(reply.commands@, reply.commands@.len() as int, p);
}

} // verus!
