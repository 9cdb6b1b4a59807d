//! First-person voxel editing: the left button removes the voxel that the
//! crosshair points at, the right one places the selected material against the
//! face that was hit.
//!
//! The host alone changes the world. Here it is decided what to ask of it,
//! which bricks to refresh, and which resident voxels to patch at once.

use crate::brick_gen::{fresh_keys, land_all, ready_keys, repeated_keys, BrickReady};
use crate::coord::{floor_div, floor_rem, ChunkKey, IVec3};
use crate::input::{ButtonInput, KeyCode};
use crate::modes::edit_workers::EditApplyWorkers;
use crate::order::{is_selection, lemma_select_next, lemma_select_none};
use crate::view_mode::ViewMode;
use crate::voxel::{cell_index, in_brick, Brick, Voxel};
use crate::world_stream::{painted, same_but_brick, LoadedChunk, LoadedChunks};
use vstd::prelude::*;

verus! {

/// Smallest brush radius, in voxels.
pub const MIN_RADIUS: u32 = 1;

/// Largest brush radius, in voxels.
pub const MAX_RADIUS: u32 = 16;

/// The shape of an edit.
#[derive(Clone, Copy, Debug, PartialEq, Eq, Structural)]
pub enum ToolKind {
    /// One voxel.
    Voxel,
    Sphere,
    Cube,
    /// Treated as a sphere.
    Cone,
}

/// What the crosshair points at.
#[derive(Clone, Copy, Debug, PartialEq, Eq, Structural)]
pub struct WorldRayHit {
    /// The solid cell that was hit.
    pub cell: IVec3,
    /// The face that was hit; zero where the ray starts inside the cell.
    pub normal: IVec3,
    /// The cell in front of that face.
    pub place_cell: IVec3,
}

/// The editor's state.
#[derive(Clone, Copy, Debug)]
pub struct EditState {
    /// The material that is placed; never air.
    pub selected_material: u16,
    pub tool: ToolKind,
    /// Brush radius, in voxels.
    pub radius_voxels: u32,
    /// How far the crosshair reaches, in meters.
    pub reach_m: u32,
    pub last_hit: Option<WorldRayHit>,
    /// The cursor was locked at the end of the previous frame.
    pub prev_cursor_locked: bool,
}

impl Default for EditState {
    fn default() -> (r: Self)
        ensures
            r.wf(),
            r.selected_material == 1,
            r.tool is Voxel,
            r.radius_voxels == 2,
            r.reach_m == 6,
            r.last_hit is None,
            !r.prev_cursor_locked,
    {
        EditState {
            selected_material: 1,
            tool: ToolKind::Voxel,
            radius_voxels: 2,
            reach_m: 6,
            last_hit: None,
            prev_cursor_locked: false,
        }
    }
}

impl EditState {
    /// Air is never placed, and the radius stays in its range.
    pub open spec fn wf(&self) -> bool {
        &&& self.selected_material >= 1
        &&& MIN_RADIUS <= self.radius_voxels <= MAX_RADIUS
    }
}

/// The brick that a voxel lies in.
pub open spec fn spec_brick_of(cell: IVec3) -> IVec3 {
    IVec3 {
        x: (cell.x as int / 16) as i64,
        y: (cell.y as int / 16) as i64,
        z: (cell.z as int / 16) as i64,
    }
}

/// A voxel's place in its brick.
pub open spec fn local_of(cell: IVec3) -> IVec3 {
    IVec3 {
        x: (cell.x as int % 16) as i64,
        y: (cell.y as int % 16) as i64,
        z: (cell.z as int % 16) as i64,
    }
}

/// The brick that a voxel lies in, rounded down on every axis.
pub fn brick_of(cell: IVec3) -> (r: IVec3)
    ensures
        r == spec_brick_of(cell),
{
    IVec3 { x: floor_div(cell.x, 16), y: floor_div(cell.y, 16), z: floor_div(cell.z, 16) }
}

/// A voxel's place in its brick.
pub fn local_cell(cell: IVec3) -> (r: IVec3)
    ensures
        r == local_of(cell),
        in_brick(r),
{
    IVec3 { x: floor_rem(cell.x, 16), y: floor_rem(cell.y, 16), z: floor_rem(cell.z, 16) }
}

/// A voxel is found again from its brick and its place in it.
pub proof fn brick_and_local_make_the_cell(cell: IVec3)
    ensures
        in_brick(local_of(cell)),
        cell.x == 16 * spec_brick_of(cell).x + local_of(cell).x,
        cell.y == 16 * spec_brick_of(cell).y + local_of(cell).y,
        cell.z == 16 * spec_brick_of(cell).z + local_of(cell).z,
{
}

/// Two voxels with the same brick and the same place in it are the same.
pub proof fn brick_and_local_are_unique(a: IVec3, b: IVec3)
    requires
        spec_brick_of(a) == spec_brick_of(b),
        local_of(a) == local_of(b),
    ensures
        a == b,
{
    brick_and_local_make_the_cell(a);
    brick_and_local_make_the_cell(b);
}

/// The voxel at world cell `c`, read from the brick that holds it.
pub fn local_voxel(brick: &Brick, c: IVec3) -> (r: Voxel)
    requires
        brick.wf(),
    ensures
        r == brick.at(local_of(c)),
{
    brick.get(local_cell(c))
}

/// The voxel that the editor sees at a world cell: that of the resident brick,
/// else air.
pub open spec fn seen(chunks: Map<ChunkKey, LoadedChunk>, c: IVec3) -> Voxel {
    let key = (spec_brick_of(c), 0u8);
    if chunks.dom().contains(key) && chunks[key].brick is Some {
        chunks[key].brick->0.at(local_of(c))
    } else {
        Voxel(0)
    }
}

/// The voxel that the editor sees at a world cell.
pub fn sample_cell(loaded: &LoadedChunks, c: IVec3) -> (r: Voxel)
    requires
        loaded.wf(),
    ensures
        r == seen(loaded@, c),
{
    proof {
        loaded.lemma_wf();
    }
    match loaded.get(&(brick_of(c), 0)) {
        Some(chunk) => match &chunk.brick {
            Some(b) => local_voxel(b, c),
            None => Voxel(0),
        },
        None => Voxel(0),
    }
}

/// A brick is shown at the finest level and is not on its way out.
pub open spec fn is_live(chunks: Map<ChunkKey, LoadedChunk>, key: ChunkKey) -> bool {
    chunks.dom().contains(key) && !chunks[key].is_fading_out
}

/// The keys of those bricks that are live at the finest level, in order.
pub open spec fn live_keys(chunks: Map<ChunkKey, LoadedChunk>, affected: Seq<IVec3>) -> Seq<ChunkKey>
    decreases affected.len(),
{
    if affected.len() == 0 {
        Seq::empty()
    } else {
        let front = live_keys(chunks, affected.drop_last());
        if is_live(chunks, (affected.last(), 0u8)) {
            front.push((affected.last(), 0u8))
        } else {
            front
        }
    }
}

/// The bricks to refresh in place: loaded at the finest level and not fading
/// out.
pub fn keys_to_refresh(affected: &Vec<IVec3>, loaded: &LoadedChunks) -> (r: Vec<(IVec3, u8)>)
    ensures
        r@ == live_keys(loaded@, affected@),
{
    let mut out: Vec<(IVec3, u8)> = Vec::new();
    let mut i: usize = 0;
    proof {
        assert(affected@.take(0) =~= Seq::<IVec3>::empty());
    }
    while i < affected.len()
        invariant
            i <= affected@.len(),
            out@ == live_keys(loaded@, affected@.take(i as int)),
        decreases affected@.len() - i,
    {
        let key: (IVec3, u8) = (affected[i], 0u8);
        proof {
            assert(affected@.take(i + 1).drop_last() =~= affected@.take(i as int));
            assert(affected@.take(i + 1).last() == affected@[i as int]);
        }
        match loaded.get(&key) {
            Some(chunk) => {
                if !chunk.is_fading_out {
                    out.push(key);
                }
            },
            None => {},
        }
        i += 1;
    }
    proof {
        assert(affected@.take(affected@.len() as int) =~= affected@);
    }
    out
}

/// Whether a finished refresh may be swapped in: a brick that was evicted or is
/// fading out is not brought back.
pub fn accepts_refresh(loaded: &LoadedChunks, key: &(IVec3, u8)) -> (r: bool)
    ensures
        r == is_live(loaded@, *key),
{
    match loaded.get(key) {
        Some(chunk) => !chunk.is_fading_out,
        None => false,
    }
}

/// The finished refreshes that may be swapped in, in their order.
pub open spec fn live_ready<P>(
    ready: Seq<BrickReady<P>>,
    chunks: Map<ChunkKey, LoadedChunk>,
) -> Seq<BrickReady<P>>
    decreases ready.len(),
{
    if ready.len() == 0 {
        Seq::empty()
    } else {
        let front = live_ready(ready.drop_last(), chunks);
        if is_live(chunks, ready.last().spec_key()) {
            front.push(ready.last())
        } else {
            front
        }
    }
}

/// Keeps the finished refreshes that may be swapped in.
pub fn keep_live<P>(ready: Vec<BrickReady<P>>, loaded: &LoadedChunks) -> (r: Vec<BrickReady<P>>)
    ensures
        r@ == live_ready(ready@, loaded@),
{
    let ghost all = ready@;
    let mut rest: Vec<BrickReady<P>> = ready;
    let mut out: Vec<BrickReady<P>> = Vec::new();
    let ghost mut n: int = 0;
    proof {
        assert(all.take(0) =~= Seq::<BrickReady<P>>::empty());
        assert(all.skip(0) =~= all);
    }
    while rest.len() > 0
        invariant
            0 <= n <= all.len(),
            rest@ == all.skip(n),
            out@ == live_ready(all.take(n), loaded@),
        decreases rest@.len(),
    {
        let first: BrickReady<P> = rest.remove(0);
        proof {
            assert(all.take(n + 1).drop_last() =~= all.take(n));
            assert(all.take(n + 1).last() == first);
            assert(rest@ =~= all.skip(n + 1));
        }
        if accepts_refresh(loaded, &first.key()) {
            out.push(first);
        }
        proof {
            n = n + 1;
        }
    }
    proof {
        assert(all.take(n) =~= all);
    }
    out
}

/// What finished refreshes lead to: bricks to swap in, bricks to fetch once
/// more because they were edited meanwhile, and how many are still under way.
#[derive(Debug)]
pub struct Refreshes<P> {
    pub show: Vec<BrickReady<P>>,
    pub refetch: Vec<(IVec3, u8)>,
    pub in_flight: usize,
}

/// Drains the finished refreshes of edited bricks. The old brick stayed in view
/// until now, so the edit shows without a gap.
pub fn apply_edit_refreshes<P>(loaded: &LoadedChunks, workers: &mut EditApplyWorkers<P>) -> (r: Refreshes<P>)
    requires
        old(workers).wf(),
    ensures
        final(workers).wf(),
        final(workers).results().len() == 0,
        r.show@ == live_ready(old(workers).results(), loaded@),
        (final(workers).state(), r.refetch@) == land_all(
            old(workers).state(),
            ready_keys(old(workers).results()),
        ),
        r.in_flight as nat == final(workers).state().in_flight.len(),
{
    let (ready, refetch): (Vec<BrickReady<P>>, Vec<(IVec3, u8)>) = workers.drain_refresh();
    let show: Vec<BrickReady<P>> = keep_live(ready, loaded);
    Refreshes { show, refetch, in_flight: workers.refresh_in_flight_count() }
}

/// Sets one voxel of the resident world at once, as the host will. The editor
/// then sees it there, and sees every other cell as before.
pub fn patch_resident_voxel(loaded: &mut LoadedChunks, cell: IVec3, voxel: Voxel)
    requires
        old(loaded).wf(),
    ensures
        final(loaded).wf(),
        final(loaded)@.dom() == old(loaded)@.dom(),
        forall|k: ChunkKey| #[trigger]
            old(loaded)@.dom().contains(k) ==> same_but_brick(old(loaded)@[k], final(loaded)@[k]),
        forall|k: ChunkKey|
            old(loaded)@.dom().contains(k) && k != (spec_brick_of(cell), 0u8) ==> #[trigger] final(loaded)@[k] == old(loaded)@[k],
        forall|c: IVec3| #[trigger]
            seen(final(loaded)@, c) == (if c == cell && has_brick(old(loaded)@, cell) {
                voxel
            } else {
                seen(old(loaded)@, c)
            }),
{
    let ghost before = loaded@;
    proof {
        loaded.lemma_wf();
    }
    let local: IVec3 = local_cell(cell);
    let bc: IVec3 = brick_of(cell);
    loaded.patch_cell(&(bc, 0u8), local, voxel);
    proof {
        let after = loaded@;
        loaded.lemma_wf();
        assert forall|k: ChunkKey| #[trigger] before.dom().contains(k) implies same_but_brick(before[k], after[k]) by {
            if k != (bc, 0u8) {
                assert(after[k] == before[k]);
            }
        }
        assert forall|c: IVec3| #[trigger] seen(after, c) == (if c == cell && has_brick(before, cell) {
            voxel
        } else {
            seen(before, c)
        }) by {
            let key = (spec_brick_of(c), 0u8);
            brick_and_local_make_the_cell(c);
            brick_and_local_make_the_cell(cell);
            if key == (bc, 0u8) {
                if before.dom().contains(key) && before[key].brick is Some {
                    before[key].brick->0.lemma_len();
                    if local_of(c) == local_of(cell) {
                        brick_and_local_are_unique(c, cell);
                    } else {
                        let a = local_of(c);
                        let b = local_of(cell);
                        assert(cell_index(a.x as int, a.y as int, a.z as int) != cell_index(
                            b.x as int,
                            b.y as int,
                            b.z as int,
                        ));
                    }
                }
            } else if before.dom().contains(key) {
                assert(after[key] == before[key]);
            }
        }
    }
}

/// A cell lies in a resident brick.
pub open spec fn has_brick(chunks: Map<ChunkKey, LoadedChunk>, cell: IVec3) -> bool {
    let key = (spec_brick_of(cell), 0u8);
    chunks.dom().contains(key) && chunks[key].brick is Some
}

/// A brick that a brush touches, and which of its cells it covers, in the order
/// of [`cell_index`].
#[derive(Debug)]
pub struct BrushMask {
    pub brick: IVec3,
    pub covered: Vec<bool>,
}

/// The contents of resident bricks after a brush, as far as `masks` goes.
pub open spec fn brushed(cells: Seq<Voxel>, bc: IVec3, masks: Seq<BrushMask>, voxel: Voxel) -> Seq<Voxel>
    decreases masks.len(),
{
    if masks.len() == 0 {
        cells
    } else {
        let front = brushed(cells, bc, masks.drop_last(), voxel);
        if masks.last().brick == bc {
            painted(front, masks.last().covered@, voxel)
        } else {
            front
        }
    }
}

fn copy_mask(mask: &Vec<bool>) -> (r: Vec<bool>)
    ensures
        r@ == mask@,
{
    let mut out: Vec<bool> = Vec::new();
    let mut i: usize = 0;
    while i < mask.len()
        invariant
            i <= mask@.len(),
            out@ == mask@.take(i as int),
        decreases mask@.len() - i,
    {
        out.push(mask[i]);
        i += 1;
        proof {
            assert(out@ =~= mask@.take(i as int));
        }
    }
    proof {
        assert(mask@.take(i as int) =~= mask@);
    }
    out
}

/// Sets the voxels that a brush covers in every resident brick it touches.
pub fn patch_resident_brush(loaded: &mut LoadedChunks, masks: &Vec<BrushMask>, voxel: Voxel)
    requires
        old(loaded).wf(),
        forall|i: int| 0 <= i < masks@.len() ==> (#[trigger] masks@[i]).covered@.len() == 4096,
    ensures
        final(loaded).wf(),
        final(loaded)@.dom() == old(loaded)@.dom(),
        forall|k: ChunkKey| #[trigger]
            old(loaded)@.dom().contains(k) ==> same_but_brick(old(loaded)@[k], final(loaded)@[k]),
        forall|k: ChunkKey|
            old(loaded)@.dom().contains(k) && old(loaded)@[k].brick is Some ==> (
            #[trigger] final(loaded)@[k]).brick->0@ == (if k.1 == 0 {
                brushed(old(loaded)@[k].brick->0@, k.0, masks@, voxel)
            } else {
                old(loaded)@[k].brick->0@
            }),
        forall|c: IVec3| #[trigger]
            seen(final(loaded)@, c) == (if has_brick(old(loaded)@, c) && exists|m: int|
                0 <= m < masks@.len() && (#[trigger] masks@[m]).brick == spec_brick_of(c)
                    && masks@[m].covered@[cell_index(c.x as int % 16, c.y as int % 16, c.z as int % 16)] {
                voxel
            } else {
                seen(old(loaded)@, c)
            }),
{
    let ghost before = loaded@;
    proof {
        loaded.lemma_wf();
        assert(masks@.take(0) =~= Seq::<BrushMask>::empty());
        assert forall|k: ChunkKey| #[trigger] before.dom().contains(k) && before[k].brick is Some implies before[k].brick->0.wf() by {}
    }
    let mut i: usize = 0;
    while i < masks.len()
        invariant
            i <= masks@.len(),
            before == old(loaded)@,
            loaded.wf(),
            loaded@.dom() == before.dom(),
            forall|j: int| 0 <= j < masks@.len() ==> (#[trigger] masks@[j]).covered@.len() == 4096,
            forall|k: ChunkKey| #[trigger]
                before.dom().contains(k) ==> same_but_brick(before[k], loaded@[k]),
            forall|k: ChunkKey|
                before.dom().contains(k) && before[k].brick is Some ==> (#[trigger] loaded@[k]).brick->0@ == (
                if k.1 == 0 {
                    brushed(before[k].brick->0@, k.0, masks@.take(i as int), voxel)
                } else {
                    before[k].brick->0@
                }),
        decreases masks@.len() - i,
    {
        let ghost mid = loaded@;
        proof {
            assert(masks@.take(i + 1).drop_last() =~= masks@.take(i as int));
            assert(masks@.take(i + 1).last() == masks@[i as int]);
        }
        let mask: Vec<bool> = copy_mask(&masks[i].covered);
        let bc: IVec3 = masks[i].brick;
        loaded.patch_masked(&(bc, 0u8), mask, voxel);
        proof {
            let after = loaded@;
            assert forall|k: ChunkKey| #[trigger] before.dom().contains(k) implies same_but_brick(
                before[k],
                after[k],
            ) by {
                assert(same_but_brick(before[k], mid[k]));
                if k != (bc, 0u8) {
                    assert(after[k] == mid[k]);
                }
            }
            assert forall|k: ChunkKey|
                before.dom().contains(k) && before[k].brick is Some implies (
            #[trigger] after[k]).brick->0@ == (if k.1 == 0 {
                brushed(before[k].brick->0@, k.0, masks@.take(i + 1), voxel)
            } else {
                before[k].brick->0@
            }) by {
                assert(same_but_brick(before[k], mid[k]));
                assert(mid[k].brick is Some);
                if k != (bc, 0u8) {
                    assert(after[k] == mid[k]);
                }
            }
        }
        i += 1;
    }
    proof {
        assert(masks@.take(masks@.len() as int) =~= masks@);
        assert forall|c: IVec3| #[trigger] seen(loaded@, c) == (if has_brick(before, c) && exists|m: int|
            0 <= m < masks@.len() && (#[trigger] masks@[m]).brick == spec_brick_of(c)
                && masks@[m].covered@[cell_index(c.x as int % 16, c.y as int % 16, c.z as int % 16)] {
            voxel
        } else {
            seen(before, c)
        }) by {
            brick_and_local_make_the_cell(c);
            a_brush_edit_shows_where_it_covers(
                before,
                loaded@,
                masks@,
                voxel,
                c,
                spec_brick_of(c),
                c.x as int % 16,
                c.y as int % 16,
                c.z as int % 16,
            );
        }
    }
}

/// The highest digit key that went down, 0 for none.
pub open spec fn fresh_digit(keys: ButtonInput) -> u16 {
    if keys.is_fresh(KeyCode::Digit9) {
        9
    } else if keys.is_fresh(KeyCode::Digit8) {
        8
    } else if keys.is_fresh(KeyCode::Digit7) {
        7
    } else if keys.is_fresh(KeyCode::Digit6) {
        6
    } else if keys.is_fresh(KeyCode::Digit5) {
        5
    } else if keys.is_fresh(KeyCode::Digit4) {
        4
    } else if keys.is_fresh(KeyCode::Digit3) {
        3
    } else if keys.is_fresh(KeyCode::Digit2) {
        2
    } else if keys.is_fresh(KeyCode::Digit1) {
        1
    } else {
        0
    }
}

fn pressed_digit(keys: &ButtonInput) -> (r: u16)
    ensures
        r == fresh_digit(*keys),
{
    if keys.just_pressed(KeyCode::Digit9) {
        9
    } else if keys.just_pressed(KeyCode::Digit8) {
        8
    } else if keys.just_pressed(KeyCode::Digit7) {
        7
    } else if keys.just_pressed(KeyCode::Digit6) {
        6
    } else if keys.just_pressed(KeyCode::Digit5) {
        5
    } else if keys.just_pressed(KeyCode::Digit4) {
        4
    } else if keys.just_pressed(KeyCode::Digit3) {
        3
    } else if keys.just_pressed(KeyCode::Digit2) {
        2
    } else if keys.just_pressed(KeyCode::Digit1) {
        1
    } else {
        0
    }
}

/// The largest material number of a table with one slot per number, at least 1.
pub open spec fn max_material(slots: int) -> int {
    if slots <= 2 {
        1
    } else {
        slots - 1
    }
}

/// The tool that `Tab` leads to.
pub open spec fn next_tool(tool: ToolKind) -> ToolKind {
    match tool {
        ToolKind::Voxel => ToolKind::Sphere,
        ToolKind::Sphere => ToolKind::Cube,
        _ => ToolKind::Voxel,
    }
}

/// The radius after the bracket keys: one up, then one down, each within the
/// range.
pub open spec fn next_radius(radius: int, up: bool, down: bool) -> int {
    let a = if up {
        if radius + 1 < MAX_RADIUS {
            radius + 1
        } else {
            MAX_RADIUS as int
        }
    } else {
        radius
    };
    if down {
        if a - 1 > MIN_RADIUS {
            a - 1
        } else {
            MIN_RADIUS as int
        }
    } else {
        a
    }
}

/// The editor's state after one frame of keys while editing.
pub open spec fn after_keys(edit: EditState, keys: ButtonInput, slots: int) -> EditState {
    let digit = fresh_digit(keys);
    EditState {
        selected_material: if digit == 0 {
            edit.selected_material
        } else if digit as int > max_material(slots) {
            max_material(slots) as u16
        } else {
            digit
        },
        tool: if keys.is_fresh(KeyCode::Tab) {
            next_tool(edit.tool)
        } else {
            edit.tool
        },
        radius_voxels: next_radius(
            edit.radius_voxels as int,
            keys.is_fresh(KeyCode::BracketRight),
            keys.is_fresh(KeyCode::BracketLeft),
        ) as u32,
        ..edit
    }
}

/// Digits pick the material, `Tab` the tool, the brackets change the radius.
/// Only while a first-person view is editing; otherwise the keys mean other
/// things. `slots` is the size of the material table.
pub fn edit_select_tool_material(
    edit: &mut EditState,
    mode: ViewMode,
    keys: &ButtonInput,
    cursor_grabbed: bool,
    scripted_edit: bool,
    slots: usize,
)
    requires
        old(edit).wf(),
        slots <= 0x1_0000,
    ensures
        final(edit).wf(),
        *final(edit) == (if mode is Fp && (cursor_grabbed || scripted_edit) {
            after_keys(*old(edit), *keys, slots as int)
        } else {
            *old(edit)
        }),
{
    let editing: bool = cursor_grabbed || scripted_edit;
    if mode != ViewMode::Fp || !editing {
        return ;
    }
    let max_id: u16 = if slots <= 2 {
        1
    } else {
        (slots - 1) as u16
    };
    let digit: u16 = pressed_digit(keys);
    if digit != 0 {
        edit.selected_material = if digit > max_id {
            max_id
        } else {
            digit
        };
    }
    if keys.just_pressed(KeyCode::Tab) {
        edit.tool = match edit.tool {
            ToolKind::Voxel => ToolKind::Sphere,
            ToolKind::Sphere => ToolKind::Cube,
            _ => ToolKind::Voxel,
        };
    }
    if keys.just_pressed(KeyCode::BracketRight) {
        edit.radius_voxels = if edit.radius_voxels + 1 < MAX_RADIUS {
            edit.radius_voxels + 1
        } else {
            MAX_RADIUS
        };
    }
    if keys.just_pressed(KeyCode::BracketLeft) {
        edit.radius_voxels = if edit.radius_voxels - 1 > MIN_RADIUS {
            edit.radius_voxels - 1
        } else {
            MIN_RADIUS
        };
    }
}

/// Three presses of `Tab` lead back to the same tool; a cone, which no key
/// selects, leads into that cycle.
pub proof fn tools_cycle(tool: ToolKind)
    ensures
        !(tool is Cone) ==> next_tool(next_tool(next_tool(tool))) == tool,
        next_tool(tool) != tool,
        !(next_tool(tool) is Cone),
{
}

/// What a frame of editing is decided from.
#[derive(Clone, Copy, Debug)]
pub struct EditInput {
    /// A scripted run.
    pub scripted: bool,
    /// A scripted run that may edit.
    pub scripted_edit: bool,
    pub mode: ViewMode,
    /// The scene is set up.
    pub ready: bool,
    /// What the crosshair points at.
    pub hit: Option<WorldRayHit>,
    /// The cursor is locked now.
    pub locked_now: bool,
    /// The left button went down.
    pub remove: bool,
    /// The right button went down.
    pub place: bool,
}

/// An edit to make.
#[derive(Clone, Copy, Debug, PartialEq, Eq, Structural)]
pub struct EditAction {
    pub cell: IVec3,
    pub voxel: Voxel,
    /// A voxel is removed rather than placed.
    pub removed: bool,
}

impl EditInput {
    /// Editing is possible in this frame.
    pub open spec fn active(self) -> bool {
        (!self.scripted || self.scripted_edit) && self.mode is Fp && self.ready
    }
}

/// The edit that a frame asks for. The click that locks the cursor does not
/// edit; removing goes before placing; and placing needs a face to place
/// against.
pub open spec fn edit_of(edit: EditState, input: EditInput) -> Option<EditAction> {
    let enabled = input.scripted_edit || (input.locked_now && edit.prev_cursor_locked);
    if !input.active() || !enabled {
        None
    } else {
        match input.hit {
            None => None,
            Some(hit) => if input.remove {
                Some(EditAction { cell: hit.cell, voxel: Voxel(0), removed: true })
            } else if input.place && hit.normal != (IVec3 { x: 0, y: 0, z: 0 }) {
                Some(
                    EditAction {
                        cell: hit.place_cell,
                        voxel: Voxel(edit.selected_material),
                        removed: false,
                    },
                )
            } else {
                None
            },
        }
    }
}

/// One frame of editing: remembers what the crosshair points at and whether the
/// cursor is locked, and says which edit to make.
pub fn fp_edit_voxels(edit: &mut EditState, input: &EditInput) -> (r: Option<EditAction>)
    requires
        old(edit).wf(),
    ensures
        final(edit).wf(),
        r == edit_of(*old(edit), *input),
        r is Some ==> input.mode is Fp && input.ready && (!input.scripted || input.scripted_edit) && input.hit is Some
            && (input.remove || input.place),
        r is Some && input.remove ==> r->0.removed && r->0.cell == input.hit->0.cell && r->0.voxel == Voxel(0),
        r is Some && !input.remove ==> !r->0.removed && r->0.cell == input.hit->0.place_cell && r->0.voxel == Voxel(
            old(edit).selected_material,
        ),
        final(edit).selected_material == old(edit).selected_material,
        final(edit).tool == old(edit).tool,
        final(edit).radius_voxels == old(edit).radius_voxels,
        *final(edit) == (if input.active() {
            EditState { last_hit: input.hit, prev_cursor_locked: input.locked_now, ..*old(edit) }
        } else {
            EditState { last_hit: None, ..*old(edit) }
        }),
        r is Some && !(r->0.removed) ==> !(r->0.voxel.spec_is_empty()),
{
    if (input.scripted && !input.scripted_edit) || input.mode != ViewMode::Fp || !input.ready {
        edit.last_hit = None;
        return None;
    }
    edit.last_hit = input.hit;
    let enabled: bool = input.scripted_edit || (input.locked_now && edit.prev_cursor_locked);
    edit.prev_cursor_locked = input.locked_now;
    if !enabled || (!input.remove && !input.place) {
        return None;
    }
    let hit: WorldRayHit = match input.hit {
        Some(hit) => hit,
        None => return None,
    };
    if input.remove {
        Some(EditAction { cell: hit.cell, voxel: Voxel(0), removed: true })
    } else {
        if hit.normal == (IVec3 { x: 0, y: 0, z: 0 }) {
            return None;
        }
        Some(
            EditAction {
                cell: hit.place_cell,
                voxel: Voxel(edit.selected_material),
                removed: false,
            },
        )
    }
}

/// What an edit writes to.
#[derive(Clone, Copy, Debug, PartialEq, Eq, Structural)]
pub enum EditShape {
    OneVoxel,
    /// A cube of this half edge, in voxels.
    Cube { radius: u32 },
    /// A ball of this radius, in voxels.
    Sphere { radius: u32 },
}

/// The shape that the chosen tool writes to.
pub fn edit_shape(edit: &EditState) -> (r: EditShape)
    ensures
        r == (match edit.tool {
            ToolKind::Voxel => EditShape::OneVoxel,
            ToolKind::Cube => EditShape::Cube { radius: edit.radius_voxels },
            _ => EditShape::Sphere { radius: edit.radius_voxels },
        }),
{
    match edit.tool {
        ToolKind::Voxel => EditShape::OneVoxel,
        ToolKind::Cube => EditShape::Cube { radius: edit.radius_voxels },
        _ => EditShape::Sphere { radius: edit.radius_voxels },
    }
}

/// News of an edit: the world that it was made in, the bricks that it may have
/// touched, and whether voxels were removed, so that structure may have come
/// loose.
#[derive(Debug)]
pub struct VoxelEditEvent<A> {
    pub addr: A,
    pub removed: bool,
    pub bricks: Vec<IVec3>,
}

/// An edit that was made: what is broadcast, and the bricks that the caller has
/// to fetch again after the write.
#[derive(Debug)]
pub struct AppliedEdit<A> {
    pub event: VoxelEditEvent<A>,
    pub fetch: Vec<(IVec3, u8)>,
}

/// Makes an edit of one voxel: patches the resident voxel, and claims the one
/// brick it lies in for refresh.
pub fn apply_voxel_edit<P, A>(
    loaded: &mut LoadedChunks,
    workers: &mut EditApplyWorkers<P>,
    addr: A,
    action: &EditAction,
) -> (r: AppliedEdit<A>)
    requires
        old(loaded).wf(),
        old(workers).wf(),
    ensures
        final(loaded).wf(),
        final(workers).wf(),
        r.event.bricks@ == seq![spec_brick_of(action.cell)],
        r.event.removed == action.removed,
        r.event.addr == addr,
        final(workers).results() == old(workers).results(),
        final(loaded)@.dom() == old(loaded)@.dom(),
        forall|k: ChunkKey| #[trigger]
            old(loaded)@.dom().contains(k) ==> same_but_brick(old(loaded)@[k], final(loaded)@[k]),
        forall|k: ChunkKey|
            old(loaded)@.dom().contains(k) && k != (spec_brick_of(action.cell), 0u8) ==> #[trigger] final(loaded)@[k] == old(loaded)@[k],
        forall|c: IVec3| #[trigger]
            seen(final(loaded)@, c) == (if c == action.cell && has_brick(old(loaded)@, action.cell) {
                action.voxel
            } else {
                seen(old(loaded)@, c)
            }),
        r.fetch@ == fresh_keys(
            old(workers).state().in_flight,
            live_keys(old(loaded)@, seq![spec_brick_of(action.cell)]),
        ),
        final(workers).state().in_flight == old(workers).state().in_flight.union(
            live_keys(old(loaded)@, seq![spec_brick_of(action.cell)]).to_set(),
        ),
        final(workers).state().pending == old(workers).state().pending.union(
            repeated_keys(
                old(workers).state().in_flight,
                live_keys(old(loaded)@, seq![spec_brick_of(action.cell)]),
            ),
        ),
{
    let ghost before = loaded@;
    patch_resident_voxel(loaded, action.cell, action.voxel);
    let mut affected: Vec<IVec3> = Vec::new();
    affected.push(brick_of(action.cell));
    let keys: Vec<(IVec3, u8)> = keys_to_refresh(&affected, loaded);
    proof {
        assert(affected@ =~= seq![spec_brick_of(action.cell)]);
        lemma_live_keys_same(before, loaded@, affected@);
    }
    let fetch: Vec<(IVec3, u8)> = workers.dispatch_edit(&keys);
    AppliedEdit { event: VoxelEditEvent { addr, removed: action.removed, bricks: affected }, fetch }
}

/// The bricks of masks, in order.
pub open spec fn mask_bricks(masks: Seq<BrushMask>) -> Seq<IVec3> {
    Seq::new(masks.len(), |i: int| masks[i].brick)
}

/// Makes an edit with a brush: patches the resident voxels that it covers, and
/// claims the bricks that it touches for refresh.
pub fn apply_brush_edit<P, A>(
    loaded: &mut LoadedChunks,
    workers: &mut EditApplyWorkers<P>,
    addr: A,
    action: &EditAction,
    masks: &Vec<BrushMask>,
) -> (r: AppliedEdit<A>)
    requires
        old(loaded).wf(),
        old(workers).wf(),
        forall|i: int| 0 <= i < masks@.len() ==> (#[trigger] masks@[i]).covered@.len() == 4096,
    ensures
        final(loaded).wf(),
        final(workers).wf(),
        r.event.bricks@ == mask_bricks(masks@),
        r.event.removed == action.removed,
        r.event.addr == addr,
        final(workers).results() == old(workers).results(),
        final(loaded)@.dom() == old(loaded)@.dom(),
        forall|k: ChunkKey| #[trigger]
            old(loaded)@.dom().contains(k) ==> same_but_brick(old(loaded)@[k], final(loaded)@[k]),
        forall|k: ChunkKey|
            old(loaded)@.dom().contains(k) && old(loaded)@[k].brick is Some ==> (
            #[trigger] final(loaded)@[k]).brick->0@ == (if k.1 == 0 {
                brushed(old(loaded)@[k].brick->0@, k.0, masks@, action.voxel)
            } else {
                old(loaded)@[k].brick->0@
            }),
        forall|c: IVec3| #[trigger]
            seen(final(loaded)@, c) == (if has_brick(old(loaded)@, c) && exists|m: int|
                0 <= m < masks@.len() && (#[trigger] masks@[m]).brick == spec_brick_of(c)
                    && masks@[m].covered@[cell_index(c.x as int % 16, c.y as int % 16, c.z as int % 16)] {
                action.voxel
            } else {
                seen(old(loaded)@, c)
            }),
        r.fetch@ == fresh_keys(
            old(workers).state().in_flight,
            live_keys(old(loaded)@, mask_bricks(masks@)),
        ),
        final(workers).state().in_flight == old(workers).state().in_flight.union(
            live_keys(old(loaded)@, mask_bricks(masks@)).to_set(),
        ),
        final(workers).state().pending == old(workers).state().pending.union(
            repeated_keys(
                old(workers).state().in_flight,
                live_keys(old(loaded)@, mask_bricks(masks@)),
            ),
        ),
{
    let ghost before = loaded@;
    patch_resident_brush(loaded, masks, action.voxel);
    let mut affected: Vec<IVec3> = Vec::new();
    let mut i: usize = 0;
    while i < masks.len()
        invariant
            i <= masks@.len(),
            affected@.len() == i,
            forall|k: int| 0 <= k < i ==> #[trigger] affected@[k] == masks@[k].brick,
        decreases masks@.len() - i,
    {
        affected.push(masks[i].brick);
        i += 1;
    }
    let keys: Vec<(IVec3, u8)> = keys_to_refresh(&affected, loaded);
    proof {
        assert(affected@ =~= mask_bricks(masks@));
        lemma_live_keys_same(before, loaded@, affected@);
    }
    let fetch: Vec<(IVec3, u8)> = workers.dispatch_edit(&keys);
    AppliedEdit { event: VoxelEditEvent { addr, removed: action.removed, bricks: affected }, fetch }
}

/// Patching voxels changes no chunk's standing.
proof fn lemma_live_keys_same(
    before: Map<ChunkKey, LoadedChunk>,
    after: Map<ChunkKey, LoadedChunk>,
    affected: Seq<IVec3>,
)
    requires
        after.dom() == before.dom(),
        forall|k: ChunkKey| #[trigger] before.dom().contains(k) ==> same_but_brick(before[k], after[k]),
    ensures
        live_keys(after, affected) == live_keys(before, affected),
    decreases affected.len(),
{
    if affected.len() > 0 {
        lemma_live_keys_same(before, after, affected.drop_last());
        let key = (affected.last(), 0u8);
        if before.dom().contains(key) {
            assert(same_but_brick(before[key], after[key]));
        }
    }
}

/// The mark on what an edit would change.
#[derive(Clone, Copy, Debug, PartialEq, Eq, Structural)]
pub enum Highlight {
    Hidden,
    /// A cube around one voxel.
    OneVoxel { cell: IVec3 },
    /// A cube that many voxels across.
    Cube { cell: IVec3, side: u32 },
    /// A sphere of that many voxels' radius.
    Sphere { cell: IVec3, radius: u32 },
}

/// The mark to show: that of the tool, around the cell that the crosshair
/// points at, in first person only.
pub fn fp_edit_highlight(edit: &EditState, mode: ViewMode) -> (r: Highlight)
    requires
        edit.wf(),
    ensures
        r == (match edit.last_hit {
            Some(hit) if mode is Fp => match edit.tool {
                ToolKind::Voxel => Highlight::OneVoxel { cell: hit.cell },
                ToolKind::Cube => Highlight::Cube {
                    cell: hit.cell,
                    side: (2 * edit.radius_voxels) as u32,
                },
                _ => Highlight::Sphere { cell: hit.cell, radius: edit.radius_voxels },
            },
            _ => Highlight::Hidden,
        }),
{
    if mode != ViewMode::Fp {
        return Highlight::Hidden;
    }
    match edit.last_hit {
        None => Highlight::Hidden,
        Some(hit) => match edit.tool {
            ToolKind::Voxel => Highlight::OneVoxel { cell: hit.cell },
            ToolKind::Cube => Highlight::Cube { cell: hit.cell, side: 2 * edit.radius_voxels },
            _ => Highlight::Sphere { cell: hit.cell, radius: edit.radius_voxels },
        },
    }
}

proof fn lemma_brushed(cells: Seq<Voxel>, bc: IVec3, masks: Seq<BrushMask>, voxel: Voxel, i: int)
    requires
        0 <= i < cells.len(),
    ensures
        brushed(cells, bc, masks, voxel).len() == cells.len(),
        (exists|m: int| 0 <= m < masks.len() && (#[trigger] masks[m]).brick == bc && masks[m].covered@[i])
            ==> brushed(cells, bc, masks, voxel)[i] == voxel,
        !(exists|m: int| 0 <= m < masks.len() && (#[trigger] masks[m]).brick == bc && masks[m].covered@[i])
            ==> brushed(cells, bc, masks, voxel)[i] == cells[i],
    decreases masks.len(),
{
    if masks.len() > 0 {
        let front = masks.drop_last();
        let n = masks.len() - 1;
        lemma_brushed(cells, bc, front, voxel, i);
        assert(masks[n] == masks.last());
        if exists|m: int| 0 <= m < front.len() && (#[trigger] front[m]).brick == bc && front[m].covered@[i] {
            let m = choose|m: int| 0 <= m < front.len() && (#[trigger] front[m]).brick == bc && front[m].covered@[i];
            assert(masks[m] == front[m]);
        }
        if exists|m: int| 0 <= m < masks.len() && (#[trigger] masks[m]).brick == bc && masks[m].covered@[i] {
            let m = choose|m: int| 0 <= m < masks.len() && (#[trigger] masks[m]).brick == bc && masks[m].covered@[i];
            if m < n {
                assert(front[m] == masks[m]);
            }
        }
    }
}

/// A brush sets every cell that it covers to its voxel, whatever the cell held,
/// and leaves every other cell as it was. Cells of a mask go by x, then y, then
/// z.
pub proof fn a_brush_sets_what_it_covers(
    cells: Seq<Voxel>,
    bc: IVec3,
    masks: Seq<BrushMask>,
    voxel: Voxel,
    x: int,
    y: int,
    z: int,
)
    requires
        cells.len() == 4096,
        0 <= x < 16,
        0 <= y < 16,
        0 <= z < 16,
    ensures
        brushed(cells, bc, masks, voxel).len() == 4096,
        brushed(cells, bc, masks, voxel)[x + 16 * y + 256 * z] == (if exists|m: int|
            0 <= m < masks.len() && (#[trigger] masks[m]).brick == bc && masks[m].covered@[x + 16 * y + 256 * z] {
            voxel
        } else {
            cells[x + 16 * y + 256 * z]
        }),
{
    lemma_brushed(cells, bc, masks, voxel, x + 16 * y + 256 * z);
}

/// Painting sets the picked cells and no other, whatever they held, and painting
/// again changes nothing more.
pub proof fn painting_sets_the_picked_cells(cells: Seq<Voxel>, mask: Seq<bool>, voxel: Voxel, i: int)
    requires
        0 <= i < cells.len(),
    ensures
        painted(cells, mask, voxel).len() == cells.len(),
        mask[i] ==> painted(cells, mask, voxel)[i] == voxel,
        !mask[i] ==> painted(cells, mask, voxel)[i] == cells[i],
        painted(painted(cells, mask, voxel), mask, voxel) == painted(cells, mask, voxel),
{
    assert(painted(painted(cells, mask, voxel), mask, voxel) =~= painted(cells, mask, voxel));
}

/// The editor sees at a world cell what the brick of the finest level around it
/// holds there.
pub proof fn the_editor_sees_the_brick_around_a_cell(
    chunks: Map<ChunkKey, LoadedChunk>,
    c: IVec3,
    brick: IVec3,
    x: int,
    y: int,
    z: int,
)
    requires
        0 <= x < 16,
        0 <= y < 16,
        0 <= z < 16,
        c.x == 16 * brick.x + x,
        c.y == 16 * brick.y + y,
        c.z == 16 * brick.z + z,
    ensures
        chunks.dom().contains((brick, 0u8)) && chunks[(brick, 0u8)].brick is Some ==> seen(chunks, c)
            == chunks[(brick, 0u8)].brick->0@[x + 16 * y + 256 * z] && has_brick(chunks, c),
        !(chunks.dom().contains((brick, 0u8)) && chunks[(brick, 0u8)].brick is Some) ==> seen(chunks, c) == Voxel(
            0,
        ) && !has_brick(chunks, c),
{
    brick_and_local_make_the_cell(c);
    assert(spec_brick_of(c) == brick);
    assert(local_of(c) == (IVec3 { x: x as i64, y: y as i64, z: z as i64 }));
}

/// After a brush edit the editor sees the brush's voxel at every cell of a
/// resident brick that some mask of that brick covers, and what it saw before
/// at every other cell.
pub proof fn a_brush_edit_shows_where_it_covers(
    before: Map<ChunkKey, LoadedChunk>,
    after: Map<ChunkKey, LoadedChunk>,
    masks: Seq<BrushMask>,
    voxel: Voxel,
    c: IVec3,
    brick: IVec3,
    x: int,
    y: int,
    z: int,
)
    requires
        after.dom() == before.dom(),
        forall|k: ChunkKey| #[trigger] before.dom().contains(k) ==> same_but_brick(before[k], after[k]),
        forall|k: ChunkKey| #[trigger]
            before.dom().contains(k) && before[k].brick is Some ==> before[k].brick->0.wf(),
        forall|k: ChunkKey|
            before.dom().contains(k) && before[k].brick is Some ==> (#[trigger] after[k]).brick->0@ == (if k.1
                == 0 {
                brushed(before[k].brick->0@, k.0, masks, voxel)
            } else {
                before[k].brick->0@
            }),
        0 <= x < 16,
        0 <= y < 16,
        0 <= z < 16,
        c.x == 16 * brick.x + x,
        c.y == 16 * brick.y + y,
        c.z == 16 * brick.z + z,
    ensures
        seen(after, c) == (if has_brick(before, c) && exists|m: int|
            0 <= m < masks.len() && (#[trigger] masks[m]).brick == brick && masks[m].covered@[x + 16 * y + 256
                * z] {
            voxel
        } else {
            seen(before, c)
        }),
{
    let key = (brick, 0u8);
    the_editor_sees_the_brick_around_a_cell(before, c, brick, x, y, z);
    the_editor_sees_the_brick_around_a_cell(after, c, brick, x, y, z);
    if before.dom().contains(key) {
        assert(same_but_brick(before[key], after[key]));
        if before[key].brick is Some {
            before[key].brick->0.lemma_len();
            a_brush_sets_what_it_covers(before[key].brick->0@, brick, masks, voxel, x, y, z);
        }
    }
}

proof fn lemma_live_selection(chunks: Map<ChunkKey, LoadedChunk>, affected: Seq<IVec3>, n: int) -> (at: Seq<int>)
    requires
        0 <= n <= affected.len(),
    ensures
        is_selection(
            at,
            n,
            |i: int| chunks.dom().contains((affected[i], 0u8)) && !chunks[(affected[i], 0u8)].is_fading_out,
        ),
        live_keys(chunks, affected.take(n)).len() == at.len(),
        forall|p: int|
            0 <= p < at.len() ==> #[trigger] live_keys(chunks, affected.take(n))[p] == (affected[at[p]], 0u8),
    decreases n,
{
    let wanted = |i: int|
        chunks.dom().contains((affected[i], 0u8)) && !chunks[(affected[i], 0u8)].is_fading_out;
    if n == 0 {
        lemma_select_none(wanted);
        Seq::<int>::empty()
    } else {
        let front = lemma_live_selection(chunks, affected, n - 1);
        assert(affected.take(n).drop_last() =~= affected.take(n - 1));
        assert(affected.take(n).last() == affected[n - 1]);
        lemma_select_next(front, n - 1, wanted)
    }
}

/// Every brick that an edit touches and that is loaded at the finest level and
/// not fading out is refreshed, in the order in which it was touched, and no
/// other is.
pub proof fn every_touched_live_brick_is_refreshed(
    chunks: Map<ChunkKey, LoadedChunk>,
    affected: Seq<IVec3>,
) -> (at: Seq<int>)
    ensures
        is_selection(
            at,
            affected.len() as int,
            |i: int| chunks.dom().contains((affected[i], 0u8)) && !chunks[(affected[i], 0u8)].is_fading_out,
        ),
        live_keys(chunks, affected).len() == at.len(),
        forall|p: int|
            0 <= p < at.len() ==> #[trigger] live_keys(chunks, affected)[p] == (affected[at[p]], 0u8),
{
    let at = lemma_live_selection(chunks, affected, affected.len() as int);
    assert(affected.take(affected.len() as int) =~= affected);
    at
}

proof fn lemma_ready_selection<P>(
    ready: Seq<BrickReady<P>>,
    chunks: Map<ChunkKey, LoadedChunk>,
    n: int,
) -> (at: Seq<int>)
    requires
        0 <= n <= ready.len(),
    ensures
        is_selection(
            at,
            n,
            |i: int|
                chunks.dom().contains((ready[i].coord, ready[i].lod.depth)) && !chunks[(
                    ready[i].coord,
                    ready[i].lod.depth,
                )].is_fading_out,
        ),
        live_ready(ready.take(n), chunks).len() == at.len(),
        forall|p: int| 0 <= p < at.len() ==> #[trigger] live_ready(ready.take(n), chunks)[p] == ready[at[p]],
    decreases n,
{
    let wanted = |i: int|
        chunks.dom().contains((ready[i].coord, ready[i].lod.depth)) && !chunks[(
            ready[i].coord,
            ready[i].lod.depth,
        )].is_fading_out;
    if n == 0 {
        lemma_select_none(wanted);
        Seq::<int>::empty()
    } else {
        let front = lemma_ready_selection(ready, chunks, n - 1);
        assert(ready.take(n).drop_last() =~= ready.take(n - 1));
        assert(ready.take(n).last() == ready[n - 1]);
        lemma_select_next(front, n - 1, wanted)
    }
}

/// Every finished refresh whose brick is still loaded and not fading out is
/// swapped in, in the order of arrival, and no other is.
pub proof fn every_live_refresh_is_swapped_in<P>(
    ready: Seq<BrickReady<P>>,
    chunks: Map<ChunkKey, LoadedChunk>,
) -> (at: Seq<int>)
    ensures
        is_selection(
            at,
            ready.len() as int,
            |i: int|
                chunks.dom().contains((ready[i].coord, ready[i].lod.depth)) && !chunks[(
                    ready[i].coord,
                    ready[i].lod.depth,
                )].is_fading_out,
        ),
        live_ready(ready, chunks).len() == at.len(),
        forall|p: int| 0 <= p < at.len() ==> #[trigger] live_ready(ready, chunks)[p] == ready[at[p]],
{
    let at = lemma_ready_selection(ready, chunks, ready.len() as int);
    assert(ready.take(ready.len() as int) =~= ready);
    at
}

/// A click removes the voxel under the crosshair, before all else; a right click
/// places the chosen material in front of the face that was hit, where there is
/// one. Both need the editor to be at work: in a first-person scene that is set
/// up, with a cursor that was locked before, or in a scripted run that may edit.
pub proof fn a_click_edits_what_it_points_at(edit: EditState, input: EditInput, hit: WorldRayHit)
    requires
        input.mode is Fp,
        input.ready,
        input.scripted_edit || (!input.scripted && input.locked_now && edit.prev_cursor_locked),
        input.hit == Some(hit),
    ensures
        input.remove ==> edit_of(edit, input) == Some(
            EditAction { cell: hit.cell, voxel: Voxel(0), removed: true },
        ),
        !input.remove && input.place && (hit.normal.x != 0 || hit.normal.y != 0 || hit.normal.z != 0)
            ==> edit_of(edit, input) == Some(
            EditAction { cell: hit.place_cell, voxel: Voxel(edit.selected_material), removed: false },
        ),
        !input.remove && !input.place ==> edit_of(edit, input) is None,
        !input.remove && hit.normal.x == 0 && hit.normal.y == 0 && hit.normal.z == 0 ==> edit_of(
            edit,
            input,
        ) is None,
{
}

/// Without a click, a hit, a locked cursor or a first-person scene nothing is
/// edited.
pub proof fn nothing_is_edited_idly(edit: EditState, input: EditInput)
    requires
        !(input.remove || input.place) || input.hit is None || !(input.mode is Fp) || !input.ready || (
        input.scripted && !input.scripted_edit) || (!input.scripted_edit && !(input.locked_now
            && edit.prev_cursor_locked)),
    ensures
        edit_of(edit, input) is None,
{
}

/// The radius goes up and down by one, and stays between 1 and 16.
pub proof fn the_radius_goes_by_one(radius: int)
    requires
        1 <= radius <= 16,
    ensures
        next_radius(radius, false, false) == radius,
        radius < 16 ==> next_radius(radius, true, false) == radius + 1,
        radius > 1 ==> next_radius(radius, false, true) == radius - 1,
        next_radius(16, true, false) == 16,
        next_radius(1, false, true) == 1,
        1 < radius < 16 ==> next_radius(next_radius(radius, true, false), false, true) == radius,
        next_radius(radius, true, true) == (if radius == 16 {
            15int
        } else {
            radius
        }),
{
}

/// A digit selects the material of its number where the table has it, and the
/// last one otherwise; without a digit the material stays. The other keys leave
/// the material alone, and the digits leave tool and radius alone.
pub proof fn a_digit_selects_its_material(edit: EditState, keys: ButtonInput, slots: int)
    requires
        0 <= slots <= 0x1_0000,
    ensures
        fresh_digit(keys) == 0 ==> after_keys(edit, keys, slots).selected_material == edit.selected_material,
        0 < fresh_digit(keys) < slots ==> after_keys(edit, keys, slots).selected_material == fresh_digit(keys),
        slots >= 2 && fresh_digit(keys) >= slots ==> after_keys(edit, keys, slots).selected_material == slots - 1,
        slots < 2 && fresh_digit(keys) > 0 ==> after_keys(edit, keys, slots).selected_material == 1,
        !keys.is_fresh(KeyCode::Tab) ==> after_keys(edit, keys, slots).tool == edit.tool,
        keys.is_fresh(KeyCode::Tab) ==> after_keys(edit, keys, slots).tool != edit.tool,
        !keys.is_fresh(KeyCode::BracketLeft) && !keys.is_fresh(KeyCode::BracketRight) ==> after_keys(
            edit,
            keys,
            slots,
        ).radius_voxels == edit.radius_voxels,
        after_keys(edit, keys, slots).last_hit == edit.last_hit,
        after_keys(edit, keys, slots).reach_m == edit.reach_m,
{
}

/// Each digit key stands for its own number.
pub proof fn a_digit_key_means_its_digit(keys: ButtonInput)
    ensures
        fresh_digit(keys) == 9 <==> keys.is_fresh(KeyCode::Digit9),
        keys.is_fresh(KeyCode::Digit8) ==> fresh_digit(keys) >= 8,
        keys.is_fresh(KeyCode::Digit7) ==> fresh_digit(keys) >= 7,
        keys.is_fresh(KeyCode::Digit6) ==> fresh_digit(keys) >= 6,
        keys.is_fresh(KeyCode::Digit5) ==> fresh_digit(keys) >= 5,
        keys.is_fresh(KeyCode::Digit4) ==> fresh_digit(keys) >= 4,
        keys.is_fresh(KeyCode::Digit3) ==> fresh_digit(keys) >= 3,
        keys.is_fresh(KeyCode::Digit2) ==> fresh_digit(keys) >= 2,
        keys.is_fresh(KeyCode::Digit1) ==> fresh_digit(keys) >= 1,
        fresh_digit(keys) == 8 ==> keys.is_fresh(KeyCode::Digit8),
        fresh_digit(keys) == 7 ==> keys.is_fresh(KeyCode::Digit7),
        fresh_digit(keys) == 6 ==> keys.is_fresh(KeyCode::Digit6),
        fresh_digit(keys) == 5 ==> keys.is_fresh(KeyCode::Digit5),
        fresh_digit(keys) == 4 ==> keys.is_fresh(KeyCode::Digit4),
        fresh_digit(keys) == 3 ==> keys.is_fresh(KeyCode::Digit3),
        fresh_digit(keys) == 2 ==> keys.is_fresh(KeyCode::Digit2),
        fresh_digit(keys) == 1 ==> keys.is_fresh(KeyCode::Digit1),
        fresh_digit(keys) <= 9,
{
}

/// Tab goes from one voxel to the sphere, to the cube, and back.
pub proof fn tab_goes_through_the_tools()
    ensures
        next_tool(ToolKind::Voxel) is Sphere,
        next_tool(ToolKind::Sphere) is Cube,
        next_tool(ToolKind::Cube) is Voxel,
        next_tool(ToolKind::Cone) is Voxel,
{
}

} // verus!
