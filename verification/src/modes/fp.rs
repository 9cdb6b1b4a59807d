//! The first-person scene: its materials, the streaming of bricks around the
//! observer, and which level of detail is shown where.

use crate::brick_gen::{ready_keys, without, BrickGenWorkers, BrickReady, MAX_IN_FLIGHT};
use crate::coord::{ChunkKey, IVec3, Lod};
use crate::input::{ButtonInput, KeyCode};
use crate::measure::{Real32, Real64};
use crate::order::{
    goes_before, is_selection, is_stable_order, lemma_order_has, lemma_select_next,
    lemma_select_none, stable_order, stable_order_is_unique,
};
use crate::render::config::RenderConfig;
use crate::render::defaults::{canonical_palette, shadow_biases};
use crate::render::raymarch::RaymarchShadingTier;
use crate::render::strategy::{MaterialEntry, ShadingMode};
use crate::view_mode::ViewMode;
use crate::voxel::Brick;
use crate::world_stream::{
    eight_live_children_cover, live_children, octants, spec_is_stale, ChunkStreamer, LoadedChunk,
    LoadedChunks,
};
use vstd::prelude::*;

verus! {

/// Opacity below which a material is blended: 0.999.
pub const OPAQUE_ALPHA: u32 = 0x3f7f_be77;

/// How a material of the scene is set up from a palette entry.
#[derive(Clone, Copy, Debug, PartialEq, Eq, Structural)]
pub struct MaterialPlan {
    /// Index of the palette entry.
    pub entry: usize,
    /// Blended rather than opaque.
    pub blend: bool,
    /// It gives off light.
    pub emissive: bool,
}

pub open spec fn positive(v: Real32) -> bool {
    (Real32 { bits: 0 }).less(v)
}

/// The plan of palette entry `i`.
pub open spec fn plan_of(entries: Seq<MaterialEntry>, i: int) -> MaterialPlan {
    MaterialPlan {
        entry: i as usize,
        blend: entries[i].alpha.less(Real32 { bits: OPAQUE_ALPHA }),
        emissive: positive(entries[i].emissive.r) || positive(entries[i].emissive.g) || positive(
            entries[i].emissive.b,
        ),
    }
}

/// The largest material number of a palette, 0 where it is empty.
pub open spec fn max_id(entries: Seq<MaterialEntry>) -> u16
    decreases entries.len(),
{
    if entries.len() == 0 {
        0
    } else {
        let front = max_id(entries.drop_last());
        if entries.last().id > front {
            entries.last().id
        } else {
            front
        }
    }
}

/// The plan for material `id`: that of the last entry with that number.
pub open spec fn slot_of(entries: Seq<MaterialEntry>, n: int, id: int) -> Option<MaterialPlan>
    decreases n,
{
    if n <= 0 {
        None
    } else if entries[n - 1].id == id {
        Some(plan_of(entries, n - 1))
    } else {
        slot_of(entries, n - 1, id)
    }
}

proof fn lemma_max_id(entries: Seq<MaterialEntry>, i: int)
    requires
        0 <= i < entries.len(),
    ensures
        entries[i].id <= max_id(entries),
    decreases entries.len(),
{
    if i < entries.len() - 1 {
        lemma_max_id(entries.drop_last(), i);
    }
}

/// The materials of the scene, one slot per number up to the largest of the
/// palette. A number that the palette does not have keeps a default material.
pub fn setup_materials(entries: &Vec<MaterialEntry>) -> (r: Vec<Option<MaterialPlan>>)
    ensures
        r@.len() == max_id(entries@) + 1,
        forall|id: int|
            0 <= id < r@.len() ==> #[trigger] r@[id] == slot_of(entries@, entries@.len() as int, id),
{
    let mut top: u16 = 0;
    let mut i: usize = 0;
    while i < entries.len()
        invariant
            i <= entries@.len(),
            top == max_id(entries@.take(i as int)),
        decreases entries@.len() - i,
    {
        proof {
            assert(entries@.take(i + 1).drop_last() =~= entries@.take(i as int));
            assert(entries@.take(i + 1).last() == entries@[i as int]);
        }
        if entries[i].id > top {
            top = entries[i].id;
        }
        i += 1;
    }
    proof {
        assert(entries@.take(i as int) =~= entries@);
    }
    let mut table: Vec<Option<MaterialPlan>> = Vec::new();
    let slots: usize = top as usize + 1;
    let mut k: usize = 0;
    while k < slots
        invariant
            k <= slots,
            table@.len() == k,
            forall|j: int| 0 <= j < k ==> #[trigger] table@[j] == None::<MaterialPlan>,
        decreases slots - k,
    {
        table.push(None);
        k += 1;
    }
    let mut n: usize = 0;
    while n < entries.len()
        invariant
            n <= entries@.len(),
            top == max_id(entries@),
            slots == top + 1,
            table@.len() == slots,
            forall|id: int| 0 <= id < slots ==> #[trigger] table@[id] == slot_of(entries@, n as int, id),
        decreases entries@.len() - n,
    {
        proof {
            lemma_max_id(entries@, n as int);
        }
        let e: MaterialEntry = entries[n];
        let zero = Real32 { bits: 0 };
        let plan = MaterialPlan {
            entry: n,
            blend: e.alpha.lt(Real32 { bits: OPAQUE_ALPHA }),
            emissive: zero.lt(e.emissive.r) || zero.lt(e.emissive.g) || zero.lt(e.emissive.b),
        };
        table[e.id as usize] = Some(plan);
        n += 1;
    }
    table
}

/// The scene as it is set up from the configuration.
#[derive(Debug)]
pub struct ScenePlan {
    pub palette: Vec<MaterialEntry>,
    /// One material per number.
    pub materials: Vec<Option<MaterialPlan>>,
    /// The camera draws into the image that is captured, not into the window.
    pub offscreen: bool,
    pub bloom: bool,
    pub shadows: bool,
    /// Depth and normal bias of the sun's shadows.
    pub shadow_biases: (Real32, Real32),
}

/// Plans the first-person scene: the materials of the palette, the camera's
/// target, and which effects are on.
pub fn setup_fp_scene(cfg: &RenderConfig, offscreen: bool) -> (r: ScenePlan)
    ensures
        r.palette@ == canonical_palette(),
        r.materials@.len() == 11,
        forall|id: int| 0 <= id < 11 ==> #[trigger] r.materials@[id] == Some(plan_of(canonical_palette(), id)),
        r.offscreen == offscreen,
        r.bloom == cfg.tonemap is AcesTonemap,
        r.shadows == cfg.shadow is BasicCascades,
        r.shadow_biases == shadow_biases(),
{
    let palette: Vec<MaterialEntry> = cfg.palette.palette();
    let materials: Vec<Option<MaterialPlan>> = setup_materials(&palette);
    proof {
        lemma_dense(palette@);
    }
    ScenePlan {
        palette,
        materials,
        offscreen,
        bloom: cfg.tonemap.blooms(),
        shadows: cfg.shadow.enabled(),
        shadow_biases: cfg.shadow.biases(),
    }
}

/// Where every material stands at the place of its number, so it does in the
/// table.
proof fn lemma_dense(entries: Seq<MaterialEntry>)
    requires
        0 < entries.len() <= 0x1_0000,
        forall|i: int| 0 <= i < entries.len() ==> (#[trigger] entries[i]).id == i,
    ensures
        max_id(entries) == entries.len() - 1,
        forall|id: int|
            0 <= id < entries.len() ==> #[trigger] slot_of(entries, entries.len() as int, id) == Some(
                plan_of(entries, id),
            ),
{
    lemma_dense_max(entries, entries.len() as int);
    assert(entries.take(entries.len() as int) =~= entries);
    assert forall|id: int| 0 <= id < entries.len() implies #[trigger] slot_of(entries, entries.len() as int, id)
        == Some(plan_of(entries, id)) by {
        lemma_dense_slot(entries, entries.len() as int, id);
    }
}

proof fn lemma_dense_max(entries: Seq<MaterialEntry>, n: int)
    requires
        0 < n <= entries.len() <= 0x1_0000,
        forall|i: int| 0 <= i < entries.len() ==> (#[trigger] entries[i]).id == i,
    ensures
        max_id(entries.take(n)) == n - 1,
    decreases n,
{
    let t = entries.take(n);
    assert(t.drop_last() =~= entries.take(n - 1));
    assert(t.last() == entries[n - 1]);
    if n > 1 {
        lemma_dense_max(entries, n - 1);
    } else {
        assert(entries.take(0) =~= Seq::<MaterialEntry>::empty());
        assert(max_id(entries.take(0)) == 0);
    }
}

proof fn lemma_dense_slot(entries: Seq<MaterialEntry>, n: int, id: int)
    requires
        0 <= id < n <= entries.len(),
        forall|i: int| 0 <= i < entries.len() ==> (#[trigger] entries[i]).id == i,
    ensures
        slot_of(entries, n, id) == Some(plan_of(entries, id)),
    decreases n,
{
    assert(entries[n - 1].id == n - 1);
    if id < n - 1 {
        lemma_dense_slot(entries, n - 1, id);
    }
}

/// The slot of a material, if the table has it.
pub fn handle_for(table: &Vec<Option<MaterialPlan>>, id: u16) -> (r: Option<Option<MaterialPlan>>)
    ensures
        r == (if (id as int) < table@.len() {
            Some(table@[id as int])
        } else {
            None
        }),
{
    if (id as usize) < table.len() {
        Some(table[id as usize])
    } else {
        None
    }
}

/// How the cursor is held.
#[derive(Clone, Copy, Debug, PartialEq, Eq, Structural)]
pub enum CursorGrabMode {
    Free,
    Confined,
    Locked,
}

#[derive(Clone, Copy, Debug, PartialEq, Eq, Structural)]
pub struct Cursor {
    pub grab_mode: CursorGrabMode,
    pub visible: bool,
}

/// A free, visible cursor.
pub open spec fn free_cursor() -> Cursor {
    Cursor { grab_mode: CursorGrabMode::Free, visible: true }
}

/// The cursor after a frame: a click locks it in the perspective views, Escape
/// frees it, and the other views and scripted runs keep it free.
pub fn grab_cursor(
    cursor: Cursor,
    mode: ViewMode,
    keys: &ButtonInput,
    left_click: bool,
    scripted: bool,
) -> (r: Cursor)
    ensures
        ({
            let held = cursor.grab_mode != CursorGrabMode::Free;
            let wants = mode is Fp || mode is Tp;
            r == (if scripted {
                if held {
                    free_cursor()
                } else {
                    cursor
                }
            } else if keys.is_fresh(KeyCode::Escape) {
                free_cursor()
            } else if wants && !held && left_click {
                Cursor { grab_mode: CursorGrabMode::Locked, visible: false }
            } else if !wants && held {
                free_cursor()
            } else {
                cursor
            })
        }),
        r.grab_mode is Free && cursor.grab_mode != CursorGrabMode::Free ==> r.visible,
        scripted || (!scripted && keys.is_fresh(KeyCode::Escape)) || !(mode is Fp || mode is Tp) ==> r.grab_mode is Free,
{
    let free = Cursor { grab_mode: CursorGrabMode::Free, visible: true };
    let held: bool = cursor.grab_mode != CursorGrabMode::Free;
    if scripted {
        return if held {
            free
        } else {
            cursor
        };
    }
    let want_grab: bool = matches!(mode, ViewMode::Fp | ViewMode::Tp);
    if keys.just_pressed(KeyCode::Escape) {
        return free;
    }
    if want_grab && !held {
        if left_click {
            return Cursor { grab_mode: CursorGrabMode::Locked, visible: false };
        }
    } else if !want_grab && held {
        return free;
    }
    cursor
}

/// The walk that the held keys ask for.
#[derive(Clone, Copy, Debug, PartialEq, Eq, Structural)]
pub struct WalkControls {
    pub forward: bool,
    pub back: bool,
    /// To the left on the screen.
    pub left: bool,
    pub right: bool,
    pub up: bool,
    pub down: bool,
    pub fast: bool,
    pub crouch: bool,
}

/// The walk of a frame: only once the scene is ready, and only in the views
/// that are anchored on the walker.
pub fn world_walk_input(mode: ViewMode, keys: &ButtonInput, ready: bool) -> (r: Option<WalkControls>)
    ensures
        r == (if ready && (mode is Fp || mode is Tp || mode is Rts) {
            Some(
                WalkControls {
                    forward: keys.is_down(KeyCode::KeyW),
                    back: keys.is_down(KeyCode::KeyS),
                    left: keys.is_down(KeyCode::KeyA),
                    right: keys.is_down(KeyCode::KeyD),
                    up: keys.is_down(KeyCode::Space),
                    down: keys.is_down(KeyCode::ControlLeft) || keys.is_down(KeyCode::ControlRight),
                    fast: keys.is_down(KeyCode::ShiftLeft) || keys.is_down(KeyCode::ShiftRight),
                    crouch: keys.is_down(KeyCode::KeyC),
                },
            )
        } else {
            None
        }),
{
    if !ready || !matches!(mode, ViewMode::Fp | ViewMode::Tp | ViewMode::Rts) {
        return None;
    }
    Some(
        WalkControls {
            forward: keys.pressed(KeyCode::KeyW),
            back: keys.pressed(KeyCode::KeyS),
            left: keys.pressed(KeyCode::KeyA),
            right: keys.pressed(KeyCode::KeyD),
            up: keys.pressed(KeyCode::Space),
            down: keys.pressed(KeyCode::ControlLeft) || keys.pressed(KeyCode::ControlRight),
            fast: keys.pressed(KeyCode::ShiftLeft) || keys.pressed(KeyCode::ShiftRight),
            crouch: keys.pressed(KeyCode::KeyC),
        },
    )
}

/// Where the view turns to.
#[derive(Clone, Copy, Debug, PartialEq, Eq, Structural)]
pub struct LookControls {
    /// The mouse turns the view.
    pub mouse: bool,
    pub left: bool,
    pub right: bool,
    pub up: bool,
    pub down: bool,
}

/// The turn of a frame in first person. The mouse counts while the cursor is
/// held, and always in a scripted run.
pub fn fp_input_look(
    mode: ViewMode,
    keys: &ButtonInput,
    ready: bool,
    scripted: bool,
    cursor: Option<CursorGrabMode>,
) -> (r: Option<LookControls>)
    ensures
        r == (if mode is Fp && ready {
            Some(
                LookControls {
                    mouse: scripted || (cursor is Some && cursor->0 != CursorGrabMode::Free),
                    left: keys.is_down(KeyCode::ArrowLeft),
                    right: keys.is_down(KeyCode::ArrowRight),
                    up: keys.is_down(KeyCode::ArrowUp),
                    down: keys.is_down(KeyCode::ArrowDown),
                },
            )
        } else {
            None
        }),
{
    if mode != ViewMode::Fp || !ready {
        return None;
    }
    let held: bool = match cursor {
        Some(grab) => grab != CursorGrabMode::Free,
        None => false,
    };
    Some(
        LookControls {
            mouse: scripted || held,
            left: keys.pressed(KeyCode::ArrowLeft),
            right: keys.pressed(KeyCode::ArrowRight),
            up: keys.pressed(KeyCode::ArrowUp),
            down: keys.pressed(KeyCode::ArrowDown),
        },
    )
}

/// The turn of a frame in the chase view; its mouse always counts.
pub fn tp_input(mode: ViewMode, keys: &ButtonInput) -> (r: Option<LookControls>)
    ensures
        r == (if mode is Tp {
            Some(
                LookControls {
                    mouse: true,
                    left: keys.is_down(KeyCode::ArrowLeft),
                    right: keys.is_down(KeyCode::ArrowRight),
                    up: keys.is_down(KeyCode::ArrowUp),
                    down: keys.is_down(KeyCode::ArrowDown),
                },
            )
        } else {
            None
        }),
{
    if mode != ViewMode::Tp {
        return None;
    }
    Some(
        LookControls {
            mouse: true,
            left: keys.pressed(KeyCode::ArrowLeft),
            right: keys.pressed(KeyCode::ArrowRight),
            up: keys.pressed(KeyCode::ArrowUp),
            down: keys.pressed(KeyCode::ArrowDown),
        },
    )
}

/// Whether the world's entities are shown: in the perspective views.
pub fn fp_visibility_toggle(mode: ViewMode) -> (r: bool)
    ensures
        r == (mode is Fp || mode is Tp),
{
    matches!(mode, ViewMode::Fp | ViewMode::Tp)
}

/// The keys of a plan.
pub open spec fn plan_keys(plan: Seq<(IVec3, Lod)>) -> Seq<ChunkKey> {
    Seq::new(plan.len(), |i: int| (plan[i].0, plan[i].1.depth))
}

/// Every chunk of the plan was desired in `frame`.
pub open spec fn touched(
    chunks: Map<ChunkKey, LoadedChunk>,
    keys: Seq<ChunkKey>,
    frame: u64,
) -> Map<ChunkKey, LoadedChunk> {
    Map::new(
        |k: ChunkKey| chunks.dom().contains(k),
        |k: ChunkKey|
            if keys.contains(k) {
                LoadedChunk { last_seen_frame: frame, ..chunks[k] }
            } else {
                chunks[k]
            },
    )
}

/// Notes that the chunks of the plan were desired in `frame`.
pub fn touch_desired(loaded: &mut LoadedChunks, plan: &Vec<(IVec3, Lod)>, frame: u64)
    requires
        old(loaded).wf(),
    ensures
        final(loaded).wf(),
        final(loaded)@ == touched(old(loaded)@, plan_keys(plan@), frame),
        final(loaded)@.dom() == old(loaded)@.dom(),
        forall|k: ChunkKey|
            old(loaded)@.dom().contains(k) ==> #[trigger] final(loaded)@[k] == (LoadedChunk {
                last_seen_frame: if exists|i: int|
                    0 <= i < plan@.len() && (#[trigger] plan@[i]).0 == k.0 && plan@[i].1.depth == k.1 {
                    frame
                } else {
                    old(loaded)@[k].last_seen_frame
                },
                ..old(loaded)@[k]
            }),
{
    let ghost before = loaded@;
    let ghost keys = plan_keys(plan@);
    proof {
        assert(loaded@ =~= touched(before, keys.take(0), frame));
    }
    let mut i: usize = 0;
    while i < plan.len()
        invariant
            i <= plan@.len(),
            keys == plan_keys(plan@),
            loaded.wf(),
            loaded@ == touched(before, keys.take(i as int), frame),
        decreases plan@.len() - i,
    {
        let key: (IVec3, u8) = LoadedChunk::key(plan[i].0, plan[i].1);
        let ghost mid = loaded@;
        loaded.touch_last_seen(&key, frame);
        proof {
            let a = keys.take(i as int);
            let b = keys.take(i + 1);
            assert(key == keys[i as int]);
            assert forall|k: ChunkKey| b.contains(k) <==> (a.contains(k) || k == key) by {
                if a.contains(k) {
                    let j = a.index_of(k);
                    assert(b[j] == k);
                }
                assert(b[i as int] == key);
                if b.contains(k) && k != key {
                    let j = b.index_of(k);
                    assert(a[j] == k);
                }
            }
            assert(loaded@ =~= touched(before, b, frame));
        }
        i += 1;
    }
    proof {
        assert(keys.take(keys.len() as int) =~= keys);
        assert(loaded@.dom() =~= before.dom());
        assert forall|k: ChunkKey| keys.contains(k) <==> exists|j: int|
            0 <= j < plan@.len() && (#[trigger] plan@[j]).0 == k.0 && plan@[j].1.depth == k.1 by {
            if keys.contains(k) {
                let j = keys.index_of(k);
                assert(keys[j] == (plan@[j].0, plan@[j].1.depth));
            }
            if exists|j: int| 0 <= j < plan@.len() && (#[trigger] plan@[j]).0 == k.0 && plan@[j].1.depth == k.1 {
                let j = choose|j: int|
                    0 <= j < plan@.len() && (#[trigger] plan@[j]).0 == k.0 && plan@[j].1.depth == k.1;
                assert(keys[j] == k);
            }
        }
    }
}

/// The chunks after the stale ones were dealt with: a stale placeholder is
/// gone, a stale brick is fading out.
pub open spec fn expired(
    chunks: Map<ChunkKey, LoadedChunk>,
    now: u64,
    hysteresis: u64,
) -> Map<ChunkKey, LoadedChunk> {
    Map::new(
        |k: ChunkKey|
            chunks.dom().contains(k) && !(spec_is_stale(chunks[k], now, hysteresis)
                && chunks[k].entity is None),
        |k: ChunkKey|
            if spec_is_stale(chunks[k], now, hysteresis) {
                LoadedChunk { is_fading_out: true, ..chunks[k] }
            } else {
                chunks[k]
            },
    )
}

/// A brick whose fade-out begins: stale, shown, and not fading out yet.
pub open spec fn begins_fading(
    chunks: Map<ChunkKey, LoadedChunk>,
    now: u64,
    hysteresis: u64,
    k: ChunkKey,
) -> bool {
    &&& chunks.dom().contains(k)
    &&& spec_is_stale(chunks[k], now, hysteresis)
    &&& chunks[k].entity is Some
    &&& !chunks[k].is_fading_out
}

/// A brick whose fade-out begins.
#[derive(Clone, Copy, Debug)]
pub struct FadeStart {
    pub key: (IVec3, u8),
    pub entity: u64,
}

/// Deals with the chunks that have not been desired for `hysteresis` frames.
/// Empty placeholders are dropped; bricks start to fade out, each once.
pub fn expire_stale(loaded: &mut LoadedChunks, now: u64, hysteresis: u64) -> (r: Vec<FadeStart>)
    requires
        old(loaded).wf(),
    ensures
        final(loaded).wf(),
        final(loaded)@ == expired(old(loaded)@, now, hysteresis),
        forall|i: int|
            0 <= i < r@.len() ==> begins_fading(old(loaded)@, now, hysteresis, (#[trigger] r@[i]).key)
                && old(loaded)@[r@[i].key].entity == Some(r@[i].entity),
        forall|k: ChunkKey|
            begins_fading(old(loaded)@, now, hysteresis, k) ==> exists|i: int|
                0 <= i < r@.len() && (#[trigger] r@[i]).key == k,
        forall|i: int, j: int| 0 <= i < j < r@.len() ==> (#[trigger] r@[i]).key != (#[trigger] r@[j]).key,
{
    let ghost before = loaded@;
    let keys: Vec<(IVec3, u8)> = loaded.keys();
    let mut out: Vec<FadeStart> = Vec::new();
    let mut i: usize = 0;
    proof {
        loaded.lemma_wf();
        assert forall|k: ChunkKey| before.dom().contains(k) <==> keys@.contains(k) by {
            assert(keys@.to_set().contains(k) <==> before.dom().contains(k));
        }
    }
    while i < keys.len()
        invariant
            i <= keys@.len(),
            before == old(loaded)@,
            keys@.no_duplicates(),
            forall|k: ChunkKey| before.dom().contains(k) <==> keys@.contains(k),
            loaded.wf(),
            forall|k: ChunkKey| #[trigger]
                loaded@.dom().contains(k) <==> (if keys@.take(i as int).contains(k) {
                    expired(before, now, hysteresis).dom().contains(k)
                } else {
                    before.dom().contains(k)
                }),
            forall|k: ChunkKey| #[trigger]
                loaded@.dom().contains(k) ==> loaded@[k] == (if keys@.take(i as int).contains(k) {
                    expired(before, now, hysteresis)[k]
                } else {
                    before[k]
                }),
            forall|j: int|
                0 <= j < out@.len() ==> begins_fading(before, now, hysteresis, (#[trigger] out@[j]).key)
                    && before[out@[j].key].entity == Some(out@[j].entity) && keys@.take(i as int).contains(
                    out@[j].key,
                ),
            forall|j: int|
                0 <= j < i && begins_fading(before, now, hysteresis, #[trigger] keys@[j]) ==> exists|l: int|
                    0 <= l < out@.len() && (#[trigger] out@[l]).key == keys@[j],
            forall|j: int, l: int|
                0 <= j < l < out@.len() ==> (#[trigger] out@[j]).key != (#[trigger] out@[l]).key,
        decreases keys@.len() - i,
    {
        let key: (IVec3, u8) = keys[i];
        let ghost a = keys@.take(i as int);
        let ghost b = keys@.take(i + 1);
        let ghost mid = loaded@;
        let ghost start = out@;
        proof {
            assert forall|k: ChunkKey| b.contains(k) <==> (a.contains(k) || k == key) by {
                if a.contains(k) {
                    let j = a.index_of(k);
                    assert(b[j] == k);
                }
                assert(b[i as int] == key);
                if b.contains(k) && k != key {
                    let j = b.index_of(k);
                    assert(a[j] == k);
                }
            }
            assert(!a.contains(key)) by {
                if a.contains(key) {
                    let j = a.index_of(key);
                    assert(keys@[j] == keys@[i as int]);
                }
            }
            assert(keys@.contains(key));
            assert(mid.dom().contains(key));
            assert(mid[key] == before[key]);
        }
        if loaded.is_stale(&key, now, hysteresis) {
            let shown: Option<(u64, bool)> = match loaded.get(&key) {
                Some(chunk) => match chunk.entity {
                    Some(ent) => Some((ent, chunk.is_fading_out)),
                    None => None,
                },
                None => None,
            };
            match shown {
                None => {
                    let _ = loaded.remove(&key);
                },
                Some(pair) => {
                    loaded.mark_fading_out(&key);
                    if !pair.1 {
                        out.push(FadeStart { key, entity: pair.0 });
                        proof {
                            assert(out@[start.len() as int].key == key);
                        }
                    }
                },
            }
        }
        proof {
            assert forall|j: int|
                0 <= j < i + 1 && begins_fading(before, now, hysteresis, #[trigger] keys@[j]) implies exists|l: int|
                0 <= l < out@.len() && (#[trigger] out@[l]).key == keys@[j] by {
                if j < i {
                    let l = choose|l: int| 0 <= l < start.len() && (#[trigger] start[l]).key == keys@[j];
                    assert(out@[l].key == keys@[j]);
                }
            }
        }
        i += 1;
    }
    proof {
        assert(keys@.take(keys@.len() as int) =~= keys@);
        assert(loaded@ =~= expired(before, now, hysteresis));
        assert forall|k: ChunkKey| begins_fading(before, now, hysteresis, k) implies exists|j: int|
            0 <= j < out@.len() && (#[trigger] out@[j]).key == k by {
            assert(keys@.contains(k));
            let j = keys@.index_of(k);
            assert(begins_fading(before, now, hysteresis, keys@[j]));
        }
    }
    out
}

/// The fetches that a plan leads to, given what is loaded and what is in
/// flight: the state of flight afterwards and the bricks to fetch. Bricks go
/// front to back until the cap is reached.
pub open spec fn dispatched(
    plan: Seq<(IVec3, Lod)>,
    loaded: Set<ChunkKey>,
    in_flight: Set<ChunkKey>,
) -> (Set<ChunkKey>, Seq<(IVec3, Lod)>)
    decreases plan.len(),
{
    if plan.len() == 0 {
        (in_flight, Seq::empty())
    } else {
        let (flight, list) = dispatched(plan.drop_last(), loaded, in_flight);
        let key = (plan.last().0, plan.last().1.depth);
        if flight.len() >= MAX_IN_FLIGHT || loaded.contains(key) || flight.contains(key) {
            (flight, list)
        } else {
            (flight.insert(key), list.push(plan.last()))
        }
    }
}

proof fn lemma_saturated(plan: Seq<(IVec3, Lod)>, n: int, loaded: Set<ChunkKey>, in_flight: Set<ChunkKey>)
    requires
        0 <= n <= plan.len(),
        dispatched(plan.take(n), loaded, in_flight).0.len() >= MAX_IN_FLIGHT,
    ensures
        dispatched(plan, loaded, in_flight) == dispatched(plan.take(n), loaded, in_flight),
    decreases plan.len(),
{
    if n == plan.len() {
        assert(plan.take(n) =~= plan);
    } else {
        assert(plan.drop_last().take(n) =~= plan.take(n));
        lemma_saturated(plan.drop_last(), n, loaded, in_flight);
    }
}

/// Claims the bricks of the plan that are neither loaded nor in flight, front
/// to back, until the cap on fetches is reached. The caller starts a fetch for
/// each brick that comes back.
pub fn dispatch_plan<P>(
    workers: &mut BrickGenWorkers<P>,
    loaded: &LoadedChunks,
    plan: &Vec<(IVec3, Lod)>,
) -> (r: Vec<(IVec3, Lod)>)
    requires
        old(workers).wf(),
    ensures
        final(workers).wf(),
        final(workers).results() == old(workers).results(),
        (final(workers).in_flight(), r@) == dispatched(
            plan@,
            loaded@.dom(),
            old(workers).in_flight(),
        ),
        forall|i: int|
            0 <= i < plan@.len() ==> loaded@.dom().contains(((#[trigger] plan@[i]).0, plan@[i].1.depth))
                || final(workers).in_flight().contains((plan@[i].0, plan@[i].1.depth))
                || final(workers).in_flight().len() >= MAX_IN_FLIGHT,
{
    proof {
        assert forall|i: int| 0 <= i < plan@.len() implies loaded@.dom().contains(
            ((#[trigger] plan@[i]).0, plan@[i].1.depth),
        ) || dispatched(plan@, loaded@.dom(), workers.in_flight()).0.contains((plan@[i].0, plan@[i].1.depth))
            || dispatched(plan@, loaded@.dom(), workers.in_flight()).0.len() >= MAX_IN_FLIGHT by {
            every_planned_brick_is_on_its_way(plan@, loaded@.dom(), workers.in_flight(), i);
        }
    }
    let ghost start = workers.in_flight();
    let ghost dom = loaded@.dom();
    let mut out: Vec<(IVec3, Lod)> = Vec::new();
    let mut i: usize = 0;
    proof {
        assert(plan@.take(0) =~= Seq::<(IVec3, Lod)>::empty());
    }
    while i < plan.len()
        invariant
            i <= plan@.len(),
            dom == loaded@.dom(),
            start == old(workers).in_flight(),
            workers.wf(),
            workers.results() == old(workers).results(),
            (workers.in_flight(), out@) == dispatched(plan@.take(i as int), dom, start),
        decreases plan@.len() - i,
    {
        if workers.is_saturated() {
            proof {
                lemma_saturated(plan@, i as int, dom, start);
            }
            return out;
        }
        proof {
            assert(plan@.take(i + 1).drop_last() =~= plan@.take(i as int));
            assert(plan@.take(i + 1).last() == plan@[i as int]);
        }
        let key: (IVec3, u8) = LoadedChunk::key(plan[i].0, plan[i].1);
        if !loaded.contains_key(&key) && !workers.contains(&key) {
            if workers.dispatch(plan[i].0, plan[i].1) {
                out.push(plan[i]);
            }
        }
        i += 1;
    }
    proof {
        assert(plan@.take(plan@.len() as int) =~= plan@);
    }
    out
}

/// A fetch is started only for a brick that is neither loaded nor in flight,
/// never twice, and never beyond the cap.
pub proof fn fetches_are_new_and_capped(
    plan: Seq<(IVec3, Lod)>,
    loaded: Set<ChunkKey>,
    in_flight: Set<ChunkKey>,
)
    requires
        in_flight.finite(),
        in_flight.len() <= MAX_IN_FLIGHT,
    ensures
        ({
            let (flight, list) = dispatched(plan, loaded, in_flight);
            let keys = plan_keys(list);
            &&& flight.finite()
            &&& flight.len() <= MAX_IN_FLIGHT
            &&& flight == in_flight.union(keys.to_set())
            &&& keys.no_duplicates()
            &&& forall|i: int|
                0 <= i < keys.len() ==> !loaded.contains(#[trigger] keys[i]) && !in_flight.contains(keys[i])
        }),
    decreases plan.len(),
{
    let (flight, list) = dispatched(plan, loaded, in_flight);
    let keys = plan_keys(list);
    if plan.len() == 0 {
        assert(flight =~= in_flight.union(keys.to_set()));
    } else {
        fetches_are_new_and_capped(plan.drop_last(), loaded, in_flight);
        let (before, front) = dispatched(plan.drop_last(), loaded, in_flight);
        let old_keys = plan_keys(front);
        let key = (plan.last().0, plan.last().1.depth);
        if !(before.len() >= MAX_IN_FLIGHT || loaded.contains(key) || before.contains(key)) {
            assert(keys =~= old_keys.push(key));
            assert forall|k: ChunkKey| keys.contains(k) <==> (old_keys.contains(k) || k == key) by {
                if old_keys.contains(k) {
                    let i = old_keys.index_of(k);
                    assert(keys[i] == k);
                }
                assert(keys[old_keys.len() as int] == key);
                if keys.contains(k) && k != key {
                    let i = keys.index_of(k);
                    assert(old_keys[i] == k);
                }
            }
            assert(!old_keys.contains(key)) by {
                if old_keys.contains(key) {
                    assert(before.contains(key));
                }
            }
            assert(!in_flight.contains(key));
            assert(flight =~= in_flight.union(keys.to_set()));
            assert forall|i: int, j: int| 0 <= i < keys.len() && 0 <= j < keys.len() && i != j implies keys[i]
                != keys[j] by {
                if i == old_keys.len() {
                    assert(old_keys.contains(old_keys[j]));
                } else if j == old_keys.len() {
                    assert(old_keys.contains(old_keys[i]));
                }
            }
        }
    }
}

/// What a frame of streaming leads to.
pub struct StreamActions<P> {
    /// Bricks whose fade-out begins.
    pub fade_out: Vec<FadeStart>,
    /// Bricks to fetch.
    pub fetch: Vec<(IVec3, Lod)>,
    /// Finished bricks to show.
    pub show: Vec<BrickReady<P>>,
}

/// One frame of streaming along a plan: the frame counter goes up, the chunks
/// of the plan are noted as desired, stale chunks fade out, missing ones are
/// fetched, and up to `budget` finished ones are handed out. Before the scene
/// is ready nothing happens.
pub fn fp_stream_bricks<P>(
    ready: bool,
    streamer: &mut ChunkStreamer,
    loaded: &mut LoadedChunks,
    plan: &Vec<(IVec3, Lod)>,
    workers: &mut BrickGenWorkers<P>,
    budget: usize,
) -> (r: Option<StreamActions<P>>)
    requires
        old(loaded).wf(),
        old(workers).wf(),
    ensures
        final(loaded).wf(),
        final(workers).wf(),
        r is Some <==> ready,
        !ready ==> *final(streamer) == *old(streamer) && final(loaded)@ == old(loaded)@
            && final(workers).in_flight() == old(workers).in_flight() && final(workers).results() == old(workers).results(),
        final(streamer).ladder == old(streamer).ladder,
        final(streamer).policy == old(streamer).policy,
        final(streamer).hysteresis_ticks == old(streamer).hysteresis_ticks,
        ready ==> final(streamer).frame == (if old(streamer).frame == u64::MAX {
            u64::MAX
        } else {
            (old(streamer).frame + 1) as u64
        }),
        ready ==> ({
            let frame = final(streamer).frame;
            let hyst = old(streamer).hysteresis_ticks;
            let seen = touched(old(loaded)@, plan_keys(plan@), frame);
            let kept = expired(seen, frame, hyst);
            let (flight, fetch) = dispatched(plan@, kept.dom(), old(workers).in_flight());
            let a = r->0;
            let n = if budget < old(workers).results().len() {
                budget as int
            } else {
                old(workers).results().len() as int
            };
            &&& final(loaded)@ == kept
            &&& a.fetch@ == fetch
            &&& a.show@ == old(workers).results().take(n)
            &&& final(workers).results() == old(workers).results().skip(n)
            &&& final(workers).in_flight() == without(flight, ready_keys(a.show@))
            &&& forall|i: int|
                0 <= i < a.fade_out@.len() ==> begins_fading(
                    seen,
                    frame,
                    hyst,
                    (#[trigger] a.fade_out@[i]).key,
                ) && seen[a.fade_out@[i].key].entity == Some(a.fade_out@[i].entity)
            &&& forall|k: ChunkKey|
                begins_fading(seen, frame, hyst, k) ==> exists|i: int|
                    0 <= i < a.fade_out@.len() && (#[trigger] a.fade_out@[i]).key == k
            &&& forall|i: int, j: int|
                0 <= i < j < a.fade_out@.len() ==> (#[trigger] a.fade_out@[i]).key != (
                #[trigger] a.fade_out@[j]).key
        }),
{
    if !ready {
        return None;
    }
    streamer.tick_frame();
    let frame: u64 = streamer.frame;
    touch_desired(loaded, plan, frame);
    let fade_out: Vec<FadeStart> = expire_stale(loaded, frame, streamer.hysteresis_ticks);
    let fetch: Vec<(IVec3, Lod)> = dispatch_plan(workers, loaded, plan);
    let show: Vec<BrickReady<P>> = workers.drain(budget);
    Some(StreamActions { fade_out, fetch, show })
}

/// A desired chunk is never stale in the frame that desires it, unless there is
/// no grace period at all.
pub proof fn desired_chunks_stay(
    chunks: Map<ChunkKey, LoadedChunk>,
    keys: Seq<ChunkKey>,
    frame: u64,
    hysteresis: u64,
    k: ChunkKey,
)
    requires
        keys.contains(k),
        chunks.dom().contains(k),
        hysteresis > 0,
    ensures
        expired(touched(chunks, keys, frame), frame, hysteresis).dom().contains(k),
        expired(touched(chunks, keys, frame), frame, hysteresis)[k] == (LoadedChunk {
            last_seen_frame: frame,
            ..chunks[k]
        }),
{
}

/// One vertex of a mesh.
#[derive(Clone, Copy, Debug)]
pub struct Vertex {
    pub pos: [Real32; 3],
    pub normal: [Real32; 3],
    /// How much light reaches the vertex.
    pub ao: Real32,
}

/// The mesh of one material in a brick.
#[derive(Debug)]
pub struct SubMesh {
    pub vertices: Vec<Vertex>,
    pub indices: Vec<u32>,
}

/// The voxel edge of a level of detail, in meters.
pub fn lod_scale(depth: u8) -> (r: u64)
    requires
        depth < 64,
    ensures
        r as nat == vstd::arithmetic::power2::pow2(depth as nat),
{
    proof {
        vstd::arithmetic::power2::lemma_pow2_pos(depth as nat);
        vstd::bits::lemma_u64_pow2_no_overflow(depth as nat);
        vstd::bits::lemma_u64_shl_is_mul(1, depth as u64);
    }
    1u64 << (depth as u64)
}

/// What is spawned for a finished brick.
#[derive(Debug)]
pub enum SpawnPlan {
    /// Nothing to show; the brick is only recorded.
    Placeholder,
    /// An entity with one child mesh for each of these materials.
    PerMaterial(Vec<u16>),
    /// An entity with one merged mesh.
    Merged,
    /// An entity without a mesh.
    Bare,
}

/// The materials of `meshes` that get a child mesh of their own: those with
/// triangles and a place in the table.
pub open spec fn shown_materials(meshes: Seq<(u16, SubMesh)>, slots: int) -> Seq<u16>
    decreases meshes.len(),
{
    if meshes.len() == 0 {
        Seq::empty()
    } else {
        let front = shown_materials(meshes.drop_last(), slots);
        if meshes.last().1.indices@.len() > 0 && (meshes.last().0 as int) < slots {
            front.push(meshes.last().0)
        } else {
            front
        }
    }
}

/// Some mesh has triangles.
pub open spec fn has_triangles(meshes: Seq<(u16, SubMesh)>) -> bool {
    exists|i: int| 0 <= i < meshes.len() && (#[trigger] meshes[i]).1.indices@.len() > 0
}

/// What to spawn for a finished brick with these meshes, given the shading
/// mode, the size of the material table, and whether the merged material
/// exists.
pub fn plan_spawn(
    meshes: &Vec<(u16, SubMesh)>,
    shading: ShadingMode,
    slots: usize,
    merged_material: bool,
) -> (r: SpawnPlan)
    ensures
        match r {
            SpawnPlan::Placeholder => meshes@.len() == 0,
            SpawnPlan::PerMaterial(ids) => meshes@.len() > 0 && shading is SplitPerMaterial && ids@
                == shown_materials(meshes@, slots as int),
            SpawnPlan::Merged => meshes@.len() > 0 && shading is PaletteVoxelMaterial && merged_material
                && has_triangles(meshes@),
            SpawnPlan::Bare => meshes@.len() > 0 && shading is PaletteVoxelMaterial && !(merged_material
                && has_triangles(meshes@)),
        },
        r is Merged <==> shading is PaletteVoxelMaterial && merged_material && exists|i: int|
            0 <= i < meshes@.len() && (#[trigger] meshes@[i]).1.indices@.len() > 0,
        r is Placeholder <==> meshes@.len() == 0,
        r is PerMaterial <==> meshes@.len() > 0 && shading is SplitPerMaterial,
{
    if meshes.len() == 0 {
        return SpawnPlan::Placeholder;
    }
    match shading {
        ShadingMode::SplitPerMaterial => {
            let mut ids: Vec<u16> = Vec::new();
            let mut i: usize = 0;
            proof {
                assert(meshes@.take(0) =~= Seq::<(u16, SubMesh)>::empty());
            }
            while i < meshes.len()
                invariant
                    i <= meshes@.len(),
                    ids@ == shown_materials(meshes@.take(i as int), slots as int),
                decreases meshes@.len() - i,
            {
                proof {
                    assert(meshes@.take(i + 1).drop_last() =~= meshes@.take(i as int));
                    assert(meshes@.take(i + 1).last() == meshes@[i as int]);
                }
                if meshes[i].1.indices.len() > 0 && (meshes[i].0 as usize) < slots {
                    ids.push(meshes[i].0);
                }
                i += 1;
            }
            proof {
                assert(meshes@.take(meshes@.len() as int) =~= meshes@);
            }
            SpawnPlan::PerMaterial(ids)
        },
        ShadingMode::PaletteVoxelMaterial => {
            if !merged_material {
                return SpawnPlan::Bare;
            }
            let mut i: usize = 0;
            while i < meshes.len()
                invariant
                    i <= meshes@.len(),
                    meshes@.len() > 0,
                    merged_material,
                    shading is PaletteVoxelMaterial,
                    forall|k: int| 0 <= k < i ==> (#[trigger] meshes@[k]).1.indices@.len() == 0,
                decreases meshes@.len() - i,
            {
                if meshes[i].1.indices.len() > 0 {
                    assert(meshes@[i as int].1.indices@.len() > 0);
                    return SpawnPlan::Merged;
                }
                i += 1;
            }
            SpawnPlan::Bare
        },
    }
}

/// The chunk that is recorded for a finished brick. Voxels stay resident at the
/// finest level only, and only of a brick that is shown.
pub open spec fn spawned_chunk(
    coord: IVec3,
    lod: Lod,
    entity: Option<u64>,
    frame: u64,
    dag: Option<(u64, RaymarchShadingTier)>,
    brick: Option<Brick>,
) -> LoadedChunk {
    LoadedChunk {
        coord,
        lod,
        entity,
        last_seen_frame: frame,
        is_fading_out: false,
        dag_digest: match dag {
            Some((digest, _)) => Some(digest),
            None => None,
        },
        dag_tier: match dag {
            Some((_, tier)) => Some(tier),
            None => None,
        },
        brick: if lod.depth == 0 && entity is Some {
            brick
        } else {
            None
        },
    }
}

/// The entity of a finished brick: none exactly for a placeholder.
pub open spec fn shown_entity(plan: SpawnPlan, entity: u64) -> Option<u64> {
    if plan is Placeholder {
        None
    } else {
        Some(entity)
    }
}

/// Records a finished brick with the entity that was spawned by its plan; a
/// placeholder has none, and `entity` is not looked at. Either way the brick
/// counts as loaded and is not fetched again.
pub fn spawn_brick_entity(
    loaded: &mut LoadedChunks,
    coord: IVec3,
    lod: Lod,
    plan: &SpawnPlan,
    entity: u64,
    frame: u64,
    dag: Option<(u64, RaymarchShadingTier)>,
    brick: Option<Brick>,
)
    requires
        old(loaded).wf(),
        lod.depth < 255,
        brick is Some ==> brick->0.wf(),
    ensures
        final(loaded).wf(),
        final(loaded)@ == old(loaded)@.insert(
            (coord, lod.depth),
            spawned_chunk(coord, lod, shown_entity(*plan, entity), frame, dag, brick),
        ),
        ({
            let c = final(loaded)@[(coord, lod.depth)];
            &&& c.coord == coord && c.lod == lod && c.last_seen_frame == frame && !c.is_fading_out
            &&& c.entity is None <==> *plan is Placeholder
            &&& c.entity is Some ==> c.entity == Some(entity)
            &&& dag is Some ==> c.dag_digest == Some((dag->0).0) && c.dag_tier == Some((dag->0).1)
            &&& dag is None ==> c.dag_digest is None && c.dag_tier is None
            &&& c.brick == (if lod.depth == 0 && !(*plan is Placeholder) {
                brick
            } else {
                None
            })
        }),
{
    let entity: Option<u64> = match plan {
        SpawnPlan::Placeholder => None,
        _ => Some(entity),
    };
    let (dag_digest, dag_tier): (Option<u64>, Option<RaymarchShadingTier>) = match dag {
        Some((digest, tier)) => (Some(digest), Some(tier)),
        None => (None, None),
    };
    let resident: Option<Brick> = if lod.depth == 0 && entity.is_some() {
        brick
    } else {
        None
    };
    loaded.insert(
        LoadedChunk::key(coord, lod),
        LoadedChunk {
            coord,
            lod,
            entity,
            last_seen_frame: frame,
            is_fading_out: false,
            dag_digest,
            dag_tier,
            brick: resident,
        },
    );
}

/// A shown brick, as the level-of-detail pass sees it.
#[derive(Clone, Copy, Debug)]
pub struct ShownBrick {
    pub key: (IVec3, u8),
    pub hidden: bool,
    /// Its fade-in is under way.
    pub fading_in: bool,
}

/// What the level-of-detail pass does to a brick.
#[derive(Clone, Copy, Debug, PartialEq, Eq, Structural)]
pub enum LodChange {
    Keep,
    Hide,
    /// Show it; `bloom` starts a fade-in.
    Reveal { bloom: bool },
}

/// A brick is hidden while all eight of its children cover it, and shown
/// otherwise.
pub open spec fn lod_change(chunks: Map<ChunkKey, LoadedChunk>, b: ShownBrick) -> LodChange {
    let covered = live_children(chunks, b.key).len() == 8;
    if covered {
        if b.hidden {
            LodChange::Keep
        } else {
            LodChange::Hide
        }
    } else if b.hidden {
        LodChange::Reveal { bloom: !b.fading_in }
    } else {
        LodChange::Keep
    }
}

/// The changes that keep, in every region, the finest loaded bricks in view.
pub fn fp_update_lod_visibility(loaded: &LoadedChunks, bricks: &Vec<ShownBrick>) -> (r: Vec<LodChange>)
    requires
        loaded.wf(),
    ensures
        r@ == Seq::new(bricks@.len(), |i: int| lod_change(loaded@, bricks@[i])),
{
    let mut out: Vec<LodChange> = Vec::new();
    let mut i: usize = 0;
    while i < bricks.len()
        invariant
            loaded.wf(),
            i <= bricks@.len(),
            out@.len() == i,
            forall|k: int| 0 <= k < i ==> #[trigger] out@[k] == lod_change(loaded@, bricks@[k]),
        decreases bricks@.len() - i,
    {
        let b: ShownBrick = bricks[i];
        let covered: bool = loaded.child_count(&b.key) == 8;
        let change: LodChange = if covered {
            if b.hidden {
                LodChange::Keep
            } else {
                LodChange::Hide
            }
        } else if b.hidden {
            LodChange::Reveal { bloom: !b.fading_in }
        } else {
            LodChange::Keep
        };
        out.push(change);
        i += 1;
    }
    proof {
        assert(out@ =~= Seq::new(bricks@.len(), |k: int| lod_change(loaded@, bricks@[k])));
    }
    out
}

/// After the pass a brick is hidden exactly when each of the eight bricks that
/// it covers is loaded and not fading out: in every region the finest loaded
/// bricks are in view.
pub proof fn hidden_means_covered(chunks: Map<ChunkKey, LoadedChunk>, b: ShownBrick)
    requires
        chunks.dom().finite(),
        forall|k: ChunkKey| #[trigger] chunks.dom().contains(k) ==> k.1 < 255,
        1 <= b.key.1,
        i64::MIN <= 2 * b.key.0.x && 2 * b.key.0.x + 1 <= i64::MAX,
        i64::MIN <= 2 * b.key.0.y && 2 * b.key.0.y + 1 <= i64::MAX,
        i64::MIN <= 2 * b.key.0.z && 2 * b.key.0.z + 1 <= i64::MAX,
    ensures
        ({
            let hidden = match lod_change(chunks, b) {
                LodChange::Keep => b.hidden,
                LodChange::Hide => true,
                LodChange::Reveal { .. } => false,
            };
            hidden <==> (forall|k: ChunkKey| #[trigger]
                octants(b.key).contains(k) ==> chunks.dom().contains(k) && !chunks[k].is_fading_out)
        }),
{
    eight_live_children_cover(chunks, b.key);
}

/// A step of a fade animation.
#[derive(Clone, Copy, Debug, PartialEq, Eq, Structural)]
pub enum FadeStep {
    /// A hidden brick waits.
    Frozen,
    Running,
    Done,
}

/// One step of a fade-in. `progress` is the share of it that has passed; a
/// hidden brick's fade-in waits until it is shown.
pub fn fp_animate_fade_in(hidden: bool, progress: Real32) -> (r: FadeStep)
    ensures
        r == (if hidden {
            FadeStep::Frozen
        } else if (Real32 { bits: 0x3f80_0000 }).less_or_equal(progress) {
            FadeStep::Done
        } else {
            FadeStep::Running
        }),
{
    if hidden {
        FadeStep::Frozen
    } else if (Real32 { bits: 0x3f80_0000 }).le(progress) {
        FadeStep::Done
    } else {
        FadeStep::Running
    }
}

/// One step of a fade-out. When it is done, the chunk is gone and the caller
/// removes its entity.
pub fn fp_animate_fade_out(loaded: &mut LoadedChunks, key: &(IVec3, u8), progress: Real32) -> (r: FadeStep)
    requires
        old(loaded).wf(),
    ensures
        final(loaded).wf(),
        r == (if (Real32 { bits: 0x3f80_0000 }).less_or_equal(progress) {
            FadeStep::Done
        } else {
            FadeStep::Running
        }),
        final(loaded)@ == (if r is Done {
            old(loaded)@.remove(*key)
        } else {
            old(loaded)@
        }),
{
    if (Real32 { bits: 0x3f80_0000 }).le(progress) {
        let _ = loaded.remove(key);
        proof {
            assert(loaded@ =~= old(loaded)@.remove(*key));
        }
        FadeStep::Done
    } else {
        FadeStep::Running
    }
}

/// Several meshes in one. Every vertex carries its material.
#[derive(Debug)]
pub struct MergedMesh {
    pub positions: Vec<[Real32; 3]>,
    pub normals: Vec<[Real32; 3]>,
    pub light: Vec<Real32>,
    pub materials: Vec<u16>,
    pub indices: Vec<u32>,
}

/// A number held between 0 and 1.
pub open spec fn unit_clamped(v: Real32) -> Real32 {
    if v.less(Real32 { bits: 0 }) {
        Real32 { bits: 0 }
    } else if (Real32 { bits: 0x3f80_0000 }).less(v) {
        Real32 { bits: 0x3f80_0000 }
    } else {
        v
    }
}

fn clamp_unit(v: Real32) -> (r: Real32)
    ensures
        r == unit_clamped(v),
{
    if v.lt(Real32 { bits: 0 }) {
        Real32 { bits: 0 }
    } else if (Real32 { bits: 0x3f80_0000 }).lt(v) {
        Real32 { bits: 0x3f80_0000 }
    } else {
        v
    }
}

/// A vertex of a merged mesh.
pub ghost struct MergedVertex {
    pub pos: [Real32; 3],
    pub normal: [Real32; 3],
    pub light: Real32,
    pub material: u16,
}

/// The vertices and indices of merged meshes.
pub ghost struct MergedView {
    pub vertices: Seq<MergedVertex>,
    pub indices: Seq<int>,
}

pub open spec fn merged_vertex(v: Vertex, material: u16) -> MergedVertex {
    MergedVertex { pos: v.pos, normal: v.normal, light: unit_clamped(v.ao), material }
}

/// The meshes one after the other, each index moved past the vertices before
/// it. A mesh without triangles contributes nothing.
pub open spec fn merged_of(meshes: Seq<(u16, SubMesh)>) -> MergedView
    decreases meshes.len(),
{
    if meshes.len() == 0 {
        MergedView { vertices: Seq::empty(), indices: Seq::empty() }
    } else {
        let front = merged_of(meshes.drop_last());
        let (id, m) = meshes.last();
        if m.indices@.len() == 0 {
            front
        } else {
            MergedView {
                vertices: front.vertices + Seq::new(
                    m.vertices@.len(),
                    |i: int| merged_vertex(m.vertices@[i], id),
                ),
                indices: front.indices + Seq::new(
                    m.indices@.len(),
                    |i: int| m.indices@[i] + front.vertices.len(),
                ),
            }
        }
    }
}

impl View for MergedMesh {
    type V = MergedView;

    open spec fn view(&self) -> MergedView {
        MergedView {
            vertices: Seq::new(
                self.positions@.len(),
                |i: int|
                    MergedVertex {
                        pos: self.positions@[i],
                        normal: self.normals@[i],
                        light: self.light@[i],
                        material: self.materials@[i],
                    },
            ),
            indices: Seq::new(self.indices@.len(), |i: int| self.indices@[i] as int),
        }
    }
}

/// The numbers of materials, as ranks.
pub open spec fn material_ranks(meshes: Seq<(u16, SubMesh)>) -> Seq<i128> {
    Seq::new(meshes.len(), |i: int| meshes[i].0 as i128)
}

/// The meshes by material number.
pub open spec fn by_material(meshes: Seq<(u16, SubMesh)>, order: Seq<usize>) -> Seq<(u16, SubMesh)> {
    Seq::new(order.len(), |i: int| meshes[order[i] as int])
}

/// All vertices fit under 32-bit indices.
pub open spec fn indices_fit(view: MergedView) -> bool {
    &&& view.vertices.len() <= u32::MAX
    &&& forall|i: int| 0 <= i < view.indices.len() ==> (#[trigger] view.indices[i]) <= u32::MAX
}

fn push_mesh(out: &mut MergedMesh, id: u16, m: &SubMesh)
    requires
        old(out).positions@.len() == old(out).normals@.len(),
        old(out).positions@.len() == old(out).light@.len(),
        old(out).positions@.len() == old(out).materials@.len(),
        old(out).positions@.len() <= u32::MAX,
        forall|i: int|
            0 <= i < m.indices@.len() ==> (#[trigger] m.indices@[i]) + old(out).positions@.len() <= u32::MAX,
    ensures
        final(out).positions@.len() == final(out).normals@.len(),
        final(out).positions@.len() == final(out).light@.len(),
        final(out).positions@.len() == final(out).materials@.len(),
        final(out)@.vertices == old(out)@.vertices + Seq::new(
            m.vertices@.len(),
            |i: int| merged_vertex(m.vertices@[i], id),
        ),
        final(out)@.indices == old(out)@.indices + Seq::new(
            m.indices@.len(),
            |i: int| m.indices@[i] + old(out).positions@.len(),
        ),
{
    let ghost before = out@;
    let base: u32 = out.positions.len() as u32;
    let mut i: usize = 0;
    proof {
        assert(out@.vertices =~= before.vertices + Seq::new(
            0,
            |k: int| merged_vertex(m.vertices@[k], id),
        ));
        assert(out@.indices =~= before.indices);
    }
    while i < m.vertices.len()
        invariant
            i <= m.vertices@.len(),
            out.positions@.len() == out.normals@.len(),
            out.positions@.len() == out.light@.len(),
            out.positions@.len() == out.materials@.len(),
            out@.vertices == before.vertices + Seq::new(
                i as nat,
                |k: int| merged_vertex(m.vertices@[k], id),
            ),
            out@.indices == before.indices,
        decreases m.vertices@.len() - i,
    {
        let v: Vertex = m.vertices[i];
        let ghost mid = out@;
        let mut next: MergedMesh = MergedMesh {
            positions: Vec::new(),
            normals: Vec::new(),
            light: Vec::new(),
            materials: Vec::new(),
            indices: Vec::new(),
        };
        core::mem::swap(out, &mut next);
        next.positions.push(v.pos);
        next.normals.push(v.normal);
        next.light.push(clamp_unit(v.ao));
        next.materials.push(id);
        *out = next;
        proof {
            assert(out@.vertices =~= mid.vertices.push(merged_vertex(v, id)));
            assert(out@.vertices =~= before.vertices + Seq::new(
                (i + 1) as nat,
                |k: int| merged_vertex(m.vertices@[k], id),
            ));
            assert(out@.indices =~= mid.indices);
        }
        i += 1;
    }
    let ghost grown = out@.vertices;
    let mut j: usize = 0;
    proof {
        assert(out@.indices =~= before.indices + Seq::new(0, |k: int| m.indices@[k] + base));
    }
    while j < m.indices.len()
        invariant
            j <= m.indices@.len(),
            forall|k: int| 0 <= k < m.indices@.len() ==> (#[trigger] m.indices@[k]) + base <= u32::MAX,
            out.positions@.len() == out.normals@.len(),
            out.positions@.len() == out.light@.len(),
            out.positions@.len() == out.materials@.len(),
            out@.vertices == grown,
            out@.indices == before.indices + Seq::new(j as nat, |k: int| m.indices@[k] + base),
        decreases m.indices@.len() - j,
    {
        let ghost mid = out@;
        out.indices.push(m.indices[j] + base);
        proof {
            assert(out@.vertices =~= grown);
            assert(out@.indices =~= mid.indices.push(m.indices@[j as int] + base));
            assert(out@.indices =~= before.indices + Seq::new(
                (j + 1) as nat,
                |k: int| m.indices@[k] + base,
            ));
        }
        j += 1;
    }
}

/// `sorted` is `meshes` by material number.
pub open spec fn is_sorted_by_material(meshes: Seq<(u16, SubMesh)>, sorted: Seq<(u16, SubMesh)>) -> bool {
    exists|order: Seq<usize>| #[trigger]
        is_stable_order(material_ranks(meshes), order) && sorted == by_material(meshes, order)
}

/// The order of the meshes by material number.
fn material_order(meshes: &Vec<(u16, SubMesh)>) -> (order: Vec<usize>)
    ensures
        is_stable_order(material_ranks(meshes@), order@),
        is_sorted_by_material(meshes@, by_material(meshes@, order@)),
{
    let mut ranks: Vec<i128> = Vec::new();
    let mut i: usize = 0;
    while i < meshes.len()
        invariant
            i <= meshes@.len(),
            ranks@.len() == i,
            forall|k: int| 0 <= k < i ==> #[trigger] ranks@[k] == meshes@[k].0 as i128,
        decreases meshes@.len() - i,
    {
        ranks.push(meshes[i].0 as i128);
        i += 1;
    }
    proof {
        assert(ranks@ =~= material_ranks(meshes@));
    }
    stable_order(&ranks)
}

/// Every index of the meshes merged in this order is a 32-bit number.
pub open spec fn merge_fits(meshes: Seq<(u16, SubMesh)>) -> bool {
    forall|n: int| 0 <= n <= meshes.len() ==> #[trigger] indices_fit(merged_of(meshes.take(n)))
}

proof fn lemma_merged_grows(meshes: Seq<(u16, SubMesh)>, n: int)
    requires
        0 <= n < meshes.len(),
    ensures
        meshes[n].1.indices@.len() == 0 ==> merged_of(meshes.take(n + 1)) == merged_of(meshes.take(n)),
        meshes[n].1.indices@.len() > 0 ==> merged_of(meshes.take(n + 1)).vertices.len() == merged_of(
            meshes.take(n),
        ).vertices.len() + meshes[n].1.vertices@.len() && merged_of(meshes.take(n + 1)).indices
            == merged_of(meshes.take(n)).indices + Seq::new(
            meshes[n].1.indices@.len(),
            |i: int| meshes[n].1.indices@[i] + merged_of(meshes.take(n)).vertices.len(),
        ),
{
    assert(meshes.take(n + 1).drop_last() =~= meshes.take(n));
    assert(meshes.take(n + 1).last() == meshes[n]);
}

/// Every index of the meshes merged by material number is a 32-bit number.
pub open spec fn sorted_merge_fits(meshes: Seq<(u16, SubMesh)>) -> bool {
    forall|s: Seq<(u16, SubMesh)>| #[trigger] is_sorted_by_material(meshes, s) ==> merge_fits(s)
}

proof fn lemma_sorted_once(meshes: Seq<(u16, SubMesh)>, order: Seq<usize>)
    requires
        is_stable_order(material_ranks(meshes), order),
    ensures
        forall|s: Seq<(u16, SubMesh)>| #[trigger]
            is_sorted_by_material(meshes, s) ==> s == by_material(meshes, order),
{
    assert forall|s: Seq<(u16, SubMesh)>| #[trigger] is_sorted_by_material(meshes, s) implies s == by_material(
        meshes,
        order,
    ) by {
        let other = choose|o: Seq<usize>| #[trigger]
            is_stable_order(material_ranks(meshes), o) && s == by_material(meshes, o);
        stable_order_is_unique(material_ranks(meshes), order, other);
    }
}

/// Whether the merged mesh's indices fit into 32 bits.
pub fn can_merge(meshes: &Vec<(u16, SubMesh)>) -> (r: bool)
    ensures
        r == sorted_merge_fits(meshes@),
{
    let order: Vec<usize> = material_order(meshes);
    let ghost sorted = by_material(meshes@, order@);
    proof {
        lemma_sorted_once(meshes@, order@);
    }
    let mut base: u64 = 0;
    let mut i: usize = 0;
    proof {
        assert(sorted.take(0) =~= Seq::<(u16, SubMesh)>::empty());
    }
    while i < order.len()
        invariant
            i <= order@.len(),
            is_stable_order(material_ranks(meshes@), order@),
            sorted == by_material(meshes@, order@),
            is_sorted_by_material(meshes@, sorted),
            base == merged_of(sorted.take(i as int)).vertices.len(),
            base <= u32::MAX,
            forall|n: int| 0 <= n <= i ==> #[trigger] indices_fit(merged_of(sorted.take(n))),
        decreases order@.len() - i,
    {
        proof {
            assert((order@[i as int] as int) < material_ranks(meshes@).len());
        }
        let m: &SubMesh = &meshes[order[i]].1;
        let ghost front = merged_of(sorted.take(i as int));
        let ghost next = merged_of(sorted.take(i + 1));
        proof {
            lemma_merged_grows(sorted, i as int);
        }
        if m.indices.len() > 0 {
            let count: u64 = m.vertices.len() as u64;
            if count > 0xffff_ffff - base {
                assert(!indices_fit(next));
                return false;
            }
            let mut j: usize = 0;
            while j < m.indices.len()
                invariant
                    j <= m.indices@.len(),
                    i < sorted.len(),
                    is_sorted_by_material(meshes@, sorted),
                    *m == sorted[i as int].1,
                    base <= u32::MAX,
                    base == front.vertices.len(),
                    next == merged_of(sorted.take(i + 1)),
                    next.indices == front.indices + Seq::new(
                        m.indices@.len(),
                        |k: int| m.indices@[k] + front.vertices.len(),
                    ),
                    forall|k: int| 0 <= k < j ==> (#[trigger] m.indices@[k]) + base <= u32::MAX,
                decreases m.indices@.len() - j,
            {
                if m.indices[j] as u64 > 0xffff_ffff - base {
                    proof {
                        assert(next.indices[front.indices.len() + j] == m.indices@[j as int] + base);
                        assert(!indices_fit(next));
                    }
                    return false;
                }
                j += 1;
            }
            base = base + count;
            proof {
                assert forall|k: int| 0 <= k < next.indices.len() implies (#[trigger] next.indices[k])
                    <= u32::MAX by {
                    if k < front.indices.len() {
                        assert(next.indices[k] == front.indices[k]);
                        assert(indices_fit(front));
                    } else {
                        assert(next.indices[k] == m.indices@[k - front.indices.len()] + front.vertices.len());
                    }
                }
                assert(indices_fit(next));
            }
        }
        i += 1;
    }
    true
}

/// Merges the meshes of a brick into one, in the order of their materials.
pub fn merge_by_material(meshes: &Vec<(u16, SubMesh)>) -> (r: MergedMesh)
    requires
        sorted_merge_fits(meshes@),
    ensures
        exists|s: Seq<(u16, SubMesh)>| #[trigger] is_sorted_by_material(meshes@, s) && r@ == merged_of(s),
        r.normals@.len() == r.positions@.len(),
        r.light@.len() == r.positions@.len(),
        r.materials@.len() == r.positions@.len(),
{
    let order: Vec<usize> = material_order(meshes);
    let ghost sorted = by_material(meshes@, order@);
    let mut out: MergedMesh = MergedMesh {
        positions: Vec::new(),
        normals: Vec::new(),
        light: Vec::new(),
        materials: Vec::new(),
        indices: Vec::new(),
    };
    proof {
        assert(sorted.take(0) =~= Seq::<(u16, SubMesh)>::empty());
        assert(out@.vertices =~= merged_of(sorted.take(0)).vertices);
        assert(out@.indices =~= merged_of(sorted.take(0)).indices);
    }
    let mut j: usize = 0;
    while j < order.len()
        invariant
            j <= order@.len(),
            is_stable_order(material_ranks(meshes@), order@),
            sorted == by_material(meshes@, order@),
            merge_fits(sorted),
            out.positions@.len() == out.normals@.len(),
            out.positions@.len() == out.light@.len(),
            out.positions@.len() == out.materials@.len(),
            out@ == merged_of(sorted.take(j as int)),
        decreases order@.len() - j,
    {
        proof {
            assert((order@[j as int] as int) < material_ranks(meshes@).len());
        }
        let pair: &(u16, SubMesh) = &meshes[order[j]];
        proof {
            assert(sorted.take(j + 1).drop_last() =~= sorted.take(j as int));
            assert(sorted.take(j + 1).last() == sorted[j as int]);
            lemma_merged_grows(sorted, j as int);
        }
        if pair.1.indices.len() > 0 {
            let ghost front = out@;
            proof {
                assert(indices_fit(merged_of(sorted.take(j + 1))));
                assert(indices_fit(merged_of(sorted.take(j as int))));
                assert(out.positions@.len() == front.vertices.len());
                let all = merged_of(sorted.take(j + 1)).indices;
                assert forall|k: int| 0 <= k < pair.1.indices@.len() implies (#[trigger] pair.1.indices@[k])
                    + out.positions@.len() <= u32::MAX by {
                    assert(all[front.indices.len() + k] == pair.1.indices@[k] + front.vertices.len());
                    assert(all[front.indices.len() + k] <= u32::MAX);
                }
            }
            push_mesh(&mut out, pair.0, &pair.1);
            proof {
                assert(out@.vertices =~= merged_of(sorted.take(j + 1)).vertices);
                assert(out@.indices =~= merged_of(sorted.take(j + 1)).indices);
            }
        }
        j += 1;
    }
    proof {
        assert(sorted.take(sorted.len() as int) =~= sorted);
    }
    out
}

/// No two meshes have the same material.
pub open spec fn has_distinct_materials(meshes: Seq<(u16, SubMesh)>) -> bool {
    forall|i: int, j: int|
        0 <= i < j < meshes.len() ==> (#[trigger] meshes[i]).0 != (#[trigger] meshes[j]).0
}

proof fn lemma_sorted_meshes(meshes: Seq<(u16, SubMesh)>, s: Seq<(u16, SubMesh)>)
    requires
        has_distinct_materials(meshes),
        is_sorted_by_material(meshes, s),
    ensures
        forall|x: (u16, SubMesh)| #[trigger] s.contains(x) <==> meshes.contains(x),
        forall|i: int, j: int| 0 <= i < j < s.len() ==> (#[trigger] s[i]).0 < (#[trigger] s[j]).0,
{
    let ranks = material_ranks(meshes);
    let order = choose|o: Seq<usize>| #[trigger] is_stable_order(ranks, o) && s == by_material(meshes, o);
    assert forall|x: (u16, SubMesh)| #[trigger] s.contains(x) <==> meshes.contains(x) by {
        if s.contains(x) {
            let i = s.index_of(x);
            assert((order[i] as int) < ranks.len());
            assert(meshes[order[i] as int] == x);
        }
        if meshes.contains(x) {
            let i = lemma_order_has(ranks, order, meshes.index_of(x));
            assert(s[i] == x);
        }
    }
    assert forall|i: int, j: int| 0 <= i < j < s.len() implies (#[trigger] s[i]).0 < (#[trigger] s[j]).0 by {
        let (a, b) = (order[i] as int, order[j] as int);
        assert(goes_before(ranks, order[i] as int, order[j] as int));
        assert(a < ranks.len() && b < ranks.len());
        if a < b {
            assert(meshes[a].0 != meshes[b].0);
        } else {
            assert(meshes[b].0 != meshes[a].0);
        }
    }
}

proof fn lemma_same_run(s: Seq<(u16, SubMesh)>, t: Seq<(u16, SubMesh)>, n: int)
    requires
        forall|x: (u16, SubMesh)| #[trigger] s.contains(x) <==> t.contains(x),
        forall|i: int, j: int| 0 <= i < j < s.len() ==> (#[trigger] s[i]).0 < (#[trigger] s[j]).0,
        forall|i: int, j: int| 0 <= i < j < t.len() ==> (#[trigger] t[i]).0 < (#[trigger] t[j]).0,
        0 <= n <= s.len(),
    ensures
        n <= t.len(),
        forall|k: int| 0 <= k < n ==> s[k] == #[trigger] t[k],
    decreases n,
{
    if n > 0 {
        let m = n - 1;
        lemma_same_run(s, t, m);
        assert(s.contains(s[m]));
        let i = t.index_of(s[m]);
        assert(t[i] == s[m]);
        if i < m {
            assert(s[i] == t[i]);
        }
        assert(i >= m);
        assert(t.contains(t[m]));
        assert(s.contains(t[m]));
        let j = s.index_of(t[m]);
        assert(s[j] == t[m]);
        if j < m {
            assert(s[j] == t[j]);
        }
    }
}

/// The merged mesh does not depend on the order of the meshes, where each has a
/// material of its own.
pub proof fn merging_ignores_the_order(
    a: Seq<(u16, SubMesh)>,
    b: Seq<(u16, SubMesh)>,
    s: Seq<(u16, SubMesh)>,
    t: Seq<(u16, SubMesh)>,
)
    requires
        has_distinct_materials(a),
        has_distinct_materials(b),
        forall|x: (u16, SubMesh)| #[trigger] a.contains(x) <==> b.contains(x),
        is_sorted_by_material(a, s),
        is_sorted_by_material(b, t),
    ensures
        s == t,
        merged_of(s) == merged_of(t),
{
    lemma_sorted_meshes(a, s);
    lemma_sorted_meshes(b, t);
    assert forall|x: (u16, SubMesh)| #[trigger] s.contains(x) <==> t.contains(x) by {
        assert(a.contains(x) <==> b.contains(x));
    }
    lemma_same_run(s, t, s.len() as int);
    lemma_same_run(t, s, t.len() as int);
    assert(s =~= t);
}

/// Where an index of mesh `n` leads in the merged mesh: to the same vertex,
/// with the mesh's material.
pub proof fn merging_keeps_triangles(meshes: Seq<(u16, SubMesh)>, n: int, k: int)
    requires
        0 <= n < meshes.len(),
        0 <= k < meshes[n].1.indices@.len(),
        meshes[n].1.indices@[k] < meshes[n].1.vertices@.len(),
    ensures
        ({
            let before = merged_of(meshes.take(n));
            let all = merged_of(meshes);
            let at = all.indices[before.indices.len() + k];
            &&& before.indices.len() + k < all.indices.len()
            &&& 0 <= at < all.vertices.len()
            &&& all.vertices[at] == merged_vertex(
                meshes[n].1.vertices@[meshes[n].1.indices@[k] as int],
                meshes[n].0,
            )
        }),
    decreases meshes.len() - n,
{
    let m = meshes[n].1;
    let before = merged_of(meshes.take(n));
    assert(meshes.take(n + 1).drop_last() =~= meshes.take(n));
    assert(meshes.take(n + 1).last() == meshes[n]);
    let next = merged_of(meshes.take(n + 1));
    assert(next.indices[before.indices.len() + k] == m.indices@[k] + before.vertices.len());
    assert(next.vertices[m.indices@[k] + before.vertices.len()] == merged_vertex(
        m.vertices@[m.indices@[k] as int],
        meshes[n].0,
    ));
    lemma_merged_prefix(meshes, n + 1);
}

proof fn lemma_merged_prefix(meshes: Seq<(u16, SubMesh)>, n: int)
    requires
        0 <= n <= meshes.len(),
    ensures
        merged_of(meshes.take(n)).vertices.len() <= merged_of(meshes).vertices.len(),
        merged_of(meshes.take(n)).indices.len() <= merged_of(meshes).indices.len(),
        forall|i: int|
            0 <= i < merged_of(meshes.take(n)).vertices.len() ==> #[trigger] merged_of(meshes).vertices[i]
                == merged_of(meshes.take(n)).vertices[i],
        forall|i: int|
            0 <= i < merged_of(meshes.take(n)).indices.len() ==> #[trigger] merged_of(meshes).indices[i]
                == merged_of(meshes.take(n)).indices[i],
    decreases meshes.len(),
{
    if n == meshes.len() {
        assert(meshes.take(n) =~= meshes);
    } else {
        assert(meshes.drop_last().take(n) =~= meshes.take(n));
        lemma_merged_prefix(meshes.drop_last(), n);
    }
}

/// Counts of bricks around the observer by quadrant: `+X+Z`, `+X-Z`, `-X+Z`,
/// `-X-Z`.
#[derive(Clone, Copy, Debug, PartialEq, Eq, Structural)]
pub struct Quadrants {
    pub plus_plus: usize,
    pub plus_minus: usize,
    pub minus_plus: usize,
    pub minus_minus: usize,
}

/// How many of the first `n` offsets lie in a quadrant; the axes count as
/// positive.
pub open spec fn count_quadrant(offsets: Seq<(Real64, Real64)>, n: int, px: bool, pz: bool) -> nat
    decreases n,
{
    if n <= 0 {
        0
    } else {
        let zero = Real64 { bits: 0 };
        let (x, z) = offsets[n - 1];
        count_quadrant(offsets, n - 1, px, pz) + if zero.less_or_equal(x) == px && zero.less_or_equal(z) == pz {
            1nat
        } else {
            0nat
        }
    }
}

/// Counts offsets from the observer by quadrant.
pub fn count_quadrants(offsets: &Vec<(Real64, Real64)>) -> (r: Quadrants)
    ensures
        r.plus_plus as nat == count_quadrant(offsets@, offsets@.len() as int, true, true),
        r.plus_minus as nat == count_quadrant(offsets@, offsets@.len() as int, true, false),
        r.minus_plus as nat == count_quadrant(offsets@, offsets@.len() as int, false, true),
        r.minus_minus as nat == count_quadrant(offsets@, offsets@.len() as int, false, false),
{
    let mut r = Quadrants { plus_plus: 0, plus_minus: 0, minus_plus: 0, minus_minus: 0 };
    let mut i: usize = 0;
    while i < offsets.len()
        invariant
            i <= offsets@.len(),
            r.plus_plus <= i,
            r.plus_minus <= i,
            r.minus_plus <= i,
            r.minus_minus <= i,
            r.plus_plus as nat == count_quadrant(offsets@, i as int, true, true),
            r.plus_minus as nat == count_quadrant(offsets@, i as int, true, false),
            r.minus_plus as nat == count_quadrant(offsets@, i as int, false, true),
            r.minus_minus as nat == count_quadrant(offsets@, i as int, false, false),
        decreases offsets@.len() - i,
    {
        let zero = Real64 { bits: 0 };
        let px: bool = zero.le(offsets[i].0);
        let pz: bool = zero.le(offsets[i].1);
        if px && pz {
            r.plus_plus += 1;
        } else if px {
            r.plus_minus += 1;
        } else if pz {
            r.minus_plus += 1;
        } else {
            r.minus_minus += 1;
        }
        i += 1;
    }
    r
}

proof fn lemma_flight_grows(
    plan: Seq<(IVec3, Lod)>,
    n: int,
    loaded: Set<ChunkKey>,
    in_flight: Set<ChunkKey>,
)
    requires
        in_flight.finite(),
        0 <= n <= plan.len(),
    ensures
        dispatched(plan, loaded, in_flight).0.finite(),
        dispatched(plan.take(n), loaded, in_flight).0.subset_of(dispatched(plan, loaded, in_flight).0),
        dispatched(plan.take(n), loaded, in_flight).0.len() <= dispatched(plan, loaded, in_flight).0.len(),
    decreases plan.len(),
{
    if n == plan.len() {
        assert(plan.take(n) =~= plan);
        if plan.len() > 0 {
            lemma_flight_grows(plan.drop_last(), 0, loaded, in_flight);
        }
    } else {
        assert(plan.drop_last().take(n) =~= plan.take(n));
        lemma_flight_grows(plan.drop_last(), n, loaded, in_flight);
    }
}

/// After a frame every brick of the plan, of whatever level of detail, is loaded
/// or in flight, unless 64 fetches are in flight.
pub proof fn every_planned_brick_is_on_its_way(
    plan: Seq<(IVec3, Lod)>,
    loaded: Set<ChunkKey>,
    in_flight: Set<ChunkKey>,
    i: int,
)
    requires
        in_flight.finite(),
        0 <= i < plan.len(),
    ensures
        ({
            let flight = dispatched(plan, loaded, in_flight).0;
            ||| loaded.contains((plan[i].0, plan[i].1.depth))
            ||| flight.contains((plan[i].0, plan[i].1.depth))
            ||| flight.len() >= 64
        }),
{
    let upto = plan.take(i + 1);
    assert(upto.drop_last() =~= plan.take(i));
    assert(upto.last() == plan[i]);
    lemma_flight_grows(plan, i + 1, loaded, in_flight);
    lemma_flight_grows(plan, i, loaded, in_flight);
    let before = dispatched(plan.take(i), loaded, in_flight).0;
    if before.len() >= 64 {
        assert(dispatched(plan, loaded, in_flight).0.len() >= 64);
    }
}

/// What was in flight stays in flight, and the plan's bricks are fetched front
/// to back: before a brick that is fetched, every brick of the plan is loaded or
/// in flight.
pub proof fn fetches_go_front_to_back(
    plan: Seq<(IVec3, Lod)>,
    loaded: Set<ChunkKey>,
    in_flight: Set<ChunkKey>,
) -> (at: Seq<int>)
    requires
        in_flight.finite(),
    ensures
        ({
            let (flight, list) = dispatched(plan, loaded, in_flight);
            &&& in_flight.subset_of(flight)
            &&& list.len() == at.len()
            &&& forall|p: int, q: int| 0 <= p < q < at.len() ==> #[trigger] at[p] < #[trigger] at[q]
            &&& forall|p: int| 0 <= p < at.len() ==> 0 <= #[trigger] at[p] < plan.len() && list[p] == plan[at[p]]
            &&& forall|p: int, j: int|
                0 <= p < at.len() && 0 <= j < #[trigger] at[p] ==> loaded.contains(
                    ((#[trigger] plan[j]).0, plan[j].1.depth),
                ) || flight.contains((plan[j].0, plan[j].1.depth))
        }),
    decreases plan.len(),
{
    if plan.len() == 0 {
        Seq::<int>::empty()
    } else {
        let front = plan.drop_last();
        let n = plan.len() - 1;
        let at = fetches_go_front_to_back(front, loaded, in_flight);
        let (before, some) = dispatched(front, loaded, in_flight);
        let (flight, list) = dispatched(plan, loaded, in_flight);
        let key = (plan[n].0, plan[n].1.depth);
        if before.len() >= MAX_IN_FLIGHT || loaded.contains(key) || before.contains(key) {
            assert forall|p: int, j: int|
                0 <= p < at.len() && 0 <= j < #[trigger] at[p] implies loaded.contains(
                ((#[trigger] plan[j]).0, plan[j].1.depth),
            ) || flight.contains((plan[j].0, plan[j].1.depth)) by {
                assert(front[j] == plan[j]);
            }
            at
        } else {
            let next = at.push(n);
            assert forall|p: int, j: int|
                0 <= p < next.len() && 0 <= j < #[trigger] next[p] implies loaded.contains(
                ((#[trigger] plan[j]).0, plan[j].1.depth),
            ) || flight.contains((plan[j].0, plan[j].1.depth)) by {
                assert(front[j] == plan[j]);
                if p == at.len() {
                    every_planned_brick_is_on_its_way(front, loaded, in_flight, j);
                }
            }
            next
        }
    }
}

/// Where there is room for a whole plan of distinct bricks that are neither
/// loaded nor in flight, the whole plan is fetched, in its order.
pub proof fn a_plan_with_room_is_fetched_whole(
    plan: Seq<(IVec3, Lod)>,
    loaded: Set<ChunkKey>,
    in_flight: Set<ChunkKey>,
)
    requires
        in_flight.finite(),
        in_flight.len() + plan.len() <= 64,
        forall|i: int|
            0 <= i < plan.len() ==> !loaded.contains(((#[trigger] plan[i]).0, plan[i].1.depth))
                && !in_flight.contains((plan[i].0, plan[i].1.depth)),
        forall|i: int, j: int|
            0 <= i < j < plan.len() ==> ((#[trigger] plan[i]).0, plan[i].1.depth) != ((#[trigger] plan[j]).0, plan[j].1.depth),
    ensures
        dispatched(plan, loaded, in_flight).1 == plan,
        dispatched(plan, loaded, in_flight).0.len() == in_flight.len() + plan.len(),
        forall|k: ChunkKey| #[trigger]
            dispatched(plan, loaded, in_flight).0.contains(k) <==> in_flight.contains(k) || exists|i: int|
                0 <= i < plan.len() && k == ((#[trigger] plan[i]).0, plan[i].1.depth),
    decreases plan.len(),
{
    let (flight, list) = dispatched(plan, loaded, in_flight);
    if plan.len() > 0 {
        let front = plan.drop_last();
        let n = plan.len() - 1;
        assert forall|i: int| 0 <= i < front.len() implies !loaded.contains(
            ((#[trigger] front[i]).0, front[i].1.depth),
        ) && !in_flight.contains((front[i].0, front[i].1.depth)) by {
            assert(front[i] == plan[i]);
        }
        a_plan_with_room_is_fetched_whole(front, loaded, in_flight);
        lemma_flight_grows(front, 0, loaded, in_flight);
        let before = dispatched(front, loaded, in_flight).0;
        let key = (plan[n].0, plan[n].1.depth);
        assert(!before.contains(key)) by {
            if before.contains(key) {
                let i = choose|i: int| 0 <= i < front.len() && key == ((#[trigger] front[i]).0, front[i].1.depth);
                assert(plan[i] == front[i]);
            }
        }
        assert(list =~= plan);
        assert forall|k: ChunkKey| #[trigger] flight.contains(k) <==> in_flight.contains(k) || exists|i: int|
            0 <= i < plan.len() && k == ((#[trigger] plan[i]).0, plan[i].1.depth) by {
            if before.contains(k) && !in_flight.contains(k) {
                let i = choose|i: int| 0 <= i < front.len() && k == ((#[trigger] front[i]).0, front[i].1.depth);
                assert(plan[i] == front[i]);
            }
            if k == key {
                assert(k == (plan[n].0, plan[n].1.depth));
            }
            if !in_flight.contains(k) && exists|i: int|
                0 <= i < plan.len() && k == ((#[trigger] plan[i]).0, plan[i].1.depth) {
                let i = choose|i: int| 0 <= i < plan.len() && k == ((#[trigger] plan[i]).0, plan[i].1.depth);
                if i < n {
                    assert(front[i] == plan[i]);
                }
            }
        }
    } else {
        assert(list =~= plan);
    }
}

/// A chunk that the plan has left is kept as it is for its grace period. After
/// that, a brick without an entity is gone, and one with an entity fades out. No
/// chunk comes into being.
pub proof fn a_chunk_outlives_the_plan_by_its_grace(
    chunks: Map<ChunkKey, LoadedChunk>,
    keys: Seq<ChunkKey>,
    frame: u64,
    hysteresis: u64,
    k: ChunkKey,
)
    requires
        !keys.contains(k),
    ensures
        ({
            let after = expired(touched(chunks, keys, frame), frame, hysteresis);
            &&& after.dom().subset_of(chunks.dom())
            &&& chunks.dom().contains(k) && frame - chunks[k].last_seen_frame < hysteresis && hysteresis > 0
                ==> after.dom().contains(k) && after[k] == chunks[k]
            &&& chunks.dom().contains(k) && frame - chunks[k].last_seen_frame >= hysteresis
                && chunks[k].entity is None ==> !after.dom().contains(k)
            &&& chunks.dom().contains(k) && frame - chunks[k].last_seen_frame >= hysteresis
                && chunks[k].entity is Some ==> after.dom().contains(k) && after[k] == (LoadedChunk {
                is_fading_out: true,
                ..chunks[k]
            })
        }),
{
}

/// A brick's fade-out begins exactly where it ends up fading out and was not
/// fading out before; so it begins once.
pub proof fn a_fade_out_begins_once(
    chunks: Map<ChunkKey, LoadedChunk>,
    now: u64,
    hysteresis: u64,
    k: ChunkKey,
)
    requires
        chunks.dom().contains(k),
    ensures
        begins_fading(chunks, now, hysteresis, k) <==> {
            let after = expired(chunks, now, hysteresis);
            after.dom().contains(k) && after[k].is_fading_out && !chunks[k].is_fading_out
        },
        begins_fading(chunks, now, hysteresis, k) ==> !begins_fading(
            expired(chunks, now, hysteresis),
            now,
            hysteresis,
            k,
        ),
{
}

/// A brick's visibility is touched only where it changes, and a brick that is
/// revealed blooms unless its fade-in is under way.
pub proof fn visibility_changes_only_where_it_must(chunks: Map<ChunkKey, LoadedChunk>, b: ShownBrick)
    ensures
        lod_change(chunks, b) is Hide ==> !b.hidden,
        lod_change(chunks, b) is Reveal ==> b.hidden,
        lod_change(chunks, b) matches LodChange::Reveal { bloom } ==> bloom == !b.fading_in,
        lod_change(chunks, ShownBrick { hidden: false, ..b }) is Hide <==> lod_change(
            chunks,
            ShownBrick { hidden: true, ..b },
        ) is Keep,
{
}

proof fn lemma_shown_materials(meshes: Seq<(u16, SubMesh)>, slots: int, n: int) -> (at: Seq<int>)
    requires
        0 <= n <= meshes.len(),
    ensures
        is_selection(at, n, |i: int| meshes[i].1.indices@.len() > 0 && meshes[i].0 < slots),
        shown_materials(meshes.take(n), slots).len() == at.len(),
        forall|p: int|
            0 <= p < at.len() ==> #[trigger] shown_materials(meshes.take(n), slots)[p] == meshes[at[p]].0,
    decreases n,
{
    let wanted = |i: int| meshes[i].1.indices@.len() > 0 && meshes[i].0 < slots;
    if n == 0 {
        lemma_select_none(wanted);
        Seq::<int>::empty()
    } else {
        let front = lemma_shown_materials(meshes, slots, n - 1);
        assert(meshes.take(n).drop_last() =~= meshes.take(n - 1));
        assert(meshes.take(n).last() == meshes[n - 1]);
        lemma_select_next(front, n - 1, wanted)
    }
}

/// Every mesh with triangles and a place in the material table gets a child
/// mesh, in the order of the meshes, and no other does.
pub proof fn every_mesh_with_a_material_is_shown(meshes: Seq<(u16, SubMesh)>, slots: int) -> (at: Seq<int>)
    ensures
        is_selection(
            at,
            meshes.len() as int,
            |i: int| meshes[i].1.indices@.len() > 0 && meshes[i].0 < slots,
        ),
        shown_materials(meshes, slots).len() == at.len(),
        forall|p: int|
            0 <= p < at.len() ==> #[trigger] shown_materials(meshes, slots)[p] == meshes[at[p]].0,
{
    let at = lemma_shown_materials(meshes, slots, meshes.len() as int);
    assert(meshes.take(meshes.len() as int) =~= meshes);
    at
}

/// A merged mesh has the indices of all meshes and the vertices of those with
/// triangles, and no more: adding a mesh adds exactly its own.
pub proof fn a_merged_mesh_is_as_large_as_its_parts(meshes: Seq<(u16, SubMesh)>, last: (u16, SubMesh))
    ensures
        merged_of(Seq::<(u16, SubMesh)>::empty()).vertices.len() == 0,
        merged_of(Seq::<(u16, SubMesh)>::empty()).indices.len() == 0,
        merged_of(meshes.push(last)).indices.len() == merged_of(meshes).indices.len() + last.1.indices@.len(),
        merged_of(meshes.push(last)).vertices.len() == merged_of(meshes).vertices.len() + (
        if last.1.indices@.len() > 0 {
            last.1.vertices@.len()
        } else {
            0
        }),
        forall|i: int|
            0 <= i < last.1.vertices@.len() && last.1.indices@.len() > 0 ==> (#[trigger] merged_of(
                meshes.push(last),
            ).vertices[merged_of(meshes).vertices.len() + i]).material == last.0 && merged_of(
                meshes.push(last),
            ).vertices[merged_of(meshes).vertices.len() + i].pos == last.1.vertices@[i].pos,
{
    assert(meshes.push(last).drop_last() =~= meshes);
}

/// A vertex keeps its place and its normal, takes the material's number, and its
/// light is held between dark and full: a light in that range is kept.
pub proof fn a_merged_vertex_keeps_its_place(v: Vertex, material: u16)
    ensures
        merged_vertex(v, material).pos == v.pos,
        merged_vertex(v, material).normal == v.normal,
        merged_vertex(v, material).material == material,
        (Real32 { bits: 0 }).less_or_equal(v.ao) && v.ao.less_or_equal(Real32 { bits: 0x3f80_0000 })
            ==> merged_vertex(v, material).light == v.ao,
        !v.ao.is_nan() ==> (Real32 { bits: 0 }).less_or_equal(merged_vertex(v, material).light)
            && merged_vertex(v, material).light.less_or_equal(Real32 { bits: 0x3f80_0000 }),
        v.ao.less(Real32 { bits: 0 }) ==> merged_vertex(v, material).light.bits == 0,
        (Real32 { bits: 0x3f80_0000 }).less(v.ao) ==> merged_vertex(v, material).light.bits == 0x3f80_0000,
{
}

/// Every material number of a palette has a slot, and the largest is one of
/// them.
pub proof fn the_table_holds_every_material(entries: Seq<MaterialEntry>, i: int)
    requires
        0 <= i < entries.len(),
    ensures
        entries[i].id <= max_id(entries),
        exists|j: int| 0 <= j < entries.len() && (#[trigger] entries[j]).id == max_id(entries),
        slot_of(entries, entries.len() as int, entries[i].id as int) is Some,
{
    lemma_max_id(entries, i);
    lemma_max_id_reached(entries);
    lemma_slot_found(entries, entries.len() as int, i);
}

proof fn lemma_max_id_reached(entries: Seq<MaterialEntry>)
    requires
        entries.len() > 0,
    ensures
        exists|j: int| 0 <= j < entries.len() && (#[trigger] entries[j]).id == max_id(entries),
    decreases entries.len(),
{
    let n = entries.len() - 1;
    if entries.last().id == max_id(entries) {
        assert(entries[n].id == max_id(entries));
    } else {
        assert(entries.drop_last().len() > 0) by {
            if entries.drop_last().len() == 0 {
                assert(max_id(entries.drop_last()) == 0);
            }
        }
        lemma_max_id_reached(entries.drop_last());
        let j = choose|j: int|
            0 <= j < entries.drop_last().len() && (#[trigger] entries.drop_last()[j]).id == max_id(
                entries.drop_last(),
            );
        assert(entries[j].id == max_id(entries));
    }
}

proof fn lemma_slot_found(entries: Seq<MaterialEntry>, n: int, i: int)
    requires
        0 <= i < n <= entries.len(),
    ensures
        slot_of(entries, n, entries[i].id as int) is Some,
    decreases n,
{
    if entries[n - 1].id != entries[i].id {
        lemma_slot_found(entries, n - 1, i);
    }
}

/// A material's slot is that of the last palette entry with its number: drawn
/// blended where it lets light through, and glowing where it gives any off. A
/// number that no entry has keeps an empty slot.
pub proof fn a_slot_is_its_last_entry(entries: Seq<MaterialEntry>, id: int, i: int)
    requires
        0 <= i < entries.len() <= usize::MAX,
        entries[i].id == id,
        forall|j: int| i < j < entries.len() ==> (#[trigger] entries[j]).id != id,
    ensures
        ({
            let slot = slot_of(entries, entries.len() as int, id);
            let zero = Real32 { bits: 0 };
            &&& slot is Some
            &&& slot->0.entry == i
            &&& slot->0.blend == entries[i].alpha.less(Real32 { bits: 0x3f7f_be77 })
            &&& slot->0.emissive == (zero.less(entries[i].emissive.r) || zero.less(entries[i].emissive.g)
                || zero.less(entries[i].emissive.b))
        }),
{
    lemma_slot_last(entries, entries.len() as int, id, i);
}

proof fn lemma_slot_last(entries: Seq<MaterialEntry>, n: int, id: int, i: int)
    requires
        0 <= i < n <= entries.len(),
        entries[i].id == id,
        forall|j: int| i < j < entries.len() ==> (#[trigger] entries[j]).id != id,
    ensures
        slot_of(entries, n, id) == Some(plan_of(entries, i)),
    decreases n,
{
    if n - 1 > i {
        assert(entries[n - 1].id != id);
        lemma_slot_last(entries, n - 1, id, i);
    }
}

/// The meshes sorted by material are the same meshes, each once, by rising
/// material number; meshes of one material stay in their order.
pub proof fn sorting_by_material_keeps_every_mesh(meshes: Seq<(u16, SubMesh)>, s: Seq<(u16, SubMesh)>) -> (order: Seq<
    usize,
>)
    requires
        is_sorted_by_material(meshes, s),
    ensures
        s.len() == meshes.len(),
        order.len() == meshes.len(),
        order.no_duplicates(),
        forall|i: int| 0 <= i < s.len() ==> (order[i] as int) < meshes.len() && #[trigger] s[i] == meshes[order[i] as int],
        forall|i: int, j: int|
            0 <= i < j < s.len() ==> (#[trigger] s[i]).0 <= (#[trigger] s[j]).0 && (s[i].0 == s[j].0 ==> order[i]
                < order[j]),
{
    let ranks = material_ranks(meshes);
    let order = choose|o: Seq<usize>| #[trigger] is_stable_order(ranks, o) && s == by_material(meshes, o);
    assert forall|i: int, j: int| 0 <= i < j < s.len() implies (#[trigger] s[i]).0 <= (#[trigger] s[j]).0 && (s[i].0
        == s[j].0 ==> order[i] < order[j]) by {
        assert(goes_before(ranks, order[i] as int, order[j] as int));
        assert((order[i] as int) < ranks.len() && (order[j] as int) < ranks.len());
    }
    assert forall|i: int, j: int| 0 <= i < order.len() && 0 <= j < order.len() && i != j implies order[i]
        != order[j] by {
        if i < j {
            assert(goes_before(ranks, order[i] as int, order[j] as int));
        } else {
            assert(goes_before(ranks, order[j] as int, order[i] as int));
        }
    }
    order
}

/// A quadrant counts every offset whose signs are its own: each offset is counted
/// in one quadrant.
pub proof fn every_offset_counts_in_its_quadrant(offsets: Seq<(Real64, Real64)>, n: int, px: bool, pz: bool)
    requires
        0 <= n <= offsets.len(),
    ensures
        ({
            let zero = Real64 { bits: 0 };
            let own = Set::new(
                |i: int|
                    0 <= i < n && zero.less_or_equal(offsets[i].0) == px && zero.less_or_equal(offsets[i].1) == pz,
            );
            own.finite() && count_quadrant(offsets, n, px, pz) == own.len()
        }),
        count_quadrant(offsets, n, true, true) + count_quadrant(offsets, n, true, false) + count_quadrant(
            offsets,
            n,
            false,
            true,
        ) + count_quadrant(offsets, n, false, false) == n,
    decreases n,
{
    let zero = Real64 { bits: 0 };
    let own = Set::new(
        |i: int| 0 <= i < n && zero.less_or_equal(offsets[i].0) == px && zero.less_or_equal(offsets[i].1) == pz,
    );
    if n == 0 {
        assert(own =~= Set::<int>::empty());
    } else {
        every_offset_counts_in_its_quadrant(offsets, n - 1, px, pz);
        let less = Set::new(
            |i: int|
                0 <= i < n - 1 && zero.less_or_equal(offsets[i].0) == px && zero.less_or_equal(offsets[i].1) == pz,
        );
        if zero.less_or_equal(offsets[n - 1].0) == px && zero.less_or_equal(offsets[n - 1].1) == pz {
            assert(own =~= less.insert(n - 1));
        } else {
            assert(own =~= less);
        }
    }
}

} // verus!
