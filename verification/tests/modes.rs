use atomr_worlds_client::brick_gen::{BrickGenWorkers, BrickReady, MAX_IN_FLIGHT};
use atomr_worlds_client::coord::{IVec3, Lod, BRICK_EDGE};
use atomr_worlds_client::input::{ButtonInput, KeyCode};
use atomr_worlds_client::measure::{Real32, Real64};
use atomr_worlds_client::modes::blit::{
    copy_framebuffer_to_image, raster_mode_active, toggle_blit_visibility, RASTER_BYTES,
};
use atomr_worlds_client::modes::edit::{
    accepts_refresh, apply_brush_edit, apply_edit_refreshes, apply_voxel_edit, brick_of, edit_select_tool_material, edit_shape,
    fp_edit_highlight, fp_edit_voxels, keys_to_refresh, local_cell, sample_cell, BrushMask, EditAction, EditShape,
    EditInput, EditState, Highlight, ToolKind, WorldRayHit,
};
use atomr_worlds_client::modes::edit_workers::EditApplyWorkers;
use atomr_worlds_client::modes::fp::{
    can_merge, count_quadrants, expire_stale, fp_animate_fade_in, fp_animate_fade_out, fp_input_look,
    fp_stream_bricks, fp_update_lod_visibility, fp_visibility_toggle, grab_cursor, handle_for, lod_scale,
    merge_by_material, plan_spawn, setup_fp_scene, setup_materials, spawn_brick_entity,
    tp_input, world_walk_input, Cursor, CursorGrabMode, FadeStep, LodChange, ShownBrick, SpawnPlan, SubMesh,
    Vertex,
};
use atomr_worlds_client::modes::overview::{overview_input, OverviewCache, OverviewProjection, OverviewStep};
use atomr_worlds_client::modes::raster_async::AsyncBuild;
use atomr_worlds_client::modes::rts::{rts_input, rts_render, RtsKey, RtsStep};
use atomr_worlds_client::modes::slice::{can_take_input, slice_input, slice_render, SliceKey, SliceState, SliceStep};
use atomr_worlds_client::render::config::RenderConfig;
use atomr_worlds_client::render::raymarch::RaymarchShadingTier;
use atomr_worlds_client::render::strategy::{PaletteStrategy, ShadingMode};
use atomr_worlds_client::view_mode::{view_mode_input_system, ViewMode};
use atomr_worlds_client::voxel::{Brick, Voxel};
use atomr_worlds_client::world_stream::{ChunkStreamer, LoadedChunk, LoadedChunks};

const VIEWS: [ViewMode; 5] =
    [ViewMode::Fp, ViewMode::Tp, ViewMode::Slice, ViewMode::Rts, ViewMode::Overview];

fn r(v: f32) -> Real32 {
    Real32::from_bits(v.to_bits())
}

fn keys(down: &[KeyCode]) -> ButtonInput {
    ButtonInput { down: down.to_vec(), fresh: vec![] }
}

fn taps(fresh: &[KeyCode]) -> ButtonInput {
    ButtonInput { down: fresh.to_vec(), fresh: fresh.to_vec() }
}

fn mk_chunk(coord: IVec3, depth: u8) -> LoadedChunk {
    LoadedChunk {
        coord,
        lod: Lod::new(depth),
        entity: None,
        last_seen_frame: 0,
        is_fading_out: false,
        dag_digest: None,
        dag_tier: None,
        brick: None,
    }
}

#[test]
fn fp_mode_activates_world_camera_and_deactivates_blit() {
    let t = toggle_blit_visibility(ViewMode::Fp);
    assert!(t.world_camera, "FP mode keeps the world camera active");
    assert!(!t.blit_camera, "FP mode disables the blit camera");
}

#[test]
fn tp_mode_activates_world_camera_and_deactivates_blit() {
    let t = toggle_blit_visibility(ViewMode::Tp);
    assert!(t.world_camera);
    assert!(!t.blit_camera);
}

#[test]
fn overview_mode_disables_world_camera_and_enables_blit() {
    let t = toggle_blit_visibility(ViewMode::Overview);
    assert!(!t.world_camera, "the sky would show around the raster image");
    assert!(t.blit_camera);
}

#[test]
fn slice_mode_disables_world_camera_and_enables_blit() {
    let t = toggle_blit_visibility(ViewMode::Slice);
    assert!(!t.world_camera);
    assert!(t.blit_camera);
}

#[test]
fn rts_mode_disables_world_camera_and_enables_blit() {
    let t = toggle_blit_visibility(ViewMode::Rts);
    assert!(!t.world_camera);
    assert!(t.blit_camera);
    assert!(t.sprite_visible);
}

#[test]
fn raster_mode_active_classifies_every_view_mode() {
    assert!(!raster_mode_active(ViewMode::Fp));
    assert!(!raster_mode_active(ViewMode::Tp));
    assert!(raster_mode_active(ViewMode::Slice));
    assert!(raster_mode_active(ViewMode::Rts));
    assert!(raster_mode_active(ViewMode::Overview));
}

#[test]
fn a_frame_of_another_size_is_dropped() {
    let mut image = Some(vec![1u8; RASTER_BYTES]);
    assert!(!copy_framebuffer_to_image(&mut image, &vec![2u8; 16]));
    assert_eq!(image.as_ref().unwrap()[0], 1);
    assert!(copy_framebuffer_to_image(&mut image, &vec![2u8; RASTER_BYTES]));
    assert_eq!(image.unwrap(), vec![2u8; RASTER_BYTES]);
    let mut none = None;
    assert!(copy_framebuffer_to_image(&mut none, &vec![2u8; RASTER_BYTES]));
    assert!(none.is_none());
}

#[test]
fn tab_goes_through_all_views() {
    let mut mode = ViewMode::Fp;
    let mut seen = vec![];
    for _ in 0..5 {
        seen.push(mode.label());
        assert!(view_mode_input_system(&taps(&[KeyCode::Tab]), false, false, &mut mode));
    }
    assert_eq!(seen, vec!["fp", "tp", "slice", "rts", "overview"]);
    assert_eq!(mode, ViewMode::Fp);
    assert!(!view_mode_input_system(&taps(&[KeyCode::Digit4]), true, false, &mut mode));
    assert!(view_mode_input_system(&taps(&[KeyCode::Digit5, KeyCode::Digit4]), false, false, &mut mode));
    assert_eq!(mode, ViewMode::Rts);
    assert!(!view_mode_input_system(&keys(&[KeyCode::Digit1]), false, false, &mut mode));
    assert!(view_mode_input_system(&taps(&[KeyCode::Digit1]), true, true, &mut mode));
}

#[test]
fn keys_to_refresh_returns_only_loaded_nonfading_lod0() {
    let mut loaded = LoadedChunks::default();
    loaded.insert((IVec3::new(0, 0, 0), 0), mk_chunk(IVec3::new(0, 0, 0), 0));
    loaded.insert((IVec3::new(1, 0, 0), 0), mk_chunk(IVec3::new(1, 0, 0), 0));
    loaded.mark_fading_out(&(IVec3::new(1, 0, 0), 0));
    loaded.insert((IVec3::new(2, 0, 0), 1), mk_chunk(IVec3::new(2, 0, 0), 1));
    let affected = vec![
        IVec3::new(0, 0, 0),
        IVec3::new(1, 0, 0),
        IVec3::new(2, 0, 0),
        IVec3::new(3, 0, 0),
    ];
    assert_eq!(keys_to_refresh(&affected, &loaded), vec![(IVec3::new(0, 0, 0), 0)]);
    assert!(accepts_refresh(&loaded, &(IVec3::new(0, 0, 0), 0)));
    assert!(!accepts_refresh(&loaded, &(IVec3::new(1, 0, 0), 0)));
    assert!(!accepts_refresh(&loaded, &(IVec3::new(3, 0, 0), 0)));
}

#[test]
fn negative_cells_lie_in_negative_bricks() {
    assert_eq!(brick_of(IVec3::new(-1, 0, 16)), IVec3::new(-1, 0, 1));
    assert_eq!(local_cell(IVec3::new(-1, 0, 16)), IVec3::new(15, 0, 0));
    assert_eq!(brick_of(IVec3::new(3, 2000, 5)), IVec3::new(0, 125, 0));
    assert_eq!(local_cell(IVec3::new(3, 2000, 5)), IVec3::new(3, 0, 5));
}

fn resident(bricks: &[IVec3]) -> LoadedChunks {
    let mut loaded = LoadedChunks::default();
    for b in bricks {
        loaded.insert((*b, 0), LoadedChunk { brick: Some(Brick::new()), ..mk_chunk(*b, 0) });
    }
    loaded
}

#[test]
fn a_voxel_edit_changes_one_cell_and_claims_its_brick() {
    let mut loaded = resident(&[IVec3::new(0, 0, 0), IVec3::new(1, 0, 0)]);
    let mut workers: EditApplyWorkers<()> = EditApplyWorkers::new();
    let action = EditAction { cell: IVec3::new(17, 2, 3), voxel: Voxel::new(9), removed: false };
    let done = apply_voxel_edit(&mut loaded, &mut workers, 7u8, &action);
    assert_eq!(done.event.bricks, vec![IVec3::new(1, 0, 0)]);
    assert_eq!(done.fetch, vec![(IVec3::new(1, 0, 0), 0)]);
    assert!(!done.event.removed);
    assert_eq!(done.event.addr, 7);
    let mut diffs = vec![];
    for x in 0..32 {
        for y in 0..16 {
            for z in 0..16 {
                let c = IVec3::new(x, y, z);
                if !sample_cell(&loaded, c).is_empty() {
                    diffs.push(c);
                }
            }
        }
    }
    assert_eq!(diffs, vec![action.cell]);
    let again = apply_voxel_edit(&mut loaded, &mut workers, 7u8, &action);
    assert!(again.fetch.is_empty());
    workers.deliver(BrickReady { coord: IVec3::new(1, 0, 0), lod: Lod::new(0), payload: () });
    let (ready, refetch) = workers.drain_refresh();
    assert_eq!(ready.len(), 1);
    assert_eq!(refetch, vec![(IVec3::new(1, 0, 0), 0)]);
    assert_eq!(workers.refresh_in_flight_count(), 1);
}

#[test]
fn a_refreshed_brick_is_swapped_in_unless_it_fades() {
    let key = (IVec3::new(1, 0, 0), 0u8);
    let mut loaded = resident(&[key.0]);
    let mut workers: EditApplyWorkers<u8> = EditApplyWorkers::new();
    assert_eq!(workers.dispatch_edit(&vec![key]), vec![key]);
    workers.deliver(BrickReady { coord: key.0, lod: Lod::new(0), payload: 1 });
    let out = apply_edit_refreshes(&loaded, &mut workers);
    assert_eq!(out.show.len(), 1);
    assert!(out.refetch.is_empty());
    assert_eq!(out.in_flight, 0);
    loaded.mark_fading_out(&key);
    workers.deliver(BrickReady { coord: key.0, lod: Lod::new(0), payload: 2 });
    assert!(apply_edit_refreshes(&loaded, &mut workers).show.is_empty());
}

#[test]
fn an_edit_outside_the_resident_world_changes_nothing() {
    let mut loaded = resident(&[IVec3::new(0, 0, 0)]);
    let mut workers: EditApplyWorkers<()> = EditApplyWorkers::new();
    let action = EditAction { cell: IVec3::new(-5, 2, 3), voxel: Voxel::new(9), removed: true };
    let done = apply_voxel_edit(&mut loaded, &mut workers, 7u8, &action);
    assert!(done.fetch.is_empty());
    assert!(done.event.removed);
    assert!(sample_cell(&loaded, action.cell).is_empty());
}

#[test]
fn a_brush_paints_the_cells_it_covers() {
    let e = BRICK_EDGE;
    let mut loaded = resident(&[IVec3::new(0, 0, 0), IVec3::new(1, 0, 0)]);
    let mut workers: EditApplyWorkers<()> = EditApplyWorkers::new();
    let mut covered = vec![false; e * e * e];
    covered[0] = true;
    let masks = vec![BrushMask { brick: IVec3::new(0, 0, 0), covered }];
    let action = EditAction { cell: IVec3::new(0, 0, 0), voxel: Voxel::new(7), removed: false };
    let done = apply_brush_edit(&mut loaded, &mut workers, 9u8, &action, &masks);
    assert_eq!((done.event.addr, done.event.bricks), (9, vec![IVec3::new(0, 0, 0)]));
    assert_eq!(sample_cell(&loaded, IVec3::new(0, 0, 0)), Voxel::new(7));
    assert!(sample_cell(&loaded, IVec3::new(1, 0, 0)).is_empty());
    assert!(sample_cell(&loaded, IVec3::new(16, 0, 0)).is_empty());
}

#[test]
fn keys_pick_tool_material_and_radius() {
    let mut edit = EditState::default();
    let mut press = |edit: &mut EditState, k: &[KeyCode]| {
        edit_select_tool_material(edit, ViewMode::Fp, &taps(k), true, false, 11)
    };
    press(&mut edit, &[KeyCode::Digit7]);
    assert_eq!(edit.selected_material, 7);
    press(&mut edit, &[KeyCode::Tab, KeyCode::BracketRight]);
    assert_eq!((edit.tool, edit.radius_voxels), (ToolKind::Sphere, 3));
    for _ in 0..20 {
        press(&mut edit, &[KeyCode::BracketLeft]);
    }
    assert_eq!(edit.radius_voxels, 1);
    for _ in 0..20 {
        press(&mut edit, &[KeyCode::BracketRight]);
    }
    assert_eq!(edit.radius_voxels, 16);
    press(&mut edit, &[KeyCode::Tab]);
    press(&mut edit, &[KeyCode::Tab]);
    assert_eq!(edit.tool, ToolKind::Voxel);
    edit_select_tool_material(&mut edit, ViewMode::Fp, &taps(&[KeyCode::Digit9]), true, false, 4);
    assert_eq!(edit.selected_material, 3);
    edit_select_tool_material(&mut edit, ViewMode::Fp, &taps(&[KeyCode::Digit1]), false, false, 11);
    edit_select_tool_material(&mut edit, ViewMode::Tp, &taps(&[KeyCode::Digit1]), true, true, 11);
    assert_eq!(edit.selected_material, 3);
}

fn pointing() -> EditInput {
    EditInput {
        scripted: false,
        scripted_edit: false,
        mode: ViewMode::Fp,
        ready: true,
        hit: Some(WorldRayHit {
            cell: IVec3::new(1, 2, 3),
            normal: IVec3::new(0, 1, 0),
            place_cell: IVec3::new(1, 3, 3),
        }),
        locked_now: true,
        remove: false,
        place: false,
    }
}

#[test]
fn the_click_that_grabs_the_cursor_does_not_edit() {
    let mut edit = EditState { selected_material: 5, ..EditState::default() };
    let click = EditInput { place: true, ..pointing() };
    assert_eq!(fp_edit_voxels(&mut edit, &click), None);
    assert!(edit.prev_cursor_locked);
    assert_eq!(
        fp_edit_voxels(&mut edit, &click),
        Some(EditAction { cell: IVec3::new(1, 3, 3), voxel: Voxel::new(5), removed: false })
    );
    let both = EditInput { remove: true, ..click };
    assert_eq!(
        fp_edit_voxels(&mut edit, &both),
        Some(EditAction { cell: IVec3::new(1, 2, 3), voxel: Voxel::empty(), removed: true })
    );
    let mut inside = click;
    inside.hit = Some(WorldRayHit { normal: IVec3::new(0, 0, 0), ..click.hit.unwrap() });
    assert_eq!(fp_edit_voxels(&mut edit, &inside), None);
    let elsewhere = EditInput { mode: ViewMode::Tp, ..click };
    assert_eq!(fp_edit_voxels(&mut edit, &elsewhere), None);
    assert!(edit.last_hit.is_none());
}

#[test]
fn the_highlight_shows_the_tool() {
    let mut edit = EditState { last_hit: pointing().hit, radius_voxels: 3, ..EditState::default() };
    let cell = IVec3::new(1, 2, 3);
    assert_eq!(fp_edit_highlight(&edit, ViewMode::Fp), Highlight::OneVoxel { cell });
    edit.tool = ToolKind::Cube;
    assert_eq!(fp_edit_highlight(&edit, ViewMode::Fp), Highlight::Cube { cell, side: 6 });
    edit.tool = ToolKind::Sphere;
    assert_eq!(fp_edit_highlight(&edit, ViewMode::Fp), Highlight::Sphere { cell, radius: 3 });
    assert_eq!(fp_edit_highlight(&edit, ViewMode::Rts), Highlight::Hidden);
    assert_eq!(edit_shape(&edit), EditShape::Sphere { radius: 3 });
    edit.tool = ToolKind::Cone;
    assert_eq!(edit_shape(&edit), EditShape::Sphere { radius: 3 });
    edit.tool = ToolKind::Cube;
    assert_eq!(edit_shape(&edit), EditShape::Cube { radius: 3 });
    edit.tool = ToolKind::Voxel;
    assert_eq!(edit_shape(&edit), EditShape::OneVoxel);
    edit.last_hit = None;
    assert_eq!(fp_edit_highlight(&edit, ViewMode::Fp), Highlight::Hidden);
}

#[test]
fn a_raster_is_drawn_where_it_was_built() {
    let key = |x: i32| SliceKey { min_x: x, min_z: 0, z_band_top: 6 };
    let at = |k: Option<SliceKey>| k.map(|k| k.min_x);
    let mut cache: AsyncBuild<&str, SliceKey> = AsyncBuild::default();
    let mut frame = |x: i32, arrived: Option<(u64, &'static str)>| {
        match slice_render(&mut cache, ViewMode::Slice, false, key(x), arrived) {
            SliceStep::Cached(f) => (at(f.spawn.map(|s| s.0)), at(f.draw), f.rebuilding, f.spawn.map(|s| s.1)),
            _ => panic!("an interactive slice view"),
        }
    };
    let (spawn, draw, rebuilding, first) = frame(0, None);
    assert_eq!((spawn, draw, rebuilding), (Some(0), None, false));
    let first = first.unwrap();
    assert_eq!(frame(1, None), (None, None, true, None));
    let (spawn, draw, rebuilding, second) = frame(1, Some((first, "a")));
    assert_eq!((spawn, draw, rebuilding), (Some(1), Some(0), false));
    let second = second.unwrap();
    assert_eq!(frame(1, None), (None, Some(0), true, None));
    assert_eq!(frame(1, Some((first, "late"))), (None, Some(0), true, None));
    assert_eq!(frame(1, Some((second, "b"))), (None, Some(1), false, None));
    assert_eq!(frame(1, None), (None, Some(1), false, None));
    assert_eq!(cache.current(), Some(&"b"));
    assert!(matches!(slice_render(&mut cache, ViewMode::Fp, false, key(9), None), SliceStep::Idle));
    assert!(matches!(slice_render(&mut cache, ViewMode::Slice, true, key(9), None), SliceStep::DrawLive));
    let mut rts: AsyncBuild<(), RtsKey> = AsyncBuild::default();
    let k = RtsKey { x: 3, z: 4 };
    assert!(matches!(rts_render(&mut rts, ViewMode::Tp, false, k, None), RtsStep::Idle));
    assert!(matches!(rts_render(&mut rts, ViewMode::Rts, true, k, None), RtsStep::DrawLive));
    assert!(matches!(rts_render(&mut rts, ViewMode::Rts, false, k, None), RtsStep::Cached(_)));
    assert!(rts.is_rebuilding());
}

#[test]
fn the_band_reaches_the_ends_of_the_range() {
    let mut s = SliceState { z_band_top: i32::MAX, prev_mode: Some(ViewMode::Slice) };
    assert!(can_take_input(&s, ViewMode::Slice, &keys(&[]), None, 0));
    slice_input(&mut s, ViewMode::Slice, &keys(&[]), None, 0);
    assert_eq!(s.z_band_top, i32::MAX);
    assert!(!can_take_input(&s, ViewMode::Slice, &taps(&[KeyCode::KeyQ]), None, 0));
    assert!(can_take_input(&s, ViewMode::Fp, &taps(&[KeyCode::KeyQ]), None, 0));
    s.prev_mode = None;
    assert!(!can_take_input(&s, ViewMode::Slice, &keys(&[]), Some(i32::MAX), 0));
    assert!(!can_take_input(&s, ViewMode::Slice, &taps(&[KeyCode::KeyE]), None, i32::MIN));
    assert!(can_take_input(&s, ViewMode::Slice, &taps(&[KeyCode::KeyE]), None, 5));
}

#[test]
fn a_build_that_was_replaced_is_dropped() {
    let mut cache: AsyncBuild<&str, u32> = AsyncBuild::default();
    assert!(!cache.poll(Some((0, "unasked"))));
    let first = cache.spawn(1);
    let second = cache.spawn(2);
    assert_ne!(first, second);
    assert!(!cache.poll(Some((first, "first"))));
    assert_eq!(cache.current(), None);
    assert!(cache.is_rebuilding());
    assert!(cache.poll(Some((second, "second"))));
    assert_eq!((cache.current(), cache.current_key()), (Some(&"second"), Some(2)));
    assert!(!cache.poll(Some((second, "again"))));
    assert_eq!(cache.current(), Some(&"second"));
    assert!(cache.needs_rebuild(&1));
    assert!(!cache.needs_rebuild(&2));
}

#[test]
fn entering_the_slice_view_seeds_the_band() {
    let mut s = SliceState::default();
    assert_eq!(s.z_band_top, 6);
    assert!(slice_input(&mut s, ViewMode::Fp, &keys(&[]), Some(40), 50).is_none());
    assert_eq!(s.z_band_top, 6);
    let pan = slice_input(&mut s, ViewMode::Slice, &keys(&[KeyCode::KeyW]), Some(40), 50).unwrap();
    assert!(pan.reseed && pan.forward && !pan.back && !pan.fast);
    assert_eq!(s.z_band_top, 42);
    let pan = slice_input(&mut s, ViewMode::Slice, &taps(&[KeyCode::PageUp]), Some(0), 0).unwrap();
    assert!(!pan.reseed);
    assert_eq!(s.z_band_top, 43);
    slice_input(&mut s, ViewMode::Slice, &taps(&[KeyCode::KeyE]), Some(0), 0);
    assert_eq!(s.z_band_top, 42);
    slice_input(&mut s, ViewMode::Tp, &keys(&[]), None, 0);
    slice_input(&mut s, ViewMode::Slice, &keys(&[]), None, 17);
    assert_eq!(s.z_band_top, 17);
}

#[test]
fn the_other_views_read_their_keys() {
    let c = rts_input(ViewMode::Rts, &taps(&[KeyCode::KeyQ, KeyCode::KeyX])).unwrap();
    assert!(c.zoom_in && !c.zoom_out && c.turn_right && !c.turn_left);
    assert!(rts_input(ViewMode::Fp, &taps(&[KeyCode::KeyQ])).is_none());
    let mut p = OverviewProjection::OrthographicFlat;
    let o = overview_input(&mut p, ViewMode::Overview, &taps(&[KeyCode::KeyP]), true).unwrap();
    assert!(o.drag && !o.left);
    assert_eq!(p, OverviewProjection::Equirectangular);
    assert!(overview_input(&mut p, ViewMode::Fp, &taps(&[KeyCode::KeyP]), true).is_none());
    assert_eq!(p, OverviewProjection::Equirectangular);
    let mut cache = OverviewCache::default();
    assert_eq!(cache.overview_render(ViewMode::Fp, 7), OverviewStep::Idle);
    assert_eq!(cache.overview_render(ViewMode::Overview, 7), OverviewStep::BakeAndDraw);
    assert_eq!(cache.overview_render(ViewMode::Overview, 7), OverviewStep::Draw);
    assert_eq!(cache.overview_render(ViewMode::Overview, 8), OverviewStep::BakeAndDraw);
}

#[test]
fn walking_and_looking_need_a_ready_scene() {
    let w = world_walk_input(ViewMode::Rts, &keys(&[KeyCode::KeyW, KeyCode::ShiftRight]), true).unwrap();
    assert!(w.forward && w.fast && !w.up);
    assert!(world_walk_input(ViewMode::Fp, &keys(&[]), false).is_none());
    assert!(world_walk_input(ViewMode::Slice, &keys(&[]), true).is_none());
    let look = |cursor| fp_input_look(ViewMode::Fp, &keys(&[KeyCode::ArrowUp]), true, false, cursor);
    assert!(!look(None).unwrap().mouse);
    assert!(!look(Some(CursorGrabMode::Free)).unwrap().mouse);
    assert!(look(Some(CursorGrabMode::Locked)).unwrap().mouse);
    assert!(look(None).unwrap().up);
    assert!(tp_input(ViewMode::Tp, &keys(&[])).unwrap().mouse);
    assert!(tp_input(ViewMode::Fp, &keys(&[])).is_none());
    assert_eq!(VIEWS.iter().filter(|v| fp_visibility_toggle(**v)).count(), 2);
}

#[test]
fn a_click_grabs_the_cursor_and_escape_frees_it() {
    let free = Cursor { grab_mode: CursorGrabMode::Free, visible: true };
    let held = Cursor { grab_mode: CursorGrabMode::Locked, visible: false };
    let none = keys(&[]);
    assert_eq!(grab_cursor(free, ViewMode::Fp, &none, true, false), held);
    assert_eq!(grab_cursor(free, ViewMode::Fp, &none, false, false), free);
    assert_eq!(grab_cursor(free, ViewMode::Slice, &none, true, false), free);
    assert_eq!(grab_cursor(held, ViewMode::Fp, &taps(&[KeyCode::Escape]), true, false), free);
    assert_eq!(grab_cursor(held, ViewMode::Overview, &none, false, false), free);
    assert_eq!(grab_cursor(held, ViewMode::Fp, &none, true, true), free);
}

#[test]
fn the_scene_has_a_material_per_number() {
    let plan = setup_fp_scene(&RenderConfig::default(), true);
    assert_eq!(plan.materials.len(), 11);
    assert!(plan.offscreen && plan.bloom && plan.shadows);
    assert!(plan.materials.iter().enumerate().all(|(i, m)| m.unwrap().entry == i));
    let mut entries = PaletteStrategy::HardcodedPalette.palette();
    entries.truncate(3);
    entries[1].id = 5;
    let table = setup_materials(&entries);
    assert_eq!(table.len(), 6);
    assert!(table[1].is_none());
    assert_eq!(table[5].unwrap().entry, 1);
    assert_eq!(handle_for(&table, 1), Some(None));
    assert_eq!(handle_for(&table, 6), None);
}

#[test]
fn streaming_fetches_fades_and_shows() {
    let near = (IVec3::new(0, 0, 0), Lod::new(0));
    let far = (IVec3::new(1, 0, 0), Lod::new(0));
    let gone = IVec3::new(9, 0, 0);
    let mut streamer = ChunkStreamer::default();
    let mut loaded = LoadedChunks::default();
    spawn_brick_entity(&mut loaded, near.0, near.1, &SpawnPlan::Merged, 10, 0, None, None);
    let tier = RaymarchShadingTier::Pbr;
    spawn_brick_entity(&mut loaded, gone, Lod::new(0), &SpawnPlan::Bare, 11, 0, Some((5, tier)), None);
    assert_eq!(loaded.get(&(gone, 0)).unwrap().dag_tier, Some(tier));
    let nothing = plan_spawn(&vec![], ShadingMode::SplitPerMaterial, 11, true);
    spawn_brick_entity(&mut loaded, IVec3::new(8, 0, 0), Lod::new(0), &nothing, 12, 0, None, None);
    assert_eq!(loaded.get(&(IVec3::new(8, 0, 0), 0)).unwrap().entity, None);
    assert_eq!(loaded.get(&(near.0, 0)).unwrap().entity, Some(10));
    let mut workers: BrickGenWorkers<()> = BrickGenWorkers::new();
    let plan = vec![near, far];
    assert!(fp_stream_bricks(false, &mut streamer, &mut loaded, &plan, &mut workers, 4).is_none());
    assert_eq!(streamer.frame, 0);
    let first = fp_stream_bricks(true, &mut streamer, &mut loaded, &plan, &mut workers, 4).unwrap();
    assert_eq!(first.fetch, vec![far]);
    assert!(first.fade_out.is_empty());
    let second = fp_stream_bricks(true, &mut streamer, &mut loaded, &plan, &mut workers, 4).unwrap();
    assert!(second.fetch.is_empty());
    assert_eq!(second.fade_out.len(), 1);
    assert_eq!((second.fade_out[0].key, second.fade_out[0].entity), ((gone, 0), 11));
    assert!(loaded.get(&(gone, 0)).unwrap().is_fading_out);
    assert!(!loaded.contains_key(&(IVec3::new(8, 0, 0), 0)));
    workers.deliver(BrickReady { coord: far.0, lod: far.1, payload: () });
    let third = fp_stream_bricks(true, &mut streamer, &mut loaded, &plan, &mut workers, 4).unwrap();
    assert_eq!(third.show.len(), 1);
    assert!(third.fade_out.is_empty(), "a brick starts to fade once");
    assert_eq!(fp_animate_fade_out(&mut loaded, &(gone, 0), r(0.5)), FadeStep::Running);
    assert!(loaded.contains_key(&(gone, 0)));
    assert_eq!(fp_animate_fade_out(&mut loaded, &(gone, 0), r(1.0)), FadeStep::Done);
    assert!(!loaded.contains_key(&(gone, 0)));
    assert!(expire_stale(&mut loaded, 3, 2).is_empty());
}

#[test]
fn fetches_stop_at_the_cap() {
    let mut streamer = ChunkStreamer::default();
    let mut loaded = LoadedChunks::default();
    let mut workers: BrickGenWorkers<()> = BrickGenWorkers::new();
    let plan: Vec<(IVec3, Lod)> = (0..100).map(|x| (IVec3::new(x, 0, 0), Lod::new(0))).collect();
    let out = fp_stream_bricks(true, &mut streamer, &mut loaded, &plan, &mut workers, 4).unwrap();
    assert_eq!(out.fetch, plan[..MAX_IN_FLIGHT].to_vec());
    assert!(workers.is_saturated());
}

#[test]
fn eight_children_hide_their_parent() {
    let mut loaded = LoadedChunks::default();
    let parent = (IVec3::new(0, 0, 0), 1u8);
    for x in 0..2 {
        for y in 0..2 {
            for z in 0..2 {
                loaded.insert((IVec3::new(x, y, z), 0), mk_chunk(IVec3::new(x, y, z), 0));
            }
        }
    }
    let shown = ShownBrick { key: parent, hidden: false, fading_in: false };
    let hidden = ShownBrick { hidden: true, ..shown };
    let both = vec![shown, hidden];
    assert_eq!(fp_update_lod_visibility(&loaded, &both), vec![LodChange::Hide, LodChange::Keep]);
    loaded.mark_fading_out(&(IVec3::new(1, 1, 1), 0));
    assert_eq!(
        fp_update_lod_visibility(&loaded, &both),
        vec![LodChange::Keep, LodChange::Reveal { bloom: true }]
    );
    let growing = ShownBrick { fading_in: true, ..hidden };
    assert_eq!(fp_update_lod_visibility(&loaded, &vec![growing]), vec![LodChange::Reveal { bloom: false }]);
    assert_eq!(fp_animate_fade_in(true, r(2.0)), FadeStep::Frozen);
    assert_eq!(fp_animate_fade_in(false, r(0.9)), FadeStep::Running);
    assert_eq!(fp_animate_fade_in(false, r(1.0)), FadeStep::Done);
}

fn vertex(x: f32, ao: f32) -> Vertex {
    Vertex { pos: [r(x), r(0.0), r(0.0)], normal: [r(0.0), r(1.0), r(0.0)], ao: r(ao) }
}

fn triangle(x: f32) -> SubMesh {
    SubMesh { vertices: vec![vertex(x, 0.5), vertex(x, 2.0), vertex(x, -1.0)], indices: vec![0, 2, 1] }
}

#[test]
fn meshes_are_merged_by_material() {
    let empty = SubMesh { vertices: vec![vertex(0.0, 1.0)], indices: vec![] };
    let meshes = vec![(4, triangle(4.0)), (9, empty), (2, triangle(2.0))];
    assert!(can_merge(&meshes));
    let merged = merge_by_material(&meshes);
    assert_eq!(merged.indices, vec![0, 2, 1, 3, 5, 4]);
    assert_eq!(merged.materials, vec![2, 2, 2, 4, 4, 4]);
    assert_eq!(merged.positions[3][0], r(4.0));
    assert_eq!(merged.normals.len(), 6);
    assert_eq!(merged.light[0..3], [r(0.5), r(1.0), r(0.0)]);
    let turned: Vec<(u16, SubMesh)> = meshes.into_iter().rev().collect();
    let again = merge_by_material(&turned);
    assert_eq!((again.indices, again.materials), (merged.indices, merged.materials));
    assert_eq!(again.positions, merged.positions);
    let wild = vec![(1u16, triangle(0.0)), (2u16, SubMesh { vertices: vec![], indices: vec![u32::MAX] })];
    assert!(!can_merge(&wild));
    let tame = vec![(2u16, triangle(0.0)), (1u16, SubMesh { vertices: vec![], indices: vec![u32::MAX] })];
    assert!(can_merge(&tame), "the lower material comes first");
}

#[test]
fn a_brick_is_spawned_by_its_meshes_and_shading() {
    let split = ShadingMode::SplitPerMaterial;
    let whole = ShadingMode::PaletteVoxelMaterial;
    let empty = || SubMesh { vertices: vec![], indices: vec![] };
    assert!(matches!(plan_spawn(&vec![], split, 11, true), SpawnPlan::Placeholder));
    let meshes = vec![(3u16, triangle(0.0)), (5u16, empty()), (40u16, triangle(0.0))];
    let SpawnPlan::PerMaterial(ids) = plan_spawn(&meshes, split, 11, true) else { panic!("split") };
    assert_eq!(ids, vec![3]);
    assert!(matches!(plan_spawn(&meshes, whole, 11, true), SpawnPlan::Merged));
    assert!(matches!(plan_spawn(&meshes, whole, 11, false), SpawnPlan::Bare));
    assert!(matches!(plan_spawn(&vec![(3u16, empty())], whole, 11, true), SpawnPlan::Bare));
    assert_eq!((lod_scale(0), lod_scale(3), lod_scale(40)), (1, 8, 1 << 40));
}

#[test]
fn offsets_are_counted_by_quadrant() {
    let d = |v: f64| Real64::from_bits(v.to_bits());
    let q = count_quadrants(&vec![
        (d(1.0), d(1.0)),
        (d(1.0), d(-1.0)),
        (d(-1.0), d(1.0)),
        (d(-1.0), d(-1.0)),
        (d(0.0), d(2.0)),
    ]);
    assert_eq!((q.plus_plus, q.plus_minus, q.minus_plus, q.minus_minus), (2, 1, 1, 1));
}
