use atomr_worlds_client::brick_gen::BrickReady;
use atomr_worlds_client::cli::{ColliderArg, PhysicsToggle};
use atomr_worlds_client::coord::{IVec3, Lod, BRICK_EDGE};
use atomr_worlds_client::key_map::KeyMap;
use atomr_worlds_client::measure::{Real32, Real64};
use atomr_worlds_client::physics::character::{
    capsule_endpoints, character_active, drive_character, fly_vertical_velocity, needs_headroom_probe,
    register_space_tap, resolve_crouch_state, spawn_player, step_vertical, tap_space, writeback_character,
    CharacterState, DriveInput, CAPSULE_FOOT_Y, CAPSULE_HEAD_Y_CROUCH, CAPSULE_HEAD_Y_STAND, CAPSULE_RADIUS,
    CROUCH_WALK_SPEED, DOUBLE_TAP_WINDOW_S, FLY_SPRINT_SPEED, FLY_SPRINT_VERTICAL_SPEED, FLY_VERTICAL_SPEED,
    GROUND_STICK, JUMP_SPEED, WALK_SPEED,
};
use atomr_worlds_client::modes::edit::VoxelEditEvent;
use atomr_worlds_client::physics::collider_gen::{
    brick_to_collider, compound_from_boxes, per_voxel_boxes, Corner, VoxBox,
};
use atomr_worlds_client::physics::config::PhysicsConfig;
use atomr_worlds_client::physics::debris::{settle_and_despawn_debris, spawn_island, Island};
use atomr_worlds_client::physics::debris_stream::{
    track_pose, DebrisInterp, DebrisSample, DebrisTrack, Placement, Position, Rotation, ShownDebris, TrackPose,
};
use atomr_worlds_client::physics::defaults::{ColliderStrategy, GreedyBoxCompound, PerVoxelCompound};
use atomr_worlds_client::physics::fracture::{
    apply_fracture_results, dispatch_fracture_checks, fracture_impact, read_commands, region_for_bricks,
    FractureApplied, FractureCommand, FractureWorkers, IslandSource, MAX_IN_FLIGHT_FRACTURES, REGION_SKIRT,
};
use atomr_worlds_client::physics::plugin::{attach_brick_colliders, detach_brick_colliders};
use atomr_worlds_client::physics::registry::apply_strategy_by_name;
use atomr_worlds_client::view_mode::ViewMode;
use atomr_worlds_client::voxel::{Brick, Voxel};
use atomr_worlds_client::world_stream::{LoadedChunk, LoadedChunks};

const CHARACTER_GRAVITY_SCALE: f32 = 2.0;

const DEBRIS_TICK_DT: f32 = 1.0 / 30.0;

fn r(v: f32) -> Real32 {
    Real32::from_bits(v.to_bits())
}

fn d(v: f64) -> Real64 {
    Real64::from_bits(v.to_bits())
}

fn f(v: Real32) -> f32 {
    f32::from_bits(v.bits)
}

fn c(bits: u32) -> f32 {
    f32::from_bits(bits)
}

fn step(vel: f32, grounded: bool, jump: bool, dt: f32, gravity: f32) -> f32 {
    let fallen = vel + (gravity * CHARACTER_GRAVITY_SCALE) * dt;
    f(step_vertical(r(vel), grounded, jump, r(fallen)))
}

fn tap(last: Option<f32>, now: f32, window: f32) -> (Option<f32>, bool) {
    let since = now - last.unwrap_or(now);
    let (last, toggled) = register_space_tap(last.map(r), r(now), r(since), r(window));
    (last.map(f), toggled)
}

#[test]
fn jump_only_from_ground() {
    assert_eq!(step(c(GROUND_STICK), true, true, 0.016, -9.81), c(JUMP_SPEED));
    let v = step(2.0, false, true, 0.1, -10.0);
    let expect = 2.0 + (-10.0 * CHARACTER_GRAVITY_SCALE) * 0.1;
    assert!((v - expect).abs() < 1e-6, "airborne jump ignored: {v}");
}

#[test]
fn grounded_at_rest_holds_ground_stick() {
    assert_eq!(step(c(GROUND_STICK), true, false, 0.016, -9.81), c(GROUND_STICK));
    assert_eq!(step(-3.0, true, false, 0.016, -9.81), c(GROUND_STICK));
}

#[test]
fn grounded_but_ascending_keeps_jump_alive() {
    let jump = c(JUMP_SPEED);
    let v = step(jump, true, false, 0.05, -9.81);
    assert!(v > 0.0 && v < jump, "ascending velocity decays under gravity: {v}");
    assert!((v - (jump - 9.81 * CHARACTER_GRAVITY_SCALE * 0.05)).abs() < 1e-5);
}

#[test]
fn gravity_is_symmetric_and_scaled() {
    let g = -10.0;
    let dt = 0.1;
    let fall = (g * CHARACTER_GRAVITY_SCALE) * dt;
    let up = step(3.0, false, false, dt, g);
    assert!((up - (3.0 + fall)).abs() < 1e-6, "ascent: {up}");
    let down = step(-3.0, false, false, dt, g);
    assert!((down - (-3.0 + fall)).abs() < 1e-6, "descent: {down}");
    assert!(((3.0 - up) - (-3.0 - down)).abs() < 1e-6, "symmetric change of speed");
    assert!(fall < g * dt, "scaled gravity exceeds world gravity");
}

#[test]
fn jump_apex_matches_kinematics() {
    let g = -9.81_f32;
    let dt = 1.0 / 240.0;
    let mut v = step(c(GROUND_STICK), true, true, dt, g);
    let mut h = 0.0_f32;
    while v > 0.0 {
        h += v * dt;
        v = step(v, false, false, dt, g);
    }
    let g_eff = -g * CHARACTER_GRAVITY_SCALE;
    let analytic = c(JUMP_SPEED) * c(JUMP_SPEED) / (2.0 * g_eff);
    assert!((h - analytic).abs() < 0.05, "apex {h} vs analytic {analytic}");
}

#[test]
fn double_tap_toggles_within_window() {
    let w = c(DOUBLE_TAP_WINDOW_S);
    let (last, toggled) = tap(None, 1.00, w);
    assert_eq!((last, toggled), (Some(1.00), false));
    let (last, toggled) = tap(last, 1.00 + w * 0.5, w);
    assert_eq!((last, toggled), (None, true));
    let (last, toggled) = tap(last, 1.00 + w * 0.6, w);
    assert_eq!((last, toggled), (Some(1.00 + w * 0.6), false));
}

#[test]
fn slow_double_press_does_not_toggle() {
    let w = c(DOUBLE_TAP_WINDOW_S);
    let (last, _) = tap(None, 5.0, w);
    let (last, toggled) = tap(last, 5.0 + w + 0.01, w);
    assert!(!toggled, "presses too far apart must not toggle");
    assert_eq!(last, Some(5.0 + w + 0.01));
}

#[test]
fn fly_vertical_velocity_maps_keys() {
    let speed = c(FLY_VERTICAL_SPEED);
    assert_eq!(f(fly_vertical_velocity(true, false, false)), speed);
    assert_eq!(f(fly_vertical_velocity(false, true, false)), -speed);
    assert_eq!(f(fly_vertical_velocity(false, false, false)), 0.0);
    assert_eq!(f(fly_vertical_velocity(true, true, false)), 0.0);
    assert_eq!(f(fly_vertical_velocity(true, false, true)), c(FLY_SPRINT_VERTICAL_SPEED));
    assert!(c(FLY_SPRINT_VERTICAL_SPEED) > speed);
}

#[test]
fn capsule_endpoints_have_grounded_feet_and_expected_heights() {
    let (sf, sh, sr) = capsule_endpoints(false);
    let (cf, ch, cr) = capsule_endpoints(true);
    assert_eq!((f(sf), f(sr)), (c(CAPSULE_FOOT_Y), c(CAPSULE_RADIUS)));
    assert_eq!((f(cf), f(cr)), (c(CAPSULE_FOOT_Y), c(CAPSULE_RADIUS)));
    assert_eq!(f(sh), c(CAPSULE_HEAD_Y_STAND));
    assert_eq!(f(ch), c(CAPSULE_HEAD_Y_CROUCH));
    assert!(f(ch) < f(sh), "crouched head is below standing head");
    let total = |a: Real32, b: Real32, e: Real32| (f(b) - f(a)) + 2.0 * f(e);
    assert!((total(sf, sh, sr) - 1.8).abs() < 1e-6, "standing ~1.8 m");
    assert!((total(cf, ch, cr) - 0.9).abs() < 1e-6, "crouched ~0.9 m");
}

#[test]
fn resolve_crouch_truth_table() {
    assert!(resolve_crouch_state(true, true));
    assert!(resolve_crouch_state(true, false));
    assert!(!resolve_crouch_state(false, true));
    assert!(resolve_crouch_state(false, false));
}

#[test]
fn active_only_when_enabled_fp_and_spawned() {
    let cfg = PhysicsConfig::default();
    let spawned = CharacterState { spawned: true, ..CharacterState::default() };
    let not_spawned = CharacterState { spawned: false, ..CharacterState::default() };
    assert!(character_active(&cfg, ViewMode::Fp, &spawned));
    assert!(!character_active(&cfg, ViewMode::Fp, &not_spawned));
    assert!(!character_active(&cfg, ViewMode::Tp, &spawned));
    assert!(!character_active(&cfg, ViewMode::Rts, &spawned));
    let mut disabled = PhysicsConfig::default();
    disabled.enabled = false;
    assert!(!character_active(&disabled, ViewMode::Fp, &spawned));
}

#[test]
fn spawn_player_spawns_once() {
    let mut state = CharacterState::default();
    let mut count = 0;
    for _ in 0..2 {
        if spawn_player(&state, ViewMode::Fp, true) {
            count += 1;
            state.note_spawned(40 + count, r(28.0));
        }
    }
    assert_eq!(count, 1, "exactly one player capsule");
    assert_eq!(state.entity, Some(41));
    assert_eq!(f(state.spawn_y), 28.0);
}

fn at_rest(crouch: bool, headroom_clear: bool) -> DriveInput {
    DriveInput {
        crouch,
        sprint: false,
        headroom_clear,
        jump: false,
        up: false,
        down: false,
        fallen: r(0.0),
    }
}

#[test]
fn drive_character_resizes_capsule_on_stance_flip() {
    let setup = |start_crouched: bool| CharacterState {
        spawned: true,
        entity: Some(1),
        crouched: start_crouched,
        ..CharacterState::default()
    };
    let half = |crouched: bool| {
        let (foot, head, _) = capsule_endpoints(crouched);
        (f(head) - f(foot)) / 2.0
    };
    let stand_hh = (c(CAPSULE_HEAD_Y_STAND) - c(CAPSULE_FOOT_Y)) / 2.0;
    let crouch_hh = (c(CAPSULE_HEAD_Y_CROUCH) - c(CAPSULE_FOOT_Y)) / 2.0;

    let mut state = setup(false);
    let out = drive_character(&mut state, &at_rest(true, true));
    assert!(state.crouched);
    assert_eq!(out.resize, Some(true));
    assert!((half(out.resize.unwrap()) - crouch_hh).abs() < 1e-6, "held crouch shrinks capsule");

    let mut state = setup(true);
    let out = drive_character(&mut state, &at_rest(false, true));
    assert!(!state.crouched);
    assert_eq!(out.resize, Some(false));
    assert!((half(out.resize.unwrap()) - stand_hh).abs() < 1e-6, "released crouch stands up");
}

#[test]
fn a_ceiling_keeps_the_player_crouched() {
    let mut state = CharacterState { spawned: true, crouched: true, ..CharacterState::default() };
    assert!(needs_headroom_probe(&state, false));
    assert!(!needs_headroom_probe(&state, true));
    let out = drive_character(&mut state, &at_rest(false, false));
    assert!(state.crouched);
    assert_eq!(out.resize, None);
    assert_eq!(f(out.speed), c(CROUCH_WALK_SPEED));
    assert!(out.snap);
}

#[test]
fn flying_is_fast_and_does_not_snap() {
    let mut state = CharacterState { spawned: true, flying: true, ..CharacterState::default() };
    let input = DriveInput { sprint: true, up: true, ..at_rest(false, true) };
    let out = drive_character(&mut state, &input);
    assert_eq!(f(out.speed), c(FLY_SPRINT_SPEED));
    assert!(!out.snap);
    assert_eq!(f(state.vertical_velocity), c(FLY_SPRINT_VERTICAL_SPEED));
}

#[test]
fn a_double_tap_takes_off_and_lands() {
    let mut state = CharacterState { spawned: true, vertical_velocity: r(3.0), ..CharacterState::default() };
    assert!(!tap_space(&mut state, false, r(1.0), r(0.0)));
    assert_eq!(state.last_space_tap, None);
    assert!(!tap_space(&mut state, true, r(1.0), r(0.0)));
    assert_eq!(state.last_space_tap, Some(r(1.0)));
    assert!(tap_space(&mut state, true, r(1.1), r(0.1)));
    assert!(state.flying);
    assert_eq!(f(state.vertical_velocity), 0.0);
    assert!(!tap_space(&mut state, true, r(1.2), r(0.0)));
    assert!(tap_space(&mut state, true, r(1.3), r(0.1)));
    assert!(!state.flying);
}

#[test]
fn falling_below_the_world_respawns() {
    let mut state = CharacterState {
        spawned: true,
        spawn_y: r(28.0),
        vertical_velocity: r(-50.0),
        ..CharacterState::default()
    };
    let back = writeback_character(&mut state, Some(false), r(-600.0), r(-512.0));
    assert!(back.respawn);
    assert_eq!(f(back.y), 28.0);
    assert_eq!(f(state.vertical_velocity), 0.0);
    let kept = writeback_character(&mut state, Some(true), r(4.0), r(-512.0));
    assert!(!kept.respawn);
    assert_eq!(f(kept.y), 4.0);
    assert!(state.grounded);
}

#[test]
fn spawn_player_is_gated() {
    let state = CharacterState::default();
    assert!(!spawn_player(&state, ViewMode::Tp, true));
    assert!(!spawn_player(&state, ViewMode::Fp, false));
    assert!(!state.spawned);
}

#[test]
fn a_jump_in_the_air_changes_nothing() {
    assert_eq!(step(5.0, false, true, 0.1, -9.81), step(5.0, false, false, 0.1, -9.81));
    assert_eq!(c(WALK_SPEED), 4.0);
}

fn brick_with(solids: &[[i32; 3]]) -> Brick {
    let mut b = Brick::new();
    for &[x, y, z] in solids {
        b.set(IVec3::new(x as i64, y as i64, z as i64), Voxel::new(1));
    }
    b
}

#[test]
fn empty_brick_has_no_collider() {
    let none: Vec<VoxBox> = vec![];
    assert!(PerVoxelCompound {}.build(&Brick::new()).is_none());
    assert!(GreedyBoxCompound {}.build(&none).is_none());
    assert!(brick_to_collider(&none).is_none());
    assert!(compound_from_boxes(&none).is_none());
}

#[test]
fn non_empty_brick_yields_collider() {
    let b = brick_with(&[[0, 0, 0], [1, 0, 0], [2, 0, 0]]);
    let parts = PerVoxelCompound {}.build(&b).expect("a collider");
    assert_eq!(parts.len(), 3);
    assert_eq!(parts[1].centre, IVec3::new(3, 1, 1));
    assert_eq!(parts[1].half, IVec3::new(1, 1, 1));
}

#[test]
fn per_voxel_boxes_cover_five_cells_in_order() {
    let b = brick_with(&[[5, 5, 5], [0, 1, 0], [0, 0, 0], [1, 0, 0], [2, 0, 0]]);
    let boxes = per_voxel_boxes(&b);
    let corners: Vec<(i32, i32, i32)> = boxes.iter().map(|x| (x.min.x, x.min.y, x.min.z)).collect();
    assert_eq!(corners, vec![(0, 0, 0), (0, 1, 0), (1, 0, 0), (2, 0, 0), (5, 5, 5)]);
    for x in &boxes {
        assert_eq!(x.size(), Corner { x: 1, y: 1, z: 1 });
    }
}

#[test]
fn a_merged_box_is_one_part() {
    let bar = VoxBox { min: Corner { x: 0, y: 2, z: 0 }, max: Corner { x: 4, y: 3, z: 2 } };
    let parts = GreedyBoxCompound {}.build(&vec![bar]).unwrap();
    assert_eq!(parts[0].centre, IVec3::new(4, 5, 2));
    assert_eq!(parts[0].half, IVec3::new(4, 1, 2));
}

#[test]
fn empty_island_spawns_nothing() {
    let island = Island { origin: IVec3::new(0, 0, 0), dims: (2, 2, 2), material: vec![0; 8], boxes: vec![] };
    assert!(spawn_island(&island).is_none());
}

#[test]
fn spawns_dynamic_body_with_merged_child() {
    let island = Island {
        origin: IVec3::new(0, 10, 0),
        dims: (2, 1, 1),
        material: vec![1, 1],
        boxes: vec![VoxBox { min: Corner { x: 0, y: 0, z: 0 }, max: Corner { x: 2, y: 1, z: 1 } }],
    };
    let parts = spawn_island(&island).expect("a solid island spawns a body");
    assert_eq!(parts.len(), 1);
    assert_eq!(parts[0].material, 1);
    assert_eq!(parts[0].part.centre, IVec3::new(2, 1, 1));
}

#[test]
fn debris_goes_when_settled_old_or_fallen() {
    assert!(!settle_and_despawn_debris(r(0.5), r(0.0), Some(true)));
    assert!(settle_and_despawn_debris(r(1.5), r(0.0), Some(true)));
    assert!(!settle_and_despawn_debris(r(1.5), r(0.0), Some(false)));
    assert!(!settle_and_despawn_debris(r(29.0), r(0.0), None));
    assert!(settle_and_despawn_debris(r(31.0), r(0.0), None));
    assert!(settle_and_despawn_debris(r(0.0), r(-513.0), None));
}

fn place(x: f32, y: f32, z: f32) -> Position {
    Position { x: r(x), y: r(y), z: r(z) }
}

fn sample(tick: u64, pos: Position, sleeping: bool) -> DebrisSample {
    DebrisSample {
        tick,
        pos,
        orient: Rotation { x: r(0.0), y: r(0.0), z: r(0.0), w: r(1.0) },
        sleeping,
    }
}

fn delta(tick: u64, y: f32) -> DebrisSample {
    sample(tick, place(0.0, y, 0.0), false)
}

#[test]
fn ingest_shifts_curr_to_prev_and_drops_stale() {
    let mut interp = DebrisInterp::default();
    interp.ingest(1, delta(10, 5.0), d(1.0));
    interp.ingest(1, delta(11, 4.0), d(2.0));
    let t = interp.get(1).unwrap();
    assert_eq!(t.curr.unwrap().tick, 11);
    assert_eq!(t.prev.unwrap().tick, 10);
    interp.ingest(1, delta(9, 9.0), d(3.0));
    assert_eq!(interp.get(1).unwrap().curr.unwrap().tick, 11);
}

#[test]
fn track_pose_interpolates_midpoint() {
    let track = DebrisTrack {
        entity: None,
        prev: Some(sample(10, place(0.0, 0.0, 0.0), false)),
        curr: Some(sample(20, place(2.0, 0.0, 0.0), false)),
        last_update: d(0.0),
    };
    let TrackPose::Between { prev, curr } = track_pose(&track) else { panic!("two samples") };
    let alpha = (DEBRIS_TICK_DT / 2.0) / DEBRIS_TICK_DT;
    let x = f(prev.pos.x) + (f(curr.pos.x) - f(prev.pos.x)) * alpha;
    assert!((x - 1.0).abs() < 1e-4, "pos.x={x}");
}

#[test]
fn track_pose_snaps_on_first_sample() {
    let track = DebrisTrack {
        entity: None,
        prev: None,
        curr: Some(sample(5, place(7.0, 8.0, 9.0), false)),
        last_update: d(0.0),
    };
    let TrackPose::At(s) = track_pose(&track) else { panic!("one sample") };
    assert_eq!(s.pos, place(7.0, 8.0, 9.0));
}

#[test]
fn track_pose_freezes_exactly_when_sleeping() {
    let track = DebrisTrack {
        entity: None,
        prev: Some(sample(10, place(0.0, 0.0, 0.0), false)),
        curr: Some(sample(20, place(2.0, 0.0, 0.0), true)),
        last_update: d(0.0),
    };
    let TrackPose::At(s) = track_pose(&track) else { panic!("a sleeping body") };
    assert_eq!(s.pos, place(2.0, 0.0, 0.0));
}

#[test]
fn attach_entity_keeps_buffered_samples() {
    let mut interp = DebrisInterp::default();
    interp.ingest(7, delta(1, 3.0), d(1.0));
    interp.attach_entity(7, 99, d(2.0));
    let t = interp.get(7).unwrap();
    assert_eq!(t.entity, Some(99));
    assert!(t.curr.is_some(), "the sample from before the spawn is kept");
}

#[test]
fn quiet_and_fallen_debris_is_retired() {
    let mut interp = DebrisInterp::default();
    for id in 1..4 {
        interp.ingest(id, delta(1, 3.0), d(0.0));
        interp.attach_entity(id, 100 + id as u64, d(0.0));
    }
    let quiet = vec![(1u32, d(6.0)), (2u32, d(0.5)), (3u32, d(0.5))];
    let shown = vec![
        ShownDebris { entity: 102, id: 2, y: r(-600.0) },
        ShownDebris { entity: 103, id: 3, y: r(0.0) },
    ];
    let gone = interp.retire_host_debris(&quiet, &shown);
    assert!(gone.contains(&102));
    assert!(!gone.contains(&103));
    assert_eq!(interp.ids(), vec![3]);
}

#[test]
fn region_covers_one_brick_plus_skirt() {
    let e = BRICK_EDGE as i64;
    let region = region_for_bricks(&vec![IVec3::new(0, 0, 0)]).unwrap();
    assert_eq!(region.min, IVec3::new(-REGION_SKIRT, -REGION_SKIRT, -REGION_SKIRT));
    let side = (e + 2 * REGION_SKIRT) as u32;
    assert_eq!(region.dims, (side, side, side));
}

#[test]
fn region_spans_adjacent_bricks() {
    let e = BRICK_EDGE as i64;
    let region = region_for_bricks(&vec![IVec3::new(0, 0, 0), IVec3::new(1, 0, 0)]).unwrap();
    assert_eq!(region.min.x, -REGION_SKIRT);
    assert_eq!(region.dims.0, (2 * e + 2 * REGION_SKIRT) as u32);
    assert_eq!(region.dims.1, (e + 2 * REGION_SKIRT) as u32);
}

#[test]
fn empty_brick_set_has_no_region() {
    assert!(region_for_bricks(&vec![]).is_none());
}

#[test]
fn a_removal_is_probed_at_the_middle_of_its_region() {
    assert_eq!(fracture_impact(true, &vec![IVec3::new(0, 0, 0)]), Some(IVec3::new(8, 8, 8)));
    assert_eq!(fracture_impact(false, &vec![IVec3::new(0, 0, 0)]), None);
    assert_eq!(fracture_impact(true, &vec![]), None);
    let far = vec![IVec3::new(0, 0, 0), IVec3::new(40, 0, 0)];
    assert_eq!(fracture_impact(true, &far), None);
}

#[test]
fn bake_island_empty_set_is_none() {
    assert!(IslandSource::bake_island(&vec![]).is_none());
}

#[test]
fn bake_island_frames_a_bar() {
    let voxels = vec![IVec3::new(5, 5, 5), IVec3::new(6, 5, 5)];
    let mut materials: KeyMap<u16> = KeyMap::new();
    materials.insert((IVec3::new(5, 5, 5), 0), 1);
    let island = IslandSource::bake_island(&voxels).expect("one island");
    assert_eq!(island.origin(), IVec3::new(5, 5, 5));
    assert_eq!(island.dims(), (2, 1, 1));
    assert!(island.is_solid(0, 0, 0));
    assert!(island.is_solid(1, 0, 0));
    assert!(!island.is_solid(0, 1, 0));
    assert_eq!(island.material_at(&materials, 0, 0, 0), 1);
}

#[test]
fn materials_come_from_before_not_current() {
    let pos = IVec3::new(0, 0, 0);
    let commands = vec![FractureCommand::SetVoxel { pos, before: Voxel::new(7), after: Voxel::empty() }];
    let reading = read_commands(&commands, &LoadedChunks::default());
    assert_eq!(reading.materials.get((pos, 0)), Some(&7));
    assert!(reading.touched.is_empty());
}

#[test]
fn requests_for_fractures_are_capped_and_counted_back() {
    let mut w: FractureWorkers<()> = FractureWorkers::new();
    for _ in 0..MAX_IN_FLIGHT_FRACTURES {
        assert!(w.dispatch_fracture());
    }
    assert!(!w.dispatch_fracture());
    w.deliver_reply(FractureApplied { commands: vec![] });
    assert_eq!(w.drain_applied().len(), 1);
    assert_eq!(w.in_flight_count(), MAX_IN_FLIGHT_FRACTURES - 1);
    let key = (IVec3::new(1, 2, 3), 0u8);
    assert_eq!(w.dispatch_brick_refresh(&vec![key]), vec![key]);
    assert!(w.dispatch_brick_refresh(&vec![key]).is_empty());
    w.deliver(BrickReady { coord: key.0, lod: Lod::new(0), payload: () });
    let (ready, again) = w.drain_refresh();
    assert_eq!(ready.len(), 1);
    assert_eq!(again, vec![key]);
    assert_eq!(w.refresh_in_flight_count(), 1);
}

fn edit(removed: bool, x: i64) -> VoxelEditEvent<i64> {
    VoxelEditEvent { addr: -x, removed, bricks: vec![IVec3::new(x, 0, 0)] }
}

#[test]
fn carves_are_asked_about_while_there_is_room() {
    let mut w: FractureWorkers<()> = FractureWorkers::new();
    let asked = dispatch_fracture_checks(&vec![edit(true, 0), edit(false, 1), edit(true, 2)], &mut w);
    assert_eq!(asked, vec![(0, IVec3::new(8, 8, 8)), (-2, IVec3::new(40, 8, 8))]);
    assert_eq!(w.in_flight_count(), 2);
    let many: Vec<VoxelEditEvent<i64>> = (0..20).map(|x| edit(true, x)).collect();
    assert_eq!(dispatch_fracture_checks(&many, &mut w).len(), MAX_IN_FLIGHT_FRACTURES - 2);
    assert!(edit(true, 0).is_measurable());
    assert!(!edit(true, i64::MAX / 16 + 1).is_measurable());
    assert!(edit(false, i64::MAX).is_measurable());
}

#[test]
fn a_reply_spawns_pieces_and_refreshes_bricks() {
    let near = IVec3::new(0, 0, 0);
    let mut loaded = loaded_with(near, 0, 1, None);
    let mut w: FractureWorkers<u8> = FractureWorkers::new();
    assert!(w.dispatch_fracture());
    let carve = |x: i64, m: u16| FractureCommand::SetVoxel {
        pos: IVec3::new(x, 1, 1),
        before: Voxel::new(m),
        after: Voxel::empty(),
    };
    w.deliver_reply(FractureApplied {
        commands: vec![
            carve(1, 4),
            carve(2, 5),
            carve(100, 6),
            FractureCommand::SpawnDebris { id: 9, voxels: vec![IVec3::new(1, 1, 1), IVec3::new(2, 1, 1)] },
            FractureCommand::SpawnDebris { id: 10, voxels: vec![] },
        ],
    });
    let frame = apply_fracture_results(&loaded, &mut w);
    assert_eq!(frame.carved.len(), 1);
    let carved = &frame.carved[0];
    assert_eq!(carved.fetch, vec![(near, 0)]);
    assert_eq!(carved.pieces.len(), 1);
    assert_eq!(carved.pieces[0].id, 9);
    assert_eq!(carved.pieces[0].source.dims(), (2, 1, 1));
    assert_eq!(carved.pieces[0].source.material_at(&carved.materials, 1, 0, 0), 5);
    assert_eq!((frame.in_flight, frame.refresh_in_flight), (0, 1));
    w.deliver_reply(FractureApplied { commands: vec![carve(3, 4)] });
    let frame = apply_fracture_results(&loaded, &mut w);
    assert!(frame.carved[0].fetch.is_empty());
    w.deliver(BrickReady { coord: near, lod: Lod::new(0), payload: 1 });
    let frame = apply_fracture_results(&loaded, &mut w);
    assert_eq!(frame.show.len(), 1);
    assert_eq!(frame.refetch, vec![(near, 0)]);
    loaded.mark_fading_out(&(near, 0));
    w.deliver(BrickReady { coord: near, lod: Lod::new(0), payload: 2 });
    let frame = apply_fracture_results(&loaded, &mut w);
    assert!(frame.show.is_empty(), "a fading brick is not brought back");
    assert_eq!(frame.refresh_in_flight, 0);
    let wide = vec![IVec3::new(0, 0, 0), IVec3::new(1 << 40, 0, 0)];
    let reply = FractureApplied { commands: vec![FractureCommand::SpawnDebris { id: 1, voxels: wide }] };
    assert!(!reply.is_measurable());
}

#[test]
fn debris_is_placed_by_its_samples() {
    let mut interp = DebrisInterp::default();
    interp.pump_debris_states(&vec![(3, delta(1, 5.0)), (4, delta(1, 9.0)), (3, delta(2, 4.0))], d(1.0));
    assert!(interp.apply_debris_interpolation().is_empty());
    interp.attach_entity(3, 33, d(1.0));
    interp.attach_entity(4, 44, d(1.0));
    interp.attach_entity(5, 55, d(1.0));
    assert_eq!(
        interp.apply_debris_interpolation(),
        vec![
            Placement {
                entity: 33,
                pose: TrackPose::Between { prev: delta(1, 5.0), curr: delta(2, 4.0) },
                since: d(1.0),
            },
            Placement { entity: 44, pose: TrackPose::At(delta(1, 9.0)), since: d(1.0) },
        ]
    );
}

fn solid_brick() -> Brick {
    let mut b = Brick::new();
    for x in 0..4 {
        for y in 0..4 {
            for z in 0..4 {
                b.set(IVec3::new(x, y, z), Voxel::new(1));
            }
        }
    }
    b
}

fn loaded_with(coord: IVec3, depth: u8, entity: u64, brick: Option<Brick>) -> LoadedChunks {
    let mut loaded = LoadedChunks::default();
    loaded.insert(
        LoadedChunk::key(coord, Lod::new(depth)),
        LoadedChunk {
            coord,
            lod: Lod::new(depth),
            entity: Some(entity),
            last_seen_frame: 0,
            is_fading_out: false,
            dag_digest: None,
            dag_tier: None,
            brick,
        },
    );
    loaded
}

#[test]
fn attaches_fixed_collider_to_resident_lod0_brick() {
    let coord = IVec3::new(0, 0, 0);
    let loaded = loaded_with(coord, 0, 1, Some(solid_brick()));
    let brick = attach_brick_colliders(&loaded, coord, 0).expect("a brick of the finest tier");
    assert_eq!(PerVoxelCompound {}.build(brick).unwrap().len(), 64);
}

#[test]
fn skips_coarse_lod_bricks() {
    let coord = IVec3::new(0, 0, 0);
    let loaded = loaded_with(coord, 1, 1, Some(solid_brick()));
    assert!(attach_brick_colliders(&loaded, coord, 1).is_none(), "coarse bricks stay free");
}

#[test]
fn colliders_leave_with_fading_bricks() {
    assert!(detach_brick_colliders(true, true));
    assert!(!detach_brick_colliders(true, false));
    assert!(!detach_brick_colliders(false, true));
    let coord = IVec3::new(0, 0, 0);
    assert!(attach_brick_colliders(&loaded_with(coord, 0, 1, None), coord, 0).is_none());
}

#[test]
fn colliders_are_chosen_by_name() {
    let mut cfg = PhysicsConfig::default();
    assert!(cfg.enabled);
    assert_eq!([f(cfg.gravity.x), f(cfg.gravity.y), f(cfg.gravity.z)], [0.0, -9.81, 0.0]);
    assert!(apply_strategy_by_name(&mut cfg, "collider", "PerVoxelCompound"));
    assert_eq!(cfg.collider, ColliderStrategy::PerVoxelCompound(PerVoxelCompound {}));
    assert!(!apply_strategy_by_name(&mut cfg, "collider", "Sphere"));
    assert!(!apply_strategy_by_name(&mut cfg, "mesher", "GreedyBoxCompound"));
    assert_eq!(cfg.collider, ColliderStrategy::PerVoxelCompound(PerVoxelCompound {}));
    let scripted = PhysicsConfig::for_run(PhysicsToggle::On, ColliderArg::Greedy, true);
    assert!(!scripted.enabled);
    assert_eq!(scripted.collider, ColliderStrategy::GreedyBoxCompound(GreedyBoxCompound {}));
}
