use atomr_worlds_client::brick_gen::DEFAULT_SPAWN_BUDGET;
use atomr_worlds_client::cli;
use atomr_worlds_client::coord::{IVec3, Lod};
use atomr_worlds_client::measure::{Real32, Real64};
use atomr_worlds_client::render::config::{PerfPreset, RenderConfig, RenderPreset};
use atomr_worlds_client::render::dag_cache::{
    dag_bytes, AcquireStep, BrickGpuStats, DagBufferCache, DagGpuWithDigest, Dropped,
};
use atomr_worlds_client::render::defaults::{keyframe_segment, FogDensity};
use atomr_worlds_client::render::horizon_shell::{
    HorizonShellRuntime, MacroStateProvider, ShellNews, ShellPose, WorldShape,
};
use atomr_worlds_client::render::offscreen::{
    copied_picture, copy_buffer_size, outcome_of, padded_bytes_per_row, unpad_rgba, CaptureQueue,
    CaptureRequest, CopyResult,
};
use atomr_worlds_client::render::raymarch::{
    brick_proxy_box, build_raymarch_material, raymarch_tier, DagGpu, RaymarchShadingTier,
};
use atomr_worlds_client::render::registry::apply_strategy_by_name;
use atomr_worlds_client::render::skybox::{
    brick_to_mesh_nodes, cubemap_image, far_ring, placeholder_cubemap_image, Brightness, SkyFrame,
    SkyboxRuntime, CUBE_FACE_COUNT, SKYBOX_FACE_RESOLUTION,
};
use atomr_worlds_client::render::strategy::{
    AoStrategy, BiomeBlendedFog, CameraMotionState, ExpSquaredSkyTintedFog, FogStrategy, HillshadeSlice,
    HorizonImposterStrategy, LodCoveragePolicy, LodLadderPolicy, MeshStrategy, MotionScaledSpawnBudget,
    PaletteStrategy, PolarAnnulusShell, RebuildThresholdStrategy, ShadingMode, ShadingStrategy,
    ShadowStrategy, SkyStrategy, SliceRenderStrategy, SpawnBudgetStrategy, SunCurveStrategy,
    TonemapStrategy, VisibilityCadenceStrategy,
};
use atomr_worlds_client::render::sun::{advance_world_time, sun_up, UpAxis};
use atomr_worlds_client::world_stream::{DVec3, LoadedChunk, LoadedChunks, LodLadder};

fn r(v: f32) -> Real32 {
    Real32::from_bits(v.to_bits())
}

fn d(v: f64) -> Real64 {
    Real64::from_bits(v.to_bits())
}

fn f(v: Real32) -> f32 {
    f32::from_bits(v.bits)
}

fn uniform_bundle(material: u16) -> DagGpuWithDigest {
    DagGpuWithDigest {
        gpu: DagGpu { nodes: vec![1], colors: vec![material], root: Some(0) },
        digest: 1000 + material as u64,
    }
}

fn sparse_bundle() -> DagGpuWithDigest {
    DagGpuWithDigest {
        gpu: DagGpu { nodes: vec![1, 2, 3, 4], colors: vec![7], root: Some(3) },
        digest: 77,
    }
}

struct Acquired {
    material: u64,
    material_miss: bool,
}

/// Acquires a material, building what the cache asks for under fresh numbers.
fn acquire(
    cache: &mut DagBufferCache,
    bundle: &DagGpuWithDigest,
    tier: RaymarchShadingTier,
    fresh: &mut u64,
) -> Option<Acquired> {
    let mut next = || {
        *fresh += 1;
        *fresh
    };
    let (nodes, colors) = match cache.acquire(bundle, tier) {
        AcquireStep::Nothing => return None,
        AcquireStep::Hit { material } => return Some(Acquired { material, material_miss: false }),
        AcquireStep::BuildMaterial { nodes, colors } => (nodes, colors),
        AcquireStep::BuildAll => (next(), next()),
    };
    let material = cache.install(bundle, tier, nodes, colors);
    Some(Acquired { material, material_miss: true })
}

#[test]
fn identical_bricks_share_one_buffer_set() {
    let mut cache = DagBufferCache::default();
    let mut fresh = 0;
    let bundle = uniform_bundle(1);
    let a = acquire(&mut cache, &bundle, RaymarchShadingTier::Lambert, &mut fresh).unwrap();
    let b = acquire(&mut cache, &bundle, RaymarchShadingTier::Lambert, &mut fresh).unwrap();
    assert!(a.material_miss, "first acquire builds the material");
    assert!(!b.material_miss, "second acquire is a cache hit");
    assert_eq!(a.material, b.material, "identical bricks share the material");
    assert_eq!(cache.buffer_count(), 1);
}

#[test]
fn release_lifecycle_frees_buffers() {
    let mut cache = DagBufferCache::default();
    let mut fresh = 0;
    let bundle = uniform_bundle(2);
    let tier = RaymarchShadingTier::Lambert;
    acquire(&mut cache, &bundle, tier, &mut fresh).unwrap();
    acquire(&mut cache, &bundle, tier, &mut fresh).unwrap();
    assert_eq!(cache.buffer_count(), 1);
    cache.release(bundle.digest, tier);
    assert_eq!(cache.buffer_count(), 1, "still one live reference");
    assert_eq!(cache.resident_bytes(), 8);
    cache.release(bundle.digest, tier);
    assert_eq!(cache.buffer_count(), 0, "buffers freed when last reference drops");
    assert_eq!(cache.resident_bytes(), 0);
}

#[test]
fn different_tiers_share_buffers_distinct_materials() {
    let mut cache = DagBufferCache::default();
    let mut fresh = 0;
    let bundle = uniform_bundle(3);
    let lam = acquire(&mut cache, &bundle, RaymarchShadingTier::Lambert, &mut fresh).unwrap();
    assert_eq!(cache.buffer_count(), 1, "first tier uploads buffers");
    let unlit = acquire(&mut cache, &bundle, RaymarchShadingTier::Unlit, &mut fresh).unwrap();
    assert!(lam.material_miss && unlit.material_miss, "each tier builds its own material");
    assert_ne!(lam.material, unlit.material, "tiers get distinct materials");
    assert_eq!(cache.buffer_count(), 1, "both tiers share one buffer set");
    cache.release(bundle.digest, RaymarchShadingTier::Lambert);
    assert_eq!(cache.buffer_count(), 1);
    cache.release(bundle.digest, RaymarchShadingTier::Unlit);
    assert_eq!(cache.buffer_count(), 0);
}

#[test]
fn empty_dag_acquires_nothing() {
    let mut cache = DagBufferCache::default();
    let empty = DagGpuWithDigest {
        gpu: DagGpu { nodes: vec![], colors: vec![], root: None },
        digest: 0,
    };
    assert!(acquire(&mut cache, &empty, RaymarchShadingTier::Lambert, &mut 0).is_none());
    assert_eq!(cache.buffer_count(), 0);
}

#[test]
fn distinct_shapes_get_distinct_buffers() {
    let mut cache = DagBufferCache::default();
    let mut fresh = 0;
    acquire(&mut cache, &uniform_bundle(1), RaymarchShadingTier::Lambert, &mut fresh).unwrap();
    acquire(&mut cache, &sparse_bundle(), RaymarchShadingTier::Lambert, &mut fresh).unwrap();
    assert_eq!(cache.buffer_count(), 2);
    assert_eq!(cache.resident_bytes(), 8 + 20);
}

#[test]
fn releasing_what_is_not_held_changes_nothing() {
    let mut cache = DagBufferCache::default();
    let mut fresh = 0;
    acquire(&mut cache, &uniform_bundle(1), RaymarchShadingTier::Lambert, &mut fresh).unwrap();
    cache.release(5, RaymarchShadingTier::Lambert);
    cache.release(1001, RaymarchShadingTier::Pbr);
    assert_eq!(cache.buffer_count(), 1);
}

#[test]
fn a_release_says_what_it_drops() {
    let mut cache = DagBufferCache::default();
    let mut fresh = 0;
    let bundle = sparse_bundle();
    let lam = acquire(&mut cache, &bundle, RaymarchShadingTier::Lambert, &mut fresh).unwrap();
    acquire(&mut cache, &bundle, RaymarchShadingTier::Lambert, &mut fresh).unwrap();
    let pbr = acquire(&mut cache, &bundle, RaymarchShadingTier::Pbr, &mut fresh).unwrap();
    acquire(&mut cache, &uniform_bundle(1), RaymarchShadingTier::Pbr, &mut fresh).unwrap();
    assert_eq!((cache.buffer_count(), cache.resident_bytes()), (2, 20 + 8));
    let nothing = Dropped { material: None, buffers: None };
    assert_eq!(cache.release(77, RaymarchShadingTier::Lambert), nothing);
    assert_eq!(
        cache.release(77, RaymarchShadingTier::Lambert),
        Dropped { material: Some(lam.material), buffers: None }
    );
    assert_eq!(cache.release(77, RaymarchShadingTier::Lambert), nothing);
    assert_eq!((cache.buffer_count(), cache.resident_bytes()), (2, 28));
    assert_eq!(
        cache.release(77, RaymarchShadingTier::Pbr),
        Dropped { material: Some(pbr.material), buffers: Some((1, 2)) }
    );
    assert_eq!((cache.buffer_count(), cache.resident_bytes()), (1, 8));
    let again = acquire(&mut cache, &bundle, RaymarchShadingTier::Pbr, &mut fresh).unwrap();
    assert!(again.material_miss);
    assert_ne!(again.material, pbr.material);
    assert_eq!(dag_bytes(&bundle.gpu), 20);
}

fn rest_motion() -> CameraMotionState {
    CameraMotionState::default()
}

fn sustained_sprint_motion() -> CameraMotionState {
    let mut m = CameraMotionState::default();
    m.smoothed_velocity_m_s = r(12.0);
    m.sprint_held = true;
    m
}

fn same_ladder(a: &LodLadder, b: &LodLadder) -> bool {
    a.tiers == b.tiers && a.bricks_per_tick == b.bricks_per_tick
}

#[test]
fn motion_scaled_ladder_returns_default_progressive_at_rest() {
    let policy = LodLadderPolicy::MotionScaledLadder;
    let got = policy.ladder(&rest_motion()).expect("rest should yield Some");
    assert!(same_ladder(&got, &LodLadder::default_progressive()));
}

#[test]
fn motion_scaled_ladder_does_not_coarsen_under_sprint() {
    let policy = LodLadderPolicy::MotionScaledLadder;
    let rest = policy.ladder(&rest_motion()).expect("rest should yield Some");
    let sprint = policy.ladder(&sustained_sprint_motion()).expect("sprint should yield Some");
    assert!(same_ladder(&rest, &sprint), "sprinting must not coarsen the ladder");
}

#[test]
fn static_ladder_keeps_returning_none() {
    let policy = LodLadderPolicy::StaticLadder;
    assert!(policy.ladder(&rest_motion()).is_none());
    assert!(policy.ladder(&sustained_sprint_motion()).is_none());
}

#[test]
fn motion_scales_budget_cadence_and_thresholds() {
    let budget = SpawnBudgetStrategy::MotionScaledSpawnBudget(MotionScaledSpawnBudget::default());
    assert_eq!(budget.budget_this_frame(100), DEFAULT_SPAWN_BUDGET);
    assert_eq!(budget.budget_this_frame(2), 8);
    assert_eq!(budget.budget_this_frame(16), 16);
    let cadence = VisibilityCadenceStrategy::MotionScaledCadence;
    let walking = CameraMotionState { smoothed_velocity_m_s: r(4.0), ..rest_motion() };
    assert_eq!(cadence.stride(&rest_motion()), 1);
    assert_eq!(cadence.stride(&walking), 2);
    assert_eq!(cadence.stride(&sustained_sprint_motion()), 3);
    assert!(cadence.runs_in(&sustained_sprint_motion(), 9));
    assert!(!cadence.runs_in(&sustained_sprint_motion(), 10));
    assert_eq!(VisibilityCadenceStrategy::StaticVisibilityCadence.stride(&walking), 1);
    let thresholds = RebuildThresholdStrategy::MotionScaledRebuildThreshold;
    assert_eq!(thresholds.fixed_thresholds(&rest_motion()), Some((d(4.0), d(0.9659))));
    let covered = CameraMotionState { imposter_active: true, ..rest_motion() };
    assert_eq!(thresholds.fixed_thresholds(&covered), None);
}

#[test]
fn strategies_tell_what_they_do() {
    let palette = PaletteStrategy::HardcodedPalette.palette();
    assert_eq!(palette.len(), 11);
    assert!(palette.iter().enumerate().all(|(i, e)| e.id as usize == i));
    assert!(!AoStrategy::NoAo.enabled());
    assert!(AoStrategy::MinecraftCornerAo.enabled());
    assert!(!AoStrategy::MinecraftCornerAo.bakes_sky_light());
    assert!(AoStrategy::BrickEdgeAwareAo.bakes_sky_light());
    assert_eq!(ShadingStrategy::LegacyVertexColor.mode(), ShadingMode::SplitPerMaterial);
    assert_eq!(ShadingStrategy::PaletteVoxelMaterial.mode(), ShadingMode::PaletteVoxelMaterial);
    assert!(MeshStrategy::MarchingCubes { iso: r(0.5) }.has_iso());
    assert!(!MeshStrategy::MarchingCubes { iso: r(-0.0) }.has_iso());
    assert!(!MeshStrategy::GreedyFlat.has_iso());
    assert!(SkyStrategy::ProceduralDomeSky.dome_active());
    assert!(!SkyStrategy::SkyTinted.dome_active());
    assert!(!ShadowStrategy::NoShadows.enabled());
    assert!(TonemapStrategy::AcesTonemap.blooms());
    assert!(LodCoveragePolicy::MaskedShells.mask_finer_covered());
    assert_eq!(LodCoveragePolicy::NestedSummary.tier_lod_bias(2), 0);
    assert!(SunCurveStrategy::StaticSun.is_static());
    assert!(!HorizonImposterStrategy::NoHorizonImposter.enabled());
    assert!(HorizonImposterStrategy::PolarAnnulusShell(PolarAnnulusShell::default()).enabled());
    assert!(SliceRenderStrategy::FlatSlice.relief().is_none());
    let relief = SliceRenderStrategy::HillshadeSlice(HillshadeSlice::default()).relief().unwrap();
    assert_eq!(relief, HillshadeSlice::default());
}

#[test]
fn fog_density_follows_the_horizon() {
    let fog = FogStrategy::ExpSquaredSkyTintedFog(ExpSquaredSkyTintedFog::default());
    let own = ExpSquaredSkyTintedFog::default().density;
    assert_eq!(fog.density(None), FogDensity::Fixed(own));
    assert_eq!(fog.density(Some(r(1000.0))), FogDensity::Horizon(r(1000.0)));
    assert_eq!(fog.density(Some(r(0.0))), FogDensity::Fixed(own));
    assert_eq!(FogStrategy::NoFog.density(Some(r(1000.0))), FogDensity::Clear);
    let biome = BiomeBlendedFog::default();
    assert_eq!(f(biome.biome_tint.g), 0.5);
    assert_eq!(f(biome.mix), 0.3);
    assert_eq!(FogStrategy::BiomeBlendedFog(biome).density(None), FogDensity::Fixed(biome.density));
}

#[test]
fn the_hour_lies_between_two_keyframes() {
    let keys = vec![r(0.0), r(6.0), r(12.0), r(18.0)];
    assert_eq!(keyframe_segment(r(3.0), &keys), Some((0, 1)));
    assert_eq!(keyframe_segment(r(6.0), &keys), Some((1, 2)));
    assert_eq!(keyframe_segment(r(20.0), &keys), Some((3, 0)));
    assert_eq!(keyframe_segment(r(3.0), &vec![r(5.0), r(9.0)]), Some((1, 0)));
    assert_eq!(keyframe_segment(r(3.0), &vec![]), None);
}

#[test]
fn presets_change_only_their_own_slots() {
    let mut cfg = RenderConfig::default();
    cfg.apply_perf_preset(PerfPreset::Balanced);
    assert_eq!(cfg.spawn_budget, RenderConfig::default().spawn_budget);
    cfg.apply_perf_preset(PerfPreset::Quality);
    assert_eq!(cfg.lod_ladder, LodLadderPolicy::StaticLadder);
    assert_eq!(cfg.mesher, MeshStrategy::GreedyFlat);
    assert_eq!(cfg.sky, SkyStrategy::ProceduralDomeSky);
    let quality = RenderConfig::for_run(cli::PerfPreset::Quality, cli::ShadingArg::Default);
    assert_eq!(quality.lod_ladder, LodLadderPolicy::StaticLadder);
    cfg.apply_preset(RenderPreset::Legacy);
    assert_eq!(cfg.lod_ladder, LodLadderPolicy::StaticLadder);
    assert_eq!(cfg.tonemap, TonemapStrategy::DefaultTonemap);
    assert_eq!(RenderPreset::from_str("legacy"), Some(RenderPreset::Legacy));
    assert_eq!(RenderPreset::from_str("noir"), None);
    assert!(!advance_world_time(&cfg));
}

#[test]
fn strategies_are_chosen_by_name() {
    let mut cfg = RenderConfig { mesher: MeshStrategy::DualContouring, ..RenderConfig::default() };
    assert!(!apply_strategy_by_name(&mut cfg, "mesher", "NaiveMesh"));
    assert!(!apply_strategy_by_name(&mut cfg, "camera", "GreedyFlat"));
    assert_eq!(cfg.mesher.name(), "DualContouring");
    assert!(apply_strategy_by_name(&mut cfg, "mesher", "GreedyFlat"));
    assert_eq!(cfg.mesher, MeshStrategy::GreedyFlat);
    assert!(apply_strategy_by_name(&mut cfg, "coverage", "MaskedShells"));
    assert_eq!(cfg.coverage.name(), "MaskedShells");
    assert_eq!(cfg.fog.name(), "ExpSquaredSkyTintedFog");
}

#[test]
fn empty_brick_yields_no_material() {
    let gpu = DagGpu { nodes: vec![], colors: vec![], root: None };
    let m = build_raymarch_material(gpu, RaymarchShadingTier::Lambert);
    assert!(m.is_none(), "empty brick should not produce a raymarch material");
}

#[test]
fn a_material_carries_the_tree_and_its_tier() {
    let gpu = DagGpu { nodes: vec![9, 8], colors: vec![3, 65535], root: Some(1) };
    let m = build_raymarch_material(gpu, RaymarchShadingTier::Pbr).unwrap();
    assert_eq!(m.nodes, vec![9, 8]);
    assert_eq!(m.colors, vec![3, 65535]);
    assert_eq!((m.meta.root, m.meta.brick_edge, m.meta.shading_tier, m.meta.flags), (1, 16, 2, 0));
    assert_eq!(RaymarchShadingTier::from_str("unlit"), Some(RaymarchShadingTier::Unlit));
    assert_eq!(RaymarchShadingTier::from_str("wire"), None);
    assert_eq!(RaymarchShadingTier::default().to_u32(), 1);
}

#[test]
fn the_proxy_box_is_a_closed_cube() {
    let b = brick_proxy_box();
    assert_eq!(b.positions.len(), 8);
    assert_eq!(b.indices.len(), 36);
    assert!(b.positions.contains(&[0, 0, 0]));
    assert!(b.positions.contains(&[16, 16, 16]));
    for t in 0..12 {
        let tri: Vec<[u32; 3]> = (0..3).map(|k| b.positions[b.indices[3 * t + k] as usize]).collect();
        assert!((0..3).any(|a| tri[0][a] == tri[1][a] && tri[1][a] == tri[2][a]));
    }
}

fn blended(b: Brightness, t: f32) -> f32 {
    match b {
        Brightness::Fixed(v) => f(v),
        Brightness::Blend { from, to } => f(from) + (f(to) - f(from)) * t,
    }
}

#[test]
fn skybox_brightness_lerps_monotonically_during_crossfade() {
    let mut rt = SkyboxRuntime::new(0);
    rt.last_brightness = r(100.0);
    rt.next_brightness = r(1000.0);
    rt.next_handle = Some(1);
    let mut last = blended(rt.current_brightness(), 0.0);
    for step in 1..=4 {
        let b = blended(rt.current_brightness(), step as f32 * 0.2);
        assert!(b >= last - 1e-3, "brightness must not fall: prev={last}, now={b}");
        last = b;
    }
    let end = blended(rt.current_brightness(), 1.0);
    assert!((end - f(rt.next_brightness)).abs() < 1e-3);
}

#[test]
fn budget_allows_first_bake_immediately() {
    let mut rt = SkyboxRuntime::new(0);
    assert!(rt.budget_allows(0));
    assert!(rt.budget_allows(1));
    rt.last_refresh_frame = 10;
    rt.min_frames_between_bakes = 30;
    assert!(!rt.budget_allows(15));
    assert!(!rt.budget_allows(39));
    assert!(rt.budget_allows(40));
}

#[test]
fn cubemap_image_has_six_layers_and_cube_view() {
    let res = 4usize;
    let faces: Vec<Vec<u8>> = (0..CUBE_FACE_COUNT).map(|i| vec![i as u8; res * res * 4]).collect();
    let img = cubemap_image(&faces);
    assert_eq!(img.len(), 6 * res * res * 4);
    for face in 0..6 {
        assert_eq!(img[face * res * res * 4], face as u8);
    }
    assert_eq!(SKYBOX_FACE_RESOLUTION, 256);
}

#[test]
fn placeholder_image_is_1x1x6_black() {
    let img = placeholder_cubemap_image();
    assert_eq!(img.len(), 24);
    assert!(img.iter().all(|b| *b == 0));
}

#[test]
fn a_second_sky_fades_in_and_takes_over() {
    let mut rt = SkyboxRuntime::new(7);
    let frame = |n: u64| SkyFrame { ready: true, frame: n, should_refresh: true };
    assert!(rt.should_bake(&frame(1)));
    assert_eq!(rt.sync_skybox(&SkyFrame { ready: false, ..frame(1) }, None, false), None);
    let shown = rt.sync_skybox(&frame(1), Some((8, r(50.0), true)), false);
    assert_eq!(shown, Some((8, Brightness::Fixed(r(50.0)))));
    assert!(!rt.should_bake(&frame(20)));
    assert!(rt.should_bake(&frame(31)));
    let shown = rt.sync_skybox(&frame(31), Some((9, r(80.0), false)), true);
    assert_eq!(shown, Some((8, Brightness::Blend { from: r(50.0), to: r(80.0) })));
    let shown = rt.sync_skybox(&frame(40), None, false);
    assert_eq!(shown, Some((9, Brightness::Fixed(r(80.0)))));
    assert_eq!(rt.frame_observed, 40);
}

#[test]
fn the_far_ring_is_the_outermost_tier() {
    let mut loaded = LoadedChunks::default();
    for (x, depth) in [(0, 3), (1, 3), (2, 1)] {
        let coord = IVec3::new(x, 0, 0);
        loaded.insert(
            (coord, depth),
            LoadedChunk {
                coord,
                lod: Lod::new(depth),
                entity: None,
                last_seen_frame: 0,
                is_fading_out: false,
                dag_digest: None,
                dag_tier: None,
                brick: None,
            },
        );
    }
    assert_eq!(far_ring(&loaded, 3), vec![(IVec3::new(0, 0, 0), 3), (IVec3::new(1, 0, 0), 3)]);
    assert!(far_ring(&loaded, 2).is_empty());
}

#[test]
fn mesh_nodes_go_by_material_and_skip_the_empty() {
    let nodes = brick_to_mesh_nodes(&vec![(5, 12), (2, 0), (1, 4)]);
    let got: Vec<(u64, u16)> = nodes.iter().map(|n| (n.id, n.material)).collect();
    assert_eq!(got, vec![(0, 1), (2, 5)]);
}

#[test]
fn the_shell_is_rebuilt_after_drifting() {
    let origin = DVec3 { x: d(0.0), y: d(0.0), z: d(0.0) };
    let mut shell = HorizonShellRuntime::default();
    assert!(!shell.ensure_horizon_shell(false));
    assert!(shell.ensure_horizon_shell(true));
    shell.spawned(1, 2);
    assert!(!shell.ensure_horizon_shell(true));
    assert!(!shell.claim_rebuild(origin, d(0.0), d(50.0), true, d(1024.0), d(1024.0)).is_some());
    assert!(!shell.claim_rebuild(origin, d(0.0), d(50.0), false, d(1024.0), d(4096.0)).is_some());
    let first = shell.claim_rebuild(origin, d(0.0), d(50.0), true, d(1024.0), d(4096.0)).unwrap();
    assert!(!shell.claim_rebuild(origin, d(90.0), d(50.0), true, d(1024.0), d(4096.0)).is_some());
    let frame = shell.sync_horizon_shell(true, ShellNews::Pending);
    assert!(!frame.visible && !frame.install && frame.follow);
    let frame = shell.sync_horizon_shell(true, ShellNews::Finished { ticket: first, digest: 42 });
    assert!(frame.install);
    assert_eq!(shell.built_for, Some(ShellPose { observer: origin, source_digest: 42 }));
    assert!(!shell.claim_rebuild(origin, d(10.0), d(50.0), true, d(1024.0), d(4096.0)).is_some());
    let second = shell.claim_rebuild(origin, d(60.0), d(50.0), true, d(1024.0), d(4096.0)).unwrap();
    let frame = shell.sync_horizon_shell(false, ShellNews::Pending);
    assert!(!frame.visible && !frame.follow);
    assert_eq!(shell.rebuild, None);
    let third = shell.claim_rebuild(origin, d(60.0), d(50.0), true, d(1024.0), d(4096.0)).unwrap();
    let frame = shell.sync_horizon_shell(true, ShellNews::Finished { ticket: second, digest: 43 });
    assert!(frame.visible && !frame.install, "a mesh that was given up stays out");
    assert_eq!(shell.built_for, Some(ShellPose { observer: origin, source_digest: 42 }));
    shell.sync_horizon_shell(true, ShellNews::Lost { ticket: second });
    assert_eq!(shell.rebuild, Some(origin));
    shell.sync_horizon_shell(true, ShellNews::Lost { ticket: third });
    assert_eq!(shell.rebuild, None);
    assert_eq!(shell.current_mesh, Some(1));
    shell.replaced_mesh(7);
    assert_eq!((shell.current_mesh, shell.current_entity), (Some(7), Some(2)));
}

#[test]
fn world_state_is_made_once_per_world() {
    let mut p = MacroStateProvider::default();
    let earth = WorldShape::Sphere { radius_m: d(6.371e6) };
    assert!(p.get(1, earth));
    assert!(!p.get(1, earth));
    assert!(p.get(2, earth));
    assert!(p.get(2, WorldShape::Cube { edge_m: d(1.0e7) }));
    assert!(p.get(2, WorldShape::Sphere { radius_m: d(1.0e7) }));
    assert!(p.get(2, WorldShape::Sphere { radius_m: d(0.0) }));
    assert!(!p.get(2, WorldShape::Sphere { radius_m: d(-0.0) }));
    assert!(p.get(2, WorldShape::Sphere { radius_m: d(f64::NAN) }));
    assert!(p.get(2, WorldShape::Sphere { radius_m: d(f64::NAN) }));
}

#[test]
fn the_shading_option_chooses_the_path() {
    let shading = |s: cli::ShadingArg| RenderConfig::for_run(cli::PerfPreset::Balanced, s).shading;
    let usual = RenderConfig::default().shading;
    assert_eq!(shading(cli::ShadingArg::Default), usual);
    assert_eq!(shading(cli::ShadingArg::Raymarch), usual);
    assert_eq!(shading(cli::ShadingArg::Mesh).mode(), ShadingMode::SplitPerMaterial);
    assert_eq!(shading(cli::ShadingArg::Palette).mode(), ShadingMode::PaletteVoxelMaterial);
    let (march, pbr) = (cli::ShadingArg::Raymarch, cli::RaymarchTier::Pbr);
    assert_eq!(raymarch_tier(march, pbr), Some(RaymarchShadingTier::Pbr));
    assert_eq!(raymarch_tier(march, cli::RaymarchTier::Unlit), Some(RaymarchShadingTier::Unlit));
    assert_eq!(raymarch_tier(march, cli::RaymarchTier::Lambert), Some(RaymarchShadingTier::Lambert));
    assert_eq!(raymarch_tier(cli::ShadingArg::Mesh, pbr), None);
}

#[test]
fn shadows_are_shifted_by_two_biases() {
    let (depth, normal) = ShadowStrategy::NoShadows.biases();
    assert_eq!((f(depth), f(normal)), (0.02, 0.6));
}

#[test]
fn a_neutral_biome_leaves_the_fog_alone() {
    let plain = BiomeBlendedFog::default();
    assert!(plain.tint().is_none());
    assert!(FogStrategy::NoFog.tint().is_none());
    let mut forest = plain;
    forest.biome_tint.g = r(0.6);
    forest.mix = r(0.8);
    assert_eq!(FogStrategy::BiomeBlendedFog(forest).tint(), Some((forest.biome_tint, r(0.8))));
}

#[test]
fn the_shell_keeps_to_its_cap() {
    let shell = |n_rings: u32, n_sectors: u32, max_verts: usize| PolarAnnulusShell { n_rings, n_sectors, max_verts };
    assert_eq!(PolarAnnulusShell::default().capped(), (32, 128));
    assert_eq!(shell(32, 128, 4096).capped(), (32, 128));
    assert_eq!(shell(32, 128, 4095).capped(), (31, 128));
    assert_eq!(shell(u32::MAX, u32::MAX, 100).capped(), (1, 100));
    assert_eq!(shell(5, 0, 0).capped(), (5, 0));
    assert_eq!(shell(5, 7, 0).capped(), (1, 0));
}

#[test]
fn brick_counters_add_up() {
    let mut stats = BrickGpuStats::default();
    stats.count_raymarched(true, 30);
    stats.count_raymarched(false, 12);
    stats.count_meshed(24, 36);
    assert_eq!((stats.raymarch_spawns, stats.cache_hits, stats.cache_misses), (2, 1, 1));
    assert_eq!(stats.acquire_ns_total, 42);
    assert_eq!((stats.mesh_spawns, stats.mesh_vertices, stats.mesh_indices), (1, 24, 36));
}

#[test]
fn a_steep_sun_turns_about_another_axis() {
    assert_eq!(sun_up(r(0.5)), UpAxis::Y);
    assert_eq!(sun_up(r(-0.99)), UpAxis::Z);
    assert_eq!(sun_up(r(0.99)), UpAxis::Z);
    assert_eq!(sun_up(r(f32::NAN)), UpAxis::Y);
}

#[test]
fn rows_are_padded_to_the_copy_alignment() {
    assert_eq!(padded_bytes_per_row(64), 256);
    assert_eq!(padded_bytes_per_row(65), 512);
    assert_eq!(padded_bytes_per_row(1280), 5120);
    assert_eq!(copy_buffer_size(1280, 720), 5120 * 720);
    assert_eq!(copy_buffer_size(65, 3), 512 * 3);
}

#[test]
fn a_copied_frame_becomes_a_picture() {
    let mut data = vec![0u8; 512];
    data[0..8].copy_from_slice(&[1, 2, 3, 4, 5, 6, 7, 8]);
    data[256..264].copy_from_slice(&[9, 10, 11, 12, 13, 14, 15, 16]);
    let bytes = unpad_rgba(&data, 2, 2);
    assert_eq!(bytes, vec![3, 2, 1, 4, 7, 6, 5, 8, 11, 10, 9, 12, 15, 14, 13, 16]);
    let picture = copied_picture(&data, 2, 2).expect("the sizes agree");
    assert_eq!(picture.into_parts(), (2, 2, bytes));
}

#[test]
fn captures_leave_in_order_once_there_is_a_target() {
    let mut q = CaptureQueue::default();
    q.pending.push_back(CaptureRequest { id: 4, path: String::from("a.png") });
    q.pending.push_back(CaptureRequest { id: 5, path: String::from("b.png") });
    assert!(q.next_request(false).is_none());
    let first = q.next_request(true).unwrap();
    assert_eq!((first.id, first.path.as_str()), (4, "a.png"));
    assert_eq!(q.next_request(true).unwrap().id, 5);
    assert!(q.next_request(true).is_none());
    let saved = outcome_of(first, CopyResult::Saved);
    assert!(saved.ok && saved.message.is_none() && saved.id == 4 && saved.path == "a.png");
    let text = |result: CopyResult| {
        let out = outcome_of(CaptureRequest { id: 1, path: String::new() }, result);
        assert!(!out.ok);
        out.message.unwrap()
    };
    assert_eq!(text(CopyResult::NotPrepared), "GPU image not yet prepared");
    assert_eq!(text(CopyResult::ChannelClosed(String::from("x"))), "map channel closed: x");
    assert_eq!(text(CopyResult::MapFailed(String::from("y"))), "map_async failed: y");
    assert_eq!(text(CopyResult::SizeMismatch), "RgbaImage::from_raw size mismatch");
    assert_eq!(text(CopyResult::SaveFailed(String::from("z"))), "z");
}
