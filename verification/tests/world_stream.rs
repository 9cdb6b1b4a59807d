use atomr_worlds_client::coord::{IVec3, Lod, BRICK_EDGE};
use atomr_worlds_client::measure::Real64;
use atomr_worlds_client::render::strategy::LodCoveragePolicy;
use atomr_worlds_client::world_stream::{
    desired_chunks, plan_view, prioritize_view, sweep_cells, CellMeasure, ChunkStreamer, DVec3, DesiredChunksCache,
    LoadedChunk, LoadedChunks, LodLadder, LodTier, Pose, RebuildNews, TierSweep, DEFAULT_BRICKS_PER_TICK,
    HYSTERESIS_TICKS, PLAN_REBUILD_DRIFT_M, PLAN_REBUILD_FWD_COS,
};
use std::collections::{HashMap, HashSet};

fn r(v: f64) -> Real64 {
    Real64::from_bits(v.to_bits())
}

fn vec3(v: [f64; 3]) -> DVec3 {
    DVec3 { x: r(v[0]), y: r(v[1]), z: r(v[2]) }
}

fn pose(observer: [f64; 3], forward: [f64; 3]) -> Pose {
    Pose { observer: vec3(observer), forward: vec3(forward) }
}

fn edge_of(lod: Lod) -> f64 {
    BRICK_EDGE as f64 * (1u64 << lod.depth as u32) as f64
}

fn centre(coord: IVec3, edge: f64, observer: [f64; 3]) -> [f64; 3] {
    [
        (coord.x as f64 + 0.5) * edge - observer[0],
        (coord.y as f64 + 0.5) * edge - observer[1],
        (coord.z as f64 + 0.5) * edge - observer[2],
    ]
}

fn squared(v: [f64; 3]) -> f64 {
    v[0] * v[0] + v[1] * v[1] + v[2] * v[2]
}

fn measured(coord: IVec3, edge: f64, observer: [f64; 3]) -> CellMeasure {
    let c = centre(coord, edge, observer);
    let half = edge * 0.5;
    let far = [c[0].abs() + half, c[1].abs() + half, c[2].abs() + half];
    let near = [(c[0].abs() - half).max(0.0), (c[1].abs() - half).max(0.0), (c[2].abs() - half).max(0.0)];
    CellMeasure {
        coord,
        near_sq: r(squared(near)),
        far_sq: r(squared(far)),
        centre_sq: r(squared(c)),
    }
}

fn sweeps_around(
    streamer: &ChunkStreamer,
    observer: [f64; 3],
    horizon: f64,
    coverage: LodCoveragePolicy,
) -> Vec<TierSweep> {
    let mut sweeps = Vec::new();
    for i in 0..streamer.ladder.tiers.len() {
        let lod = streamer.ladder.tiers[i].lod;
        let limits = streamer.ladder.tier_limits(i, r(horizon), coverage.mask_finer_covered());
        let Some((inner, outer)) = limits else { continue };
        let inner = f64::from_bits(inner.bits);
        let outer = f64::from_bits(outer.bits);
        let edge = edge_of(lod);
        let reach = ((outer + edge * 0.5) / edge).ceil() as i64;
        let origin = IVec3::new(
            (observer[0] / edge).floor() as i64,
            (observer[1] / edge).floor() as i64,
            (observer[2] / edge).floor() as i64,
        );
        let cells = sweep_cells(origin, reach)
            .into_iter()
            .map(|c| measured(c, edge, observer))
            .collect();
        sweeps.push(TierSweep {
            lod,
            inner_sq: r(inner * inner),
            outer_sq: r(outer * outer),
            cells,
        });
    }
    sweeps
}

fn plan_around(
    streamer: &ChunkStreamer,
    observer: [f64; 3],
    horizon: f64,
    coverage: LodCoveragePolicy,
) -> Vec<(IVec3, Lod)> {
    desired_chunks(&sweeps_around(streamer, observer, horizon, coverage))
}

fn score(entry: &(IVec3, Lod), observer: [f64; 3], forward: [f64; 3]) -> f64 {
    let c = centre(entry.0, edge_of(entry.1), observer);
    let d = squared(c).sqrt();
    if d <= f64::EPSILON {
        return 0.0;
    }
    let cos = (c[0] * forward[0] + c[1] * forward[1] + c[2] * forward[2]) / d;
    d * (1.0 - 0.4 * cos.max(0.0))
}

fn prioritized(plan: &Vec<(IVec3, Lod)>, observer: [f64; 3], forward: [f64; 3]) -> Vec<(IVec3, Lod)> {
    let scores: Vec<Real64> = plan.iter().map(|e| r(score(e, observer, forward))).collect();
    prioritize_view(plan, &scores)
}

fn should_rebuild(cache: &DesiredChunksCache, observer: [f64; 3], forward: [f64; 3]) -> bool {
    let (drift, dot) = match cache.reference() {
        None => (0.0, 1.0),
        Some(p) => {
            let o = [
                f64::from_bits(p.observer.x.bits),
                f64::from_bits(p.observer.y.bits),
                f64::from_bits(p.observer.z.bits),
            ];
            let f = [
                f64::from_bits(p.forward.x.bits),
                f64::from_bits(p.forward.y.bits),
                f64::from_bits(p.forward.z.bits),
            ];
            let d = [observer[0] - o[0], observer[1] - o[1], observer[2] - o[2]];
            (squared(d).sqrt(), forward[0] * f[0] + forward[1] * f[1] + forward[2] * f[2])
        }
    };
    cache.should_rebuild(r(drift), r(dot))
}

fn streamer() -> ChunkStreamer {
    ChunkStreamer::default()
}

fn masked() -> LodCoveragePolicy {
    LodCoveragePolicy::MaskedShells
}

fn nested() -> LodCoveragePolicy {
    LodCoveragePolicy::NestedSummary
}

fn xz_set_at_lod(plan: &[(IVec3, Lod)], depth: u8) -> HashSet<(i64, i64)> {
    plan.iter().filter(|(_, l)| l.depth == depth).map(|(c, _)| (c.x, c.z)).collect()
}

fn chunk(coord: IVec3, depth: u8) -> LoadedChunk {
    LoadedChunk {
        coord,
        lod: Lod::new(depth),
        entity: None,
        last_seen_frame: 0,
        is_fading_out: false,
        dag_digest: None,
        dag_tier: None,
        brick: None,
    }
}

#[test]
fn lod_for_distance_walks_the_ladder() {
    let ladder = LodLadder::default_progressive();
    assert_eq!(ladder.lod_for_distance(r(0.0)).depth, 0);
    assert_eq!(ladder.lod_for_distance(r(127.9)).depth, 0);
    assert_eq!(ladder.lod_for_distance(r(128.0)).depth, 1);
    assert_eq!(ladder.lod_for_distance(r(255.9)).depth, 1);
    assert_eq!(ladder.lod_for_distance(r(256.0)).depth, 2);
    assert_eq!(ladder.lod_for_distance(r(511.9)).depth, 2);
    assert_eq!(ladder.lod_for_distance(r(512.0)).depth, 3);
    assert_eq!(ladder.lod_for_distance(r(1023.9)).depth, 3);
    assert_eq!(ladder.lod_for_distance(r(10_000.0)).depth, 3);
}

#[test]
fn lod_for_meters_uses_3d_distance() {
    let s = streamer();
    let d = |p: [f64; 3]| r(squared(p).sqrt());
    assert_eq!(s.lod_for_meters(d([0.0, 100.0, 0.0])).depth, 0);
    assert_eq!(s.lod_for_meters(d([80.0, 80.0, 80.0])).depth, 1);
}

#[test]
fn desired_chunks_load_symmetrically_in_all_four_cardinal_directions() {
    let s = streamer();
    let plan = plan_around(&s, [0.0, 0.0, 0.0], f64::INFINITY, masked());
    for depth in 0u8..=3 {
        let set = xz_set_at_lod(&plan, depth);
        assert!(!set.is_empty(), "depth={depth} produced no bricks");
        for &(x, z) in &set {
            assert!(set.contains(&(-x - 1, z)), "depth={depth}: X-asymmetry at ({x},{z})");
            assert!(set.contains(&(x, -z - 1)), "depth={depth}: Z-asymmetry at ({x},{z})");
            assert!(set.contains(&(z, x)), "depth={depth}: XZ-swap asymmetry at ({x},{z})");
        }
    }
}

#[test]
fn walk_in_each_cardinal_direction_produces_matching_brick_counts() {
    let s = streamer();
    let step = 32.0;
    let positions =
        [[step, 0.0, 0.0], [-step, 0.0, 0.0], [0.0, 0.0, step], [0.0, 0.0, -step]];
    let counts: Vec<usize> =
        positions.iter().map(|p| plan_around(&s, *p, f64::INFINITY, masked()).len()).collect();
    let first = counts[0];
    for (i, n) in counts.iter().enumerate() {
        assert_eq!(*n, first, "direction {i} loaded a different number of bricks: {counts:?}");
    }
}

#[test]
fn centroid_of_desired_set_stays_near_observer_even_off_grid() {
    let s = streamer();
    let outer = f64::from_bits(s.outer_radius_m().bits);
    let cases = [
        [8.0, 28.0, 8.0],
        [17.3, -12.7, 41.9],
        [-95.1, 64.0, 130.2],
        [0.5, 0.5, 0.5],
    ];
    for obs in cases {
        let plan = plan_around(&s, obs, f64::INFINITY, masked());
        assert!(!plan.is_empty(), "plan must not be empty at {obs:?}");
        let mut sum = [0.0f64; 3];
        for (c, lod) in &plan {
            let d = centre(*c, edge_of(*lod), obs);
            for a in 0..3 {
                sum[a] += d[a];
            }
        }
        let n = plan.len() as f64;
        let tol = outer * 0.01;
        for a in 0..3 {
            assert!((sum[a] / n).abs() < tol, "centroid drift at {obs:?} exceeds {tol}");
        }
    }
}

#[test]
fn outer_tier_emits_no_brick_past_horizon_radius() {
    let s = streamer();
    let plan = plan_around(&s, [0.0, 0.0, 0.0], f64::INFINITY, masked());
    let outer = f64::from_bits(s.outer_radius_m().bits);
    for (c, lod) in &plan {
        let near = f64::from_bits(measured(*c, edge_of(*lod), [0.0; 3]).near_sq.bits);
        assert!(near < outer * outer, "brick {c:?} lod={} lies past the horizon", lod.depth);
    }
}

#[test]
fn no_gaps_at_tier_boundaries() {
    let s = streamer();
    let plan = plan_around(&s, [0.0, 0.0, 0.0], f64::INFINITY, masked());
    let mut by_lod: HashMap<u8, HashSet<(i64, i64, i64)>> = HashMap::new();
    for (c, l) in &plan {
        by_lod.entry(l.depth).or_default().insert((c.x, c.y, c.z));
    }
    let outer = f64::from_bits(s.outer_radius_m().bits);
    let step: f64 = 4.0;
    let max_steps = (outer * 0.95 / step) as i64;
    let mut last: (u8, i64, i64, i64) = (255, 0, 0, 0);
    for iz in -max_steps..=max_steps {
        for iy in -max_steps..=max_steps {
            for ix in -max_steps..=max_steps {
                let x = ix as f64 * step;
                let y = iy as f64 * step;
                let z = iz as f64 * step;
                let d = (x * x + y * y + z * z).sqrt();
                if d > outer * 0.95 {
                    continue;
                }
                let tier = s.ladder.lod_for_distance(r(d));
                let edge = edge_of(tier);
                let b = (
                    tier.depth,
                    (x / edge).floor() as i64,
                    (y / edge).floor() as i64,
                    (z / edge).floor() as i64,
                );
                if b == last {
                    continue;
                }
                last = b;
                let covered = by_lod.get(&b.0).map(|s| s.contains(&(b.1, b.2, b.3))).unwrap_or(false);
                assert!(covered, "voxel ({x},{y},{z}) at d={d} lies in no loaded brick");
            }
        }
    }
}

#[test]
fn desired_chunks_emits_distinct_keys() {
    let s = streamer();
    let chunks = plan_around(&s, [0.0, 0.0, 0.0], f64::INFINITY, masked());
    let mut seen: HashSet<(IVec3, u8)> = HashSet::new();
    for (c, l) in &chunks {
        assert!(seen.insert((*c, l.depth)), "duplicate brick key {c:?}, lod={}", l.depth);
    }
}

#[test]
fn closest_first_sort_orders_by_meters_across_tiers() {
    let s = streamer();
    let chunks = plan_around(&s, [0.0, 0.0, 0.0], f64::INFINITY, masked());
    let first = chunks.first().expect("at least one chunk");
    assert_eq!(first.1.depth, 0);
    for tier in &s.ladder.tiers {
        assert!(chunks.iter().any(|(_, l)| l.depth == tier.lod.depth));
    }
    let mut max_depth_seen = 0u8;
    let mut previous = 0.0;
    for (c, lod) in &chunks {
        max_depth_seen = max_depth_seen.max(lod.depth);
        let d = squared(centre(*c, edge_of(*lod), [0.0; 3]));
        assert!(d >= previous);
        previous = d;
    }
    assert_eq!(max_depth_seen, 3, "the outermost tier must contribute");
}

#[test]
fn near_tier_bricks_dont_overlap_far_tier_at_same_position() {
    let s = streamer();
    let plan = plan_around(&s, [0.0, 0.0, 0.0], f64::INFINITY, masked());
    assert!(plan.contains(&(IVec3::new(0, 0, 0), Lod::new(0))));
    assert!(!plan.contains(&(IVec3::new(0, 0, 0), Lod::new(1))));
}

#[test]
fn hysteresis_lets_chunks_linger() {
    let mut loaded = LoadedChunks::default();
    let key = LoadedChunk::key(IVec3::new(0, 0, 0), Lod::new(0));
    loaded.insert(key, LoadedChunk { last_seen_frame: 5, ..chunk(IVec3::new(0, 0, 0), 0) });
    assert!(!loaded.is_stale(&key, 6, HYSTERESIS_TICKS));
    assert!(loaded.is_stale(&key, 7, HYSTERESIS_TICKS));
}

#[test]
fn insert_increments_parent_child_count() {
    let mut loaded = LoadedChunks::default();
    let key = LoadedChunk::key(IVec3::new(2, 4, 6), Lod::new(0));
    loaded.insert(key, chunk(IVec3::new(2, 4, 6), 0));
    assert_eq!(loaded.child_count(&(IVec3::new(1, 2, 3), 1)), 1);
}

#[test]
fn insert_uses_div_euclid_for_negative_coords() {
    let mut loaded = LoadedChunks::default();
    let key = LoadedChunk::key(IVec3::new(-1, 0, 0), Lod::new(0));
    loaded.insert(key, chunk(IVec3::new(-1, 0, 0), 0));
    assert_eq!(loaded.child_count(&(IVec3::new(-1, 0, 0), 1)), 1);
    assert_eq!(loaded.child_count(&(IVec3::new(0, 0, 0), 1)), 0);
}

#[test]
fn mark_fading_out_decrements_count_and_is_idempotent() {
    let mut loaded = LoadedChunks::default();
    let parent = (IVec3::new(0, 0, 0), 1u8);
    for i in 0..3 {
        let key = LoadedChunk::key(IVec3::new(i, 0, 0), Lod::new(0));
        loaded.insert(key, chunk(IVec3::new(i, 0, 0), 0));
    }
    assert_eq!(loaded.child_count(&parent), 2);
    let k0 = (IVec3::new(0, 0, 0), 0u8);
    loaded.mark_fading_out(&k0);
    assert_eq!(loaded.child_count(&parent), 1);
    loaded.mark_fading_out(&k0);
    assert_eq!(loaded.child_count(&parent), 1);
}

#[test]
fn remove_skips_decrement_for_already_fading_entry() {
    let mut loaded = LoadedChunks::default();
    let key = LoadedChunk::key(IVec3::new(0, 0, 0), Lod::new(0));
    let parent = (IVec3::new(0, 0, 0), 1u8);
    loaded.insert(key, chunk(IVec3::new(0, 0, 0), 0));
    assert_eq!(loaded.child_count(&parent), 1);
    loaded.mark_fading_out(&key);
    assert_eq!(loaded.child_count(&parent), 0);
    loaded.remove(&key);
    assert_eq!(loaded.child_count(&parent), 0);
}

#[test]
fn remove_decrements_count_when_entry_was_not_fading() {
    let mut loaded = LoadedChunks::default();
    let key = LoadedChunk::key(IVec3::new(0, 0, 0), Lod::new(0));
    let parent = (IVec3::new(0, 0, 0), 1u8);
    loaded.insert(key, chunk(IVec3::new(0, 0, 0), 0));
    assert_eq!(loaded.child_count(&parent), 1);
    loaded.remove(&key);
    assert_eq!(loaded.child_count(&parent), 0);
}

#[test]
fn reinsert_after_fade_out_brings_back_into_count() {
    let mut loaded = LoadedChunks::default();
    let key = LoadedChunk::key(IVec3::new(0, 0, 0), Lod::new(0));
    let parent = (IVec3::new(0, 0, 0), 1u8);
    loaded.insert(key, chunk(IVec3::new(0, 0, 0), 0));
    loaded.mark_fading_out(&key);
    assert_eq!(loaded.child_count(&parent), 0);
    loaded.insert(key, chunk(IVec3::new(0, 0, 0), 0));
    assert_eq!(loaded.child_count(&parent), 1);
}

#[test]
fn eight_children_are_the_most() {
    let mut loaded = LoadedChunks::default();
    let parent = (IVec3::new(-1, 0, 2), 1u8);
    for x in -2..0 {
        for y in 0..2 {
            for z in 4..6 {
                loaded.insert((IVec3::new(x, y, z), 0), chunk(IVec3::new(x, y, z), 0));
            }
        }
    }
    assert_eq!(loaded.child_count(&parent), 8);
    assert_eq!(loaded.len(), 8);
    assert!(!loaded.is_empty());
    loaded.insert((IVec3::new(-1, 0, 4), 0), chunk(IVec3::new(-1, 0, 4), 0));
    assert_eq!(loaded.child_count(&parent), 8);
    loaded.touch_last_seen(&(IVec3::new(-1, 0, 4), 0), 9);
    assert_eq!(loaded.get(&(IVec3::new(-1, 0, 4), 0)).unwrap().last_seen_frame, 9);
    assert_eq!(loaded.child_count(&parent), 8);
}

#[test]
fn as_policy_projects_ladder_to_two_tier() {
    let ladder = LodLadder::default_progressive();
    let policy = ladder.as_policy();
    assert_eq!(policy.near_lod.depth, 0);
    assert_eq!(policy.far_lod.depth, 3);
    assert_eq!(policy.transition_radius_m, r(128.0));
    assert_eq!(policy.max_radius_m, r(1024.0));
    assert_eq!(policy.bricks_per_tick, DEFAULT_BRICKS_PER_TICK);
}

#[test]
fn set_ladder_refreshes_policy_view() {
    let mut s = ChunkStreamer::default();
    s.set_ladder(LodLadder {
        tiers: vec![
            LodTier { lod: Lod::new(0), outer_radius_m: r(32.0) },
            LodTier { lod: Lod::new(2), outer_radius_m: r(256.0) },
        ],
        bricks_per_tick: 99,
    });
    assert_eq!(s.policy.near_lod.depth, 0);
    assert_eq!(s.policy.far_lod.depth, 2);
    assert_eq!(s.policy.transition_radius_m, r(32.0));
    assert_eq!(s.policy.max_radius_m, r(256.0));
    assert_eq!(s.policy.bricks_per_tick, 99);
}

#[test]
fn ladder_bands_and_radii() {
    let ladder = LodLadder::default_progressive();
    assert_eq!(ladder.inner_radius_m(), r(128.0));
    assert_eq!(ladder.outer_radius_m(), r(1024.0));
    assert_eq!(ladder.tier_band_m(0), (r(0.0), r(128.0)));
    assert_eq!(ladder.tier_band_m(2), (r(256.0), r(512.0)));
    assert_eq!(ladder.tier_band_m(4), (r(0.0), r(0.0)));
    let empty = LodLadder { tiers: vec![], bricks_per_tick: 1 };
    assert_eq!(empty.outer_radius_m(), r(0.0));
    assert_eq!(empty.lod_for_distance(r(3.0)), Lod::new(0));
    assert_eq!(empty.as_policy().far_lod, Lod::new(0));
    assert_eq!(PLAN_REBUILD_DRIFT_M, 4.0f64.to_bits());
    assert_eq!(PLAN_REBUILD_FWD_COS, 0.9659f64.to_bits());
}

#[test]
fn tier_limits_follow_the_horizon_and_the_mask() {
    let ladder = LodLadder::default_progressive();
    assert_eq!(ladder.tier_limits(1, r(f64::INFINITY), true), Some((r(128.0), r(256.0))));
    assert_eq!(ladder.tier_limits(1, r(f64::INFINITY), false), Some((r(0.0), r(256.0))));
    assert_eq!(ladder.tier_limits(1, r(200.0), true), Some((r(128.0), r(200.0))));
    assert_eq!(ladder.tier_limits(1, r(100.0), true), Some((r(100.0), r(100.0))));
    assert_eq!(ladder.tier_limits(1, r(0.0), true), None);
    assert_eq!(ladder.tier_limits(1, r(-5.0), false), None);
}

#[test]
fn sweep_goes_by_z_then_y_then_x() {
    let cells = sweep_cells(IVec3::new(10, -1, 0), 1);
    assert_eq!(cells.len(), 27);
    assert_eq!(cells[0], IVec3::new(9, -2, -1));
    assert_eq!(cells[1], IVec3::new(10, -2, -1));
    assert_eq!(cells[3], IVec3::new(9, -1, -1));
    assert_eq!(cells[26], IVec3::new(11, 0, 1));
    assert_eq!(sweep_cells(IVec3::new(4, 5, 6), 0), vec![IVec3::new(4, 5, 6)]);
}

#[test]
fn frame_counter_saturates() {
    let mut s = streamer();
    s.tick_frame();
    assert_eq!(s.frame, 1);
    s.frame = u64::MAX;
    s.tick_frame();
    assert_eq!(s.frame, u64::MAX);
}

#[test]
fn cache_first_frame_forces_rebuild() {
    let cache = DesiredChunksCache::default();
    assert!(should_rebuild(&cache, [0.0, 0.0, 0.0], [0.0, 0.0, 1.0]));
}

#[test]
fn cache_skips_rebuild_under_position_threshold() {
    let mut cache = DesiredChunksCache::default();
    let fwd = [0.0, 0.0, 1.0];
    cache.set(pose([0.0, 0.0, 0.0], fwd), vec![]);
    assert!(!should_rebuild(&cache, [1.0, 0.0, 0.0], fwd));
}

#[test]
fn cache_rebuilds_past_position_threshold() {
    let mut cache = DesiredChunksCache::default();
    let fwd = [0.0, 0.0, 1.0];
    cache.set(pose([0.0, 0.0, 0.0], fwd), vec![]);
    assert!(should_rebuild(&cache, [5.0, 0.0, 0.0], fwd));
}

#[test]
fn cache_rebuilds_when_camera_turns_past_threshold() {
    let mut cache = DesiredChunksCache::default();
    let obs = [0.0, 0.0, 0.0];
    cache.set(pose(obs, [0.0, 0.0, 1.0]), vec![]);
    let theta = 20.0_f64.to_radians();
    assert!(should_rebuild(&cache, obs, [theta.sin(), 0.0, theta.cos()]));
}

#[test]
fn cache_reuses_under_small_camera_turn() {
    let mut cache = DesiredChunksCache::default();
    let obs = [0.0, 0.0, 0.0];
    cache.set(pose(obs, [0.0, 0.0, 1.0]), vec![]);
    let theta = 5.0_f64.to_radians();
    assert!(!should_rebuild(&cache, obs, [theta.sin(), 0.0, theta.cos()]));
}

#[test]
fn spawn_rebuild_runs_in_background_and_polls_in() {
    let mut cache = DesiredChunksCache::default();
    let s = streamer();
    let obs = [0.0, 0.0, 0.0];
    let fwd = [0.0, 0.0, 1.0];
    assert!(!cache.is_rebuilding());
    let ticket = cache.spawn_rebuild(pose(obs, fwd)).unwrap();
    assert!(cache.is_rebuilding());
    assert!(!cache.poll_rebuild(RebuildNews::Pending));
    assert!(cache.is_rebuilding());
    let plan = prioritized(&plan_around(&s, obs, f64::INFINITY, masked()), obs, fwd);
    assert!(cache.poll_rebuild(RebuildNews::Finished { ticket, plan }));
    assert!(!cache.is_rebuilding(), "rebuild slot should be cleared after poll");
    assert_eq!(cache.built_for, Some(pose(obs, fwd)));
    let sync_plan = prioritized(&plan_around(&s, obs, f64::INFINITY, masked()), obs, fwd);
    assert_eq!(cache.plan.len(), sync_plan.len());
    assert_eq!(cache.plan, sync_plan);
}

#[test]
fn spawn_rebuild_is_idempotent_while_in_flight() {
    let mut cache = DesiredChunksCache::default();
    let p = pose([0.0, 0.0, 0.0], [0.0, 0.0, 1.0]);
    assert!(cache.spawn_rebuild(p).is_some());
    assert!(cache.is_rebuilding());
    assert!(cache.spawn_rebuild(p).is_none());
    assert!(cache.is_rebuilding());
}

#[test]
fn a_lost_rebuild_frees_the_slot() {
    let mut cache = DesiredChunksCache::default();
    let p = pose([0.0, 0.0, 0.0], [0.0, 0.0, 1.0]);
    assert!(!cache.poll_rebuild(RebuildNews::Finished { ticket: 0, plan: vec![] }));
    let ticket = cache.spawn_rebuild(p).unwrap();
    assert!(!cache.poll_rebuild(RebuildNews::Lost { ticket: ticket - 1 }));
    assert!(cache.is_rebuilding());
    assert!(!cache.poll_rebuild(RebuildNews::Lost { ticket }));
    assert!(!cache.is_rebuilding());
    assert!(cache.built_for.is_none());
}

#[test]
fn cursor_resets_when_set_installs_fresh_plan() {
    let mut cache = DesiredChunksCache::default();
    let p = pose([0.0, 0.0, 0.0], [0.0, 0.0, 1.0]);
    cache.set(p, vec![(IVec3::new(0, 0, 0), Lod::new(0)); 32]);
    cache.cursor = 20;
    cache.set(p, vec![(IVec3::new(1, 0, 0), Lod::new(0)); 8]);
    assert_eq!(cache.cursor, 0);
}

#[test]
fn cursor_resets_when_poll_rebuild_installs_plan() {
    let mut cache = DesiredChunksCache::default();
    cache.cursor = 999;
    let ticket = cache.spawn_rebuild(pose([0.0, 0.0, 0.0], [0.0, 0.0, 1.0])).unwrap();
    assert!(cache.poll_rebuild(RebuildNews::Finished { ticket, plan: vec![] }));
    assert_eq!(cache.cursor, 0, "cursor must reset to 0 when a fresh plan is installed");
}

#[test]
fn should_rebuild_uses_in_flight_pose_to_dedupe() {
    let mut cache = DesiredChunksCache::default();
    let fwd = [0.0, 0.0, 1.0];
    cache.set(pose([0.0, 0.0, 0.0], fwd), vec![]);
    cache.spawn_rebuild(pose([100.0, 0.0, 0.0], fwd));
    assert!(!should_rebuild(&cache, [100.0, 0.0, 0.0], fwd));
    assert!(should_rebuild(&cache, [200.0, 0.0, 0.0], fwd));
}

#[test]
fn invalidate_forces_rebuild_without_drift() {
    let mut cache = DesiredChunksCache::default();
    let obs = [50.0, 0.0, 50.0];
    let fwd = [0.0, 0.0, 1.0];
    cache.set(pose(obs, fwd), vec![(IVec3::new(0, 0, 0), Lod::new(0))]);
    assert!(!should_rebuild(&cache, obs, fwd), "fresh cache should reuse");
    cache.invalidate();
    assert!(should_rebuild(&cache, obs, fwd), "invalidate must force a rebuild on the next tick");
}

#[test]
fn invalidate_discards_in_flight_rebuild() {
    let mut cache = DesiredChunksCache::default();
    cache.spawn_rebuild(pose([0.0, 0.0, 0.0], [0.0, 0.0, 1.0]));
    assert!(cache.is_rebuilding());
    cache.invalidate();
    assert!(!cache.is_rebuilding(), "invalidate must drop the rebuild that is under way");
}

#[test]
fn a_dropped_rebuild_stays_out() {
    let mut cache = DesiredChunksCache::default();
    let fwd = [0.0, 0.0, 1.0];
    let first = cache.spawn_rebuild(pose([0.0, 0.0, 0.0], fwd)).unwrap();
    cache.invalidate();
    let second = cache.spawn_rebuild(pose([9.0, 0.0, 0.0], fwd)).unwrap();
    let stale = vec![(IVec3::new(1, 0, 0), Lod::new(0))];
    assert!(!cache.poll_rebuild(RebuildNews::Finished { ticket: first, plan: stale }));
    assert!(cache.is_rebuilding());
    assert!(cache.built_for.is_none() && cache.plan.is_empty());
    let fresh = vec![(IVec3::new(2, 0, 0), Lod::new(0))];
    assert!(cache.poll_rebuild(RebuildNews::Finished { ticket: second, plan: fresh.clone() }));
    assert_eq!(cache.plan, fresh);
    assert_eq!(cache.built_for, Some(pose([9.0, 0.0, 0.0], fwd)));
}

#[test]
fn a_sweep_reaches_the_last_coordinate() {
    let cells = sweep_cells(IVec3::new(i64::MAX - 1, i64::MIN + 1, 0), 1);
    assert_eq!(cells.len(), 27);
    assert_eq!(cells[0], IVec3::new(i64::MAX - 2, i64::MIN, -1));
    assert_eq!(cells[26], IVec3::new(i64::MAX, i64::MIN + 2, 1));
}

#[test]
fn a_view_plan_is_planned_and_then_scored() {
    let observer = [3.0, 5.0, -7.0];
    let forward = [0.0, 0.0, 1.0];
    let s = streamer();
    let sweeps = sweeps_around(&s, observer, f64::INFINITY, nested());
    let expected = prioritized(&desired_chunks(&sweeps), observer, forward);
    let plan = plan_view(&sweeps, |c: IVec3, l: Lod| r(score(&(c, l), observer, forward)));
    assert_eq!(plan, expected);
    assert_ne!(plan, desired_chunks(&sweeps));
}

#[test]
fn a_masked_plan_is_part_of_the_nested_plan() {
    let s = streamer();
    let observer = [100.0, 40.0, -60.0];
    let whole: HashSet<(IVec3, u8)> = plan_around(&s, observer, f64::INFINITY, nested())
        .iter()
        .map(|(c, l)| (*c, l.depth))
        .collect();
    let part = plan_around(&s, observer, f64::INFINITY, masked());
    assert!(part.len() < whole.len());
    assert!(part.iter().all(|(c, l)| whole.contains(&(*c, l.depth))));
}

#[test]
fn view_priority_pulls_forward_brick_ahead_of_equidistant_behind() {
    let observer = [0.0, 0.0, 0.0];
    let forward = [0.0, 0.0, 1.0];
    let in_front = (IVec3::new(0, 0, 5), Lod::new(0));
    let behind = (IVec3::new(0, 0, -6), Lod::new(0));
    assert!(score(&in_front, observer, forward) < score(&behind, observer, forward));
    let plan = prioritized(&vec![behind, in_front], observer, forward);
    assert_eq!(plan, vec![in_front, behind]);
}

#[test]
fn prioritize_view_keeps_closest_first_within_each_hemisphere() {
    let plan = vec![
        (IVec3::new(0, 0, 9), Lod::new(0)),
        (IVec3::new(0, 0, 3), Lod::new(0)),
        (IVec3::new(0, 0, -10), Lod::new(0)),
    ];
    let plan = prioritized(&plan, [0.0, 0.0, 0.0], [0.0, 0.0, 1.0]);
    assert_eq!(plan[0].0.z, 3);
    assert_eq!(plan[1].0.z, 9);
    assert_eq!(plan[2].0.z, -10);
}

#[test]
fn equal_scores_keep_their_order() {
    let plan = vec![
        (IVec3::new(1, 0, 0), Lod::new(0)),
        (IVec3::new(2, 0, 0), Lod::new(0)),
        (IVec3::new(3, 0, 0), Lod::new(0)),
    ];
    let sorted = prioritize_view(&plan, &vec![r(2.0), r(-0.0), r(0.0)]);
    assert_eq!(sorted, vec![plan[1], plan[2], plan[0]]);
}

#[test]
fn horizon_clamp_truncates_outer_tier() {
    let s = streamer();
    for horizon in [100.0_f64, 300.0_f64] {
        let plan = plan_around(&s, [0.0, 0.0, 0.0], horizon, masked());
        for (c, lod) in &plan {
            let near = f64::from_bits(measured(*c, edge_of(*lod), [0.0; 3]).near_sq.bits);
            assert!(near < horizon * horizon, "brick {c:?} lod={} is past {horizon}", lod.depth);
        }
    }
}

#[test]
fn nested_summary_keeps_parent_under_inner_shell() {
    let s = streamer();
    let plan = plan_around(&s, [0.0, 0.0, 0.0], f64::INFINITY, nested());
    for depth in 0..4 {
        assert!(plan.contains(&(IVec3::new(0, 0, 0), Lod::new(depth))), "depth {depth} is missing");
    }
}

#[test]
fn nested_summary_inflates_brick_count_within_expected_bound() {
    let s = streamer();
    let masked_plan = plan_around(&s, [0.0, 0.0, 0.0], f64::INFINITY, masked());
    let nested_plan = plan_around(&s, [0.0, 0.0, 0.0], f64::INFINITY, nested());
    assert!(nested_plan.len() > masked_plan.len());
    let ratio = nested_plan.len() as f64 / masked_plan.len() as f64;
    assert!(ratio < 1.30, "ratio {ratio:.3} exceeds the 1.30 bound");
}

#[test]
fn nested_summary_every_loaded_brick_has_parent_until_outermost() {
    let s = streamer();
    let plan = plan_around(&s, [0.0, 0.0, 0.0], f64::INFINITY, nested());
    let outer_depth = s.ladder.tiers.last().unwrap().lod.depth;
    let plan_set: HashSet<(IVec3, u8)> = plan.iter().map(|(c, l)| (*c, l.depth)).collect();
    for (coord, lod) in &plan {
        if lod.depth >= outer_depth {
            continue;
        }
        let parent = (
            IVec3::new(coord.x.div_euclid(2), coord.y.div_euclid(2), coord.z.div_euclid(2)),
            lod.depth + 1,
        );
        assert!(plan_set.contains(&parent), "child {coord:?} lod={} has no parent", lod.depth);
    }
}

#[test]
fn nested_summary_passes_symmetry_check() {
    let s = streamer();
    let plan = plan_around(&s, [0.0, 0.0, 0.0], f64::INFINITY, nested());
    for depth in 0u8..=3 {
        let set = xz_set_at_lod(&plan, depth);
        assert!(!set.is_empty(), "nested: depth={depth} produced no bricks");
        for &(x, z) in &set {
            assert!(set.contains(&(-x - 1, z)), "nested depth={depth}: X-asymmetry at ({x},{z})");
            assert!(set.contains(&(x, -z - 1)), "nested depth={depth}: Z-asymmetry at ({x},{z})");
        }
    }
}

#[test]
fn horizon_clamp_drops_far_tiers() {
    let s = streamer();
    let unbounded = plan_around(&s, [0.0, 0.0, 0.0], f64::INFINITY, masked());
    let clamped = plan_around(&s, [0.0, 0.0, 0.0], 100.0, masked());
    assert!(clamped.len() < unbounded.len() / 4);
    let far_count = clamped.iter().filter(|(_, l)| l.depth == 3).count();
    let unbounded_far = unbounded.iter().filter(|(_, l)| l.depth == 3).count();
    assert!(far_count * 8 <= unbounded_far);
}

#[test]
fn horizon_infinity_matches_unclamped() {
    let s = streamer();
    let inf = plan_around(&s, [0.0, 0.0, 0.0], f64::INFINITY, masked());
    let huge = plan_around(&s, [0.0, 0.0, 0.0], 1.0e9, masked());
    assert_eq!(inf.len(), huge.len());
}
