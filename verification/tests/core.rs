use atomr_worlds_client::accel::cuda::{
    decode_bricks, plan_batch, single_brick, wait_for_children, CudaError, Duration, WaitStep,
};
use atomr_worlds_client::accel::strategy_kernels::parity_cases;
use atomr_worlds_client::accel::{Accelerator, BrickGenerator, CpuAccelerator};
use atomr_worlds_client::brick_gen::{BrickGenWorkers, BrickReady, BrickRefreshQueue, Key, MAX_IN_FLIGHT};
use atomr_worlds_client::coord::{floor_div, floor_rem, key_lt, parent_key, IVec3, Lod, BRICK_LEN};
use atomr_worlds_client::hud::{route_hud_target, update_mode, FrameDiagBuffer, HudRoute, FRAME_DIAG_BUFFER_LEN};
use atomr_worlds_client::input::{ButtonInput, KeyCode};
use atomr_worlds_client::key_map::{KeyMap, KeySet};
use atomr_worlds_client::measure::{Real32, Real64};
use atomr_worlds_client::order::stable_order;
use atomr_worlds_client::perf::{
    overlay_visible, perf_overlay_toggle, perf_spike_log, sparkline, sparkline_levels, Perf,
    PerfOverlayState, PerfStats, Phase,
};
use atomr_worlds_client::text::{append_decimal, append_decimal_padded, trim_chars};
use atomr_worlds_client::ticket::next_ticket;
use atomr_worlds_client::view_mode::ViewMode;
use atomr_worlds_client::voxel::{Brick, Voxel};

/// A generator whose bricks hold one voxel that depends on the seed and the
/// coordinate.
struct Layers;

impl BrickGenerator for Layers {
    fn generate_brick_legacy(&self, world_seed: u64, brick_coord: IVec3) -> Brick {
        let mut b = Brick::new();
        let y = (brick_coord.y + 8).rem_euclid(16);
        for x in 0..16 {
            b.set(IVec3::new(x, y, 3), Voxel::new((world_seed % 100) as u16 + 1));
        }
        b
    }
}

#[test]
fn cpu_backend_matches_direct_generator() {
    let accel = CpuAccelerator::new(Layers);
    let p = IVec3::new(0, -2, 0);
    let direct = Layers.generate_brick_legacy(42, p);
    let routed = accel.fill_brick(42, p);
    assert_eq!(direct.nonempty_count(), routed.nonempty_count());
    for i in 0..16i64 {
        for j in 0..16i64 {
            for k in 0..16i64 {
                assert_eq!(direct.get(IVec3::new(i, j, k)), routed.get(IVec3::new(i, j, k)));
            }
        }
    }
    assert_eq!(accel.backend(), "cpu");
}

#[test]
fn batch_default_impl_works() {
    let accel = CpuAccelerator::new(Layers);
    let coords = vec![IVec3::new(0, -1, 0), IVec3::new(0, 0, 0), IVec3::new(0, 1, 0)];
    let out = accel.fill_bricks_batch(42, &coords);
    assert_eq!(out.len(), 3);
    for i in 0..3 {
        assert_eq!(out[i].get(IVec3::new(0, 7 + i as i64, 3)), Voxel::new(43));
        assert_eq!(out[i].nonempty_count(), 16);
    }
}

#[test]
fn parity_cases_are_distinct() {
    let cases = parity_cases();
    for (i, a) in cases.iter().enumerate() {
        for b in &cases[i + 1..] {
            assert!(
                a.world_seed != b.world_seed || a.brick_coord != b.brick_coord,
                "parity cases must be distinct",
            );
        }
    }
    assert_eq!(cases[2].world_seed, 7);
}

#[test]
fn a_batch_is_laid_out_for_the_kernel() {
    assert!(plan_batch(&vec![]).is_none());
    let plan = plan_batch(&vec![IVec3::new(1, -2, 3), IVec3::new(4, 5, 6)]).unwrap();
    assert_eq!(plan.coords, vec![1, -2, 3, 4, 5, 6]);
    assert_eq!(plan.out_len, 2 * BRICK_LEN);
    assert_eq!(plan.launch.grid_dim, (2, 16, 1));
    assert_eq!(plan.launch.block_dim, (16, 16, 1));
    assert_eq!(plan.launch.shared_mem_bytes, 0);
}

#[test]
fn kernel_words_become_bricks() {
    let mut words = vec![0u32; 2 * BRICK_LEN];
    words[BRICK_LEN] = 65535;
    let bricks = decode_bricks(&words, 2).expect("every word is a material");
    assert_eq!(bricks.len(), 2);
    assert!(bricks[0].is_empty());
    assert_eq!(bricks[1].nonempty_count(), 1);
    assert_eq!(bricks[1].get(IVec3::new(0, 0, 0)), Voxel::new(65535));
    assert_eq!(single_brick(bricks).nonempty_count(), 1);
    words[7] = 65536;
    words[9] = 70000;
    assert!(matches!(decode_bricks(&words, 2), Err(CudaError::BadMaterial(65536))));
}

#[test]
fn device_errors_say_what_happened() {
    let text = |s: &str| String::from(s);
    assert_eq!(CudaError::Sys(text("x")).message(), "atomr actor system error: x");
    assert_eq!(CudaError::DeviceNotReady(Duration::from_secs(10)).message(), "CUDA device not ready after 10s");
    assert_eq!(CudaError::DeviceNotReady(Duration::from_secs(0)).message(), "CUDA device not ready after 0ns");
    assert_eq!(
        CudaError::DeviceNotReady(Duration::new(2, 500_000_000)).message(),
        "CUDA device not ready after 2.5s"
    );
    assert_eq!(
        CudaError::DeviceNotReady(Duration::new(0, 250_000_000)).message(),
        "CUDA device not ready after 250ms"
    );
    assert_eq!(
        CudaError::NvrtcDisabled.message(),
        "NVRTC actor not available (enable EnabledLibraries::NVRTC)"
    );
    assert_eq!(CudaError::Ask(text("y")).message(), "ask error: y");
    assert_eq!(CudaError::Gpu(text("z")).message(), "GPU error: z");
    assert_eq!(CudaError::BadMaterial(70000).message(), "kernel returned non-u16 voxel material: 70000");
    assert_eq!(
        CudaError::NoRuntime.message(),
        "no current Tokio runtime; construct CudaAccelerator from inside a runtime"
    );
    assert_eq!(wait_for_children(true, 99_000_000_000, Duration::from_secs(10)), WaitStep::Ready);
    assert_eq!(wait_for_children(false, 10_000_000_000, Duration::from_secs(10)), WaitStep::Sleep(50));
    assert_eq!(wait_for_children(false, 10_000_000_001, Duration::from_secs(10)), WaitStep::TimedOut);
    assert_eq!(wait_for_children(false, 1_500_000_000, Duration::new(1, 500_000_000)), WaitStep::Sleep(50));
    assert_eq!(wait_for_children(false, 1_500_000_001, Duration::new(1, 500_000_000)), WaitStep::TimedOut);
}

#[test]
fn a_set_voxel_is_read_back() {
    let mut b = Brick::new();
    assert!(b.is_empty());
    b.set(IVec3::new(1, 2, 3), Voxel::new(4));
    b.set(IVec3::new(1, 2, 3), Voxel::new(5));
    assert_eq!(b.get(IVec3::new(1, 2, 3)), Voxel::new(5));
    assert_eq!(b.get(IVec3::new(3, 2, 1)), Voxel::empty());
    assert_eq!(b.nonempty_count(), 1);
    b.set(IVec3::new(1, 2, 3), Voxel::empty());
    assert!(b.is_empty());
}

#[test]
fn key_is_coord_and_depth() {
    let k: Key = (IVec3::new(1, 2, 3), 0);
    assert_eq!(k.0.x, 1);
    assert_eq!(k.1, 0);
}

fn ready(x: i64) -> BrickReady<i64> {
    BrickReady { coord: IVec3::new(x, 0, 0), lod: Lod::new(0), payload: x }
}

#[test]
fn a_brick_is_fetched_once_at_a_time() {
    let mut w: BrickGenWorkers<i64> = BrickGenWorkers::new();
    assert!(w.dispatch(IVec3::new(0, 0, 0), Lod::new(0)));
    assert!(!w.dispatch(IVec3::new(0, 0, 0), Lod::new(0)));
    assert!(w.dispatch(IVec3::new(0, 0, 0), Lod::new(1)));
    for x in 1..MAX_IN_FLIGHT as i64 - 1 {
        assert!(w.dispatch(IVec3::new(x, 0, 0), Lod::new(0)));
    }
    assert!(w.is_saturated());
    assert!(!w.dispatch(IVec3::new(900, 0, 0), Lod::new(0)));
    w.deliver(ready(0));
    w.deliver(ready(1));
    let out = w.drain(1);
    assert_eq!(out.len(), 1);
    assert_eq!(out[0].payload, 0);
    assert_eq!(out[0].key(), (IVec3::new(0, 0, 0), 0));
    assert!(!w.contains(&(IVec3::new(0, 0, 0), 0)));
    assert!(w.contains(&(IVec3::new(1, 0, 0), 0)));
    assert_eq!(w.drain(10).len(), 1);
    assert_eq!(w.in_flight_count(), MAX_IN_FLIGHT - 2);
}

#[test]
fn a_brick_dirtied_again_is_fetched_again() {
    let a: Key = (IVec3::new(1, 0, 0), 0);
    let b: Key = (IVec3::new(2, 0, 0), 0);
    let mut q: BrickRefreshQueue<i64> = BrickRefreshQueue::new();
    assert_eq!(q.claim(&vec![a, b, a]), vec![a, b]);
    assert!(q.claim(&vec![b]).is_empty());
    assert_eq!(q.in_flight_count(), 2);
    q.deliver(ready(1));
    q.deliver(ready(2));
    let (landed, again) = q.drain();
    assert_eq!(landed.len(), 2);
    assert_eq!(again, vec![a, b]);
    q.deliver(ready(1));
    q.deliver(ready(2));
    let (_, again) = q.drain();
    assert!(again.is_empty());
    assert_eq!(q.in_flight_count(), 0);
}

#[test]
fn frame_diag_buffer_caps_at_capacity_and_drops_oldest() {
    let mut buf = FrameDiagBuffer::default();
    for i in 0..(FRAME_DIAG_BUFFER_LEN as u64 + 16) {
        buf.push(i);
    }
    assert_eq!(buf.len(), FRAME_DIAG_BUFFER_LEN);
    let samples = buf.samples();
    let first = samples.first().unwrap();
    assert_eq!(first.frame, 16);
    assert_eq!(first.micros, 16);
    let last = samples.last().unwrap();
    assert_eq!(last.frame, FRAME_DIAG_BUFFER_LEN as u64 + 15);
}

#[test]
fn frame_diag_buffer_assigns_monotonic_frame_ids() {
    let mut buf = FrameDiagBuffer::default();
    assert!(buf.is_empty());
    let a = buf.push(100);
    let b = buf.push(200);
    let c = buf.push(300);
    assert_eq!((a, b, c), (0, 1, 2));
    assert_eq!(buf.capacity(), 1024);
}

#[test]
fn the_hud_follows_the_active_camera() {
    assert_eq!(route_hud_target(ViewMode::Fp, Some(1), Some(2), None), HudRoute::Attach(2));
    assert_eq!(route_hud_target(ViewMode::Slice, Some(1), Some(2), Some(2)), HudRoute::Retarget(1));
    assert_eq!(route_hud_target(ViewMode::Slice, Some(1), Some(2), Some(1)), HudRoute::Keep);
    assert_eq!(route_hud_target(ViewMode::Rts, None, Some(2), Some(2)), HudRoute::Wait);
    assert_eq!(update_mode(ViewMode::Tp, "mode: fp"), Some(String::from("mode: tp")));
    assert_eq!(update_mode(ViewMode::Tp, "mode: tp"), None);
}

#[test]
fn phases_add_up_to_the_frame() {
    let all = Phase::all();
    assert_eq!(all.len(), 10);
    assert!(all.iter().enumerate().all(|(i, p)| p.index() == i));
    let mut perf = Perf::default();
    perf.add_ns(Phase::Streaming, 2_500_000);
    perf.add_ns(Phase::Streaming, 1_000);
    perf.add_ns(Phase::HudOverlay, 999);
    perf.set_loaded_chunks(9);
    perf.set_brick_in_flight(1);
    perf.set_fracture_in_flight(2);
    perf.set_fracture_refresh_in_flight(3);
    perf.set_edit_refresh_in_flight(4);
    perf.set_snapshot_rebuilding(true);
    let mut stats = PerfStats::default();
    stats.perf_snapshot(&perf, 4000);
    assert_eq!(stats.last_us[Phase::Streaming.index()], 2501);
    assert_eq!(stats.last_us[Phase::HudOverlay.index()], 0);
    assert_eq!((stats.frame_us, stats.other_us), (4000, 1499));
    let g = stats.gauges;
    assert_eq!((g.loaded_chunks, g.brick_in_flight, g.fracture_in_flight), (9, 1, 2));
    assert_eq!((g.fracture_refresh_in_flight, g.edit_refresh_in_flight), (3, 4));
    assert!(g.snapshot_rebuilding);
    let ms = |v: f64| Real64::from_bits(v.to_bits());
    let spike = perf_spike_log(&stats, ms(4.0), ms(4.0)).unwrap();
    assert_eq!((spike.label(), spike.us), ("stream", 2501));
    assert!(perf_spike_log(&stats, ms(3.9), ms(4.0)).is_none());
    stats.perf_snapshot(&perf, 9000);
    assert_eq!(perf_spike_log(&stats, ms(9.0), ms(4.0)).unwrap().label(), "other");
    stats.perf_snapshot(&perf, 100);
    assert_eq!(stats.other_us, 0);
    perf.perf_reset();
    assert!(perf.ns.iter().all(|n| *n == 0));
    let mut off = Perf::new(true);
    off.set_enabled(false);
    off.add_ns(Phase::EditApply, 5);
    assert_eq!(off.ns[0], 0);
    stats.perf_snapshot(&off, 1);
    assert_eq!(stats.frame_us, 100);
}

#[test]
fn the_sparkline_scales_to_its_peak() {
    assert_eq!(sparkline_levels(&vec![0, 50, 100]), vec![0, 3, 7]);
    assert_eq!(sparkline(&vec![0, 50, 100]), "\u{2581}\u{2584}\u{2588}");
    assert_eq!(sparkline(&vec![]), "");
    let mut long = vec![1_000_000u64];
    long.extend(vec![1u64; 60]);
    assert_eq!(sparkline_levels(&long), vec![7usize; 60]);
    let f3 = ButtonInput { down: vec![], fresh: vec![KeyCode::F3] };
    let mut overlay = PerfOverlayState { visible: false };
    perf_overlay_toggle(&mut overlay, &f3);
    assert!(overlay_visible(&overlay));
    perf_overlay_toggle(&mut overlay, &ButtonInput { down: vec![KeyCode::F3], fresh: vec![] });
    assert!(overlay_visible(&overlay));
    perf_overlay_toggle(&mut overlay, &f3);
    assert!(!overlay_visible(&overlay));
}

#[test]
fn keys_have_parents_and_an_order() {
    assert_eq!(parent_key((IVec3::new(-1, 2, 5), 0)), (IVec3::new(-1, 1, 2), 1));
    assert_eq!((floor_div(-1, 16), floor_rem(-1, 16)), (-1, 15));
    assert_eq!(floor_div(i64::MIN, 16), i64::MIN / 16);
    assert!(key_lt((IVec3::new(0, 0, 0), 0), (IVec3::new(0, 0, 0), 1)));
    let mut m: KeyMap<u8> = KeyMap::new();
    m.insert((IVec3::new(5, 0, 0), 0), 1);
    m.insert((IVec3::new(-5, 0, 0), 0), 2);
    m.insert((IVec3::new(5, 0, 0), 0), 3);
    assert_eq!(m.len(), 2);
    assert_eq!(m.keys(), vec![(IVec3::new(-5, 0, 0), 0), (IVec3::new(5, 0, 0), 0)]);
    assert_eq!(m.remove((IVec3::new(5, 0, 0), 0)), Some(3));
    assert_eq!(m.get((IVec3::new(5, 0, 0), 0)), None);
    let mut s = KeySet::new();
    assert!(s.insert((IVec3::new(1, 1, 1), 0)));
    assert!(!s.insert((IVec3::new(1, 1, 1), 0)));
    assert!(s.remove((IVec3::new(1, 1, 1), 0)));
    assert_eq!(s.len(), 0);
}

#[test]
fn sorting_is_stable() {
    assert_eq!(stable_order(&vec![3, 1, 3, 1, 2]), vec![1, 3, 4, 0, 2]);
    assert!(stable_order(&vec![]).is_empty());
}

#[test]
fn bit_patterns_compare_as_their_numbers() {
    let values = [f64::NEG_INFINITY, -2.5, -0.0, 0.0, 1e-300, 1.0, f64::INFINITY, f64::NAN];
    for a in values {
        for b in values {
            let x = Real64::from_bits(a.to_bits());
            let y = Real64::from_bits(b.to_bits());
            assert_eq!(x.lt(y), a < b, "{a} < {b}");
            assert_eq!(x.le(y), a <= b, "{a} <= {b}");
            if !a.is_nan() || !b.is_nan() {
                assert_eq!(f64::from_bits(x.min(y).bits), a.min(b), "min {a} {b}");
            }
            let x = Real32::from_bits((a as f32).to_bits());
            let y = Real32::from_bits((b as f32).to_bits());
            assert_eq!(x.lt(y), (a as f32) < (b as f32));
            assert_eq!(x.le(y), (a as f32) <= (b as f32));
        }
    }
}

#[test]
fn numbers_are_written_in_decimal() {
    let mut s = String::from("n=");
    append_decimal(&mut s, 0);
    append_decimal(&mut s, u64::MAX);
    assert_eq!(s, "n=018446744073709551615");
    let mut p = String::new();
    append_decimal_padded(&mut p, 42, 4);
    append_decimal_padded(&mut p, 123456, 4);
    assert_eq!(p, "0042123456");
    assert_eq!(trim_chars(" \u{3000}a b\t\n"), vec!['a', ' ', 'b']);
    assert_eq!(trim_chars(" \n"), Vec::<char>::new());
}

#[test]
fn tickets_start_over() {
    assert_eq!(next_ticket(7), 8);
    assert_eq!(next_ticket(u64::MAX), 0);
}
