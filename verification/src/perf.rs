//! Where the time of a frame goes.
//!
//! Timed slices of a frame are accumulated per phase, folded into a snapshot at
//! the end of the frame, and shown on an overlay or logged when a frame takes
//! too long.

use crate::input::{ButtonInput, KeyCode};
use crate::measure::Real64;
use vstd::prelude::*;
use vstd::string::*;

verus! {

/// A timed slice of a frame's work.
#[derive(Clone, Copy, Debug, PartialEq, Eq, Structural, Hash)]
pub enum Phase {
    EditApply,
    EditRefresh,
    Streaming,
    BrickSpawn,
    LodVisibility,
    FractureDispatch,
    FractureApply,
    SliceRtsRaster,
    HudOverlay,
    DebrisStream,
}

/// Number of phases.
pub const PHASE_COUNT: usize = 10;

/// Phase number `i`.
pub open spec fn phase_at(i: int) -> Phase {
    if i == 0 {
        Phase::EditApply
    } else if i == 1 {
        Phase::EditRefresh
    } else if i == 2 {
        Phase::Streaming
    } else if i == 3 {
        Phase::BrickSpawn
    } else if i == 4 {
        Phase::LodVisibility
    } else if i == 5 {
        Phase::FractureDispatch
    } else if i == 6 {
        Phase::FractureApply
    } else if i == 7 {
        Phase::SliceRtsRaster
    } else if i == 8 {
        Phase::HudOverlay
    } else {
        Phase::DebrisStream
    }
}

impl Phase {
    /// The phase's number.
    pub open spec fn number(self) -> int {
        match self {
            Phase::EditApply => 0,
            Phase::EditRefresh => 1,
            Phase::Streaming => 2,
            Phase::BrickSpawn => 3,
            Phase::LodVisibility => 4,
            Phase::FractureDispatch => 5,
            Phase::FractureApply => 6,
            Phase::SliceRtsRaster => 7,
            Phase::HudOverlay => 8,
            Phase::DebrisStream => 9,
        }
    }

    pub fn index(self) -> (r: usize)
        ensures
            r as int == self.number(),
            r < PHASE_COUNT,
            self is EditApply ==> r == 0,
            self is EditRefresh ==> r == 1,
            self is Streaming ==> r == 2,
            self is BrickSpawn ==> r == 3,
            self is LodVisibility ==> r == 4,
            self is FractureDispatch ==> r == 5,
            self is FractureApply ==> r == 6,
            self is SliceRtsRaster ==> r == 7,
            self is HudOverlay ==> r == 8,
            self is DebrisStream ==> r == 9,
    {
        match self {
            Phase::EditApply => 0,
            Phase::EditRefresh => 1,
            Phase::Streaming => 2,
            Phase::BrickSpawn => 3,
            Phase::LodVisibility => 4,
            Phase::FractureDispatch => 5,
            Phase::FractureApply => 6,
            Phase::SliceRtsRaster => 7,
            Phase::HudOverlay => 8,
            Phase::DebrisStream => 9,
        }
    }

    /// Every phase, by number.
    pub fn all() -> (r: Vec<Phase>)
        ensures
            r@ == Seq::new(10, |i: int| phase_at(i)),
            r@ == seq![
                Phase::EditApply,
                Phase::EditRefresh,
                Phase::Streaming,
                Phase::BrickSpawn,
                Phase::LodVisibility,
                Phase::FractureDispatch,
                Phase::FractureApply,
                Phase::SliceRtsRaster,
                Phase::HudOverlay,
                Phase::DebrisStream,
            ],
    {
        let r: Vec<Phase> = vec![
            Phase::EditApply,
            Phase::EditRefresh,
            Phase::Streaming,
            Phase::BrickSpawn,
            Phase::LodVisibility,
            Phase::FractureDispatch,
            Phase::FractureApply,
            Phase::SliceRtsRaster,
            Phase::HudOverlay,
            Phase::DebrisStream,
        ];
        proof {
            assert(r@ =~= Seq::new(10, |i: int| phase_at(i)));
        }
        r
    }

    pub open spec fn spec_label(self) -> Seq<char> {
        match self {
            Phase::EditApply => "edit"@,
            Phase::EditRefresh => "eref"@,
            Phase::Streaming => "stream"@,
            Phase::BrickSpawn => "spawn"@,
            Phase::LodVisibility => "lodvis"@,
            Phase::FractureDispatch => "fracD"@,
            Phase::FractureApply => "fracA"@,
            Phase::SliceRtsRaster => "raster"@,
            Phase::HudOverlay => "hud"@,
            Phase::DebrisStream => "debrisS"@,
        }
    }

    /// The short name that the overlay and the log use.
    pub fn label(self) -> (r: &'static str)
        ensures
            r@ == self.spec_label(),
            self is EditApply ==> r@ == "edit"@,
            self is EditRefresh ==> r@ == "eref"@,
            self is Streaming ==> r@ == "stream"@,
            self is BrickSpawn ==> r@ == "spawn"@,
            self is LodVisibility ==> r@ == "lodvis"@,
            self is FractureDispatch ==> r@ == "fracD"@,
            self is FractureApply ==> r@ == "fracA"@,
            self is SliceRtsRaster ==> r@ == "raster"@,
            self is HudOverlay ==> r@ == "hud"@,
            self is DebrisStream ==> r@ == "debrisS"@,
    {
        match self {
            Phase::EditApply => "edit",
            Phase::EditRefresh => "eref",
            Phase::Streaming => "stream",
            Phase::BrickSpawn => "spawn",
            Phase::LodVisibility => "lodvis",
            Phase::FractureDispatch => "fracD",
            Phase::FractureApply => "fracA",
            Phase::SliceRtsRaster => "raster",
            Phase::HudOverlay => "hud",
            Phase::DebrisStream => "debrisS",
        }
    }
}

/// Phases and their numbers correspond one to one.
pub proof fn phases_are_numbered(p: Phase, i: int)
    requires
        0 <= i < 10,
    ensures
        0 <= p.number() < 10,
        phase_at(p.number()) == p,
        phase_at(i).number() == i,
{
}

/// Depths of the work queues.
#[derive(Clone, Copy, Debug, PartialEq, Eq, Structural)]
pub struct Gauges {
    pub brick_in_flight: usize,
    pub loaded_chunks: usize,
    pub fracture_in_flight: usize,
    pub fracture_refresh_in_flight: usize,
    pub edit_refresh_in_flight: usize,
    pub snapshot_rebuilding: bool,
}

/// Nanoseconds of this frame per phase, and the queue depths. A disabled
/// profiler, as in scripted runs, records nothing.
#[derive(Debug)]
pub struct Perf {
    pub ns: Vec<u64>,
    pub enabled: bool,
    pub gauges: Gauges,
}

/// Microseconds of a frame per phase, what is left over, and the queue depths.
#[derive(Debug)]
pub struct PerfStats {
    pub last_us: Vec<u64>,
    pub frame_us: u64,
    /// The frame's time outside every phase.
    pub other_us: u64,
    pub gauges: Gauges,
}

pub open spec fn no_gauges() -> Gauges {
    Gauges {
        brick_in_flight: 0,
        loaded_chunks: 0,
        fracture_in_flight: 0,
        fracture_refresh_in_flight: 0,
        edit_refresh_in_flight: 0,
        snapshot_rebuilding: false,
    }
}

fn zeros() -> (r: Vec<u64>)
    ensures
        r@ == Seq::new(10, |i: int| 0u64),
{
    let r: Vec<u64> = vec![0, 0, 0, 0, 0, 0, 0, 0, 0, 0];
    proof {
        assert(r@ =~= Seq::new(10, |i: int| 0u64));
    }
    r
}

impl Default for Perf {
    fn default() -> (r: Self)
        ensures
            r.wf(),
            r.enabled,
            r.ns@ == Seq::new(10, |i: int| 0u64),
            r.gauges == no_gauges(),
    {
        Self::new(true)
    }
}

/// The first `n` numbers added up.
pub open spec fn sum_of(s: Seq<u64>, n: int) -> int
    decreases n,
{
    if n <= 0 {
        0
    } else {
        sum_of(s, n - 1) + s[n - 1]
    }
}

impl Perf {
    pub open spec fn wf(&self) -> bool {
        self.ns@.len() == 10
    }

    pub fn new(enabled: bool) -> (r: Self)
        ensures
            r.wf(),
            r.enabled == enabled,
            r.ns@ == Seq::new(10, |i: int| 0u64),
            r.gauges == no_gauges(),
    {
        Perf {
            ns: zeros(),
            enabled,
            gauges: Gauges {
                brick_in_flight: 0,
                loaded_chunks: 0,
                fracture_in_flight: 0,
                fracture_refresh_in_flight: 0,
                edit_refresh_in_flight: 0,
                snapshot_rebuilding: false,
            },
        }
    }

    /// Switches the profiler on or off.
    pub fn set_enabled(&mut self, v: bool)
        ensures
            *final(self) == (Perf { enabled: v, ..*old(self) }),
    {
        self.enabled = v;
    }

    pub fn set_brick_in_flight(&mut self, v: usize)
        ensures
            *final(self) == (Perf {
                gauges: Gauges { brick_in_flight: v, ..old(self).gauges },
                ..*old(self)
            }),
    {
        self.gauges.brick_in_flight = v;
    }

    pub fn set_loaded_chunks(&mut self, v: usize)
        ensures
            *final(self) == (Perf {
                gauges: Gauges { loaded_chunks: v, ..old(self).gauges },
                ..*old(self)
            }),
    {
        self.gauges.loaded_chunks = v;
    }

    pub fn set_fracture_in_flight(&mut self, v: usize)
        ensures
            *final(self) == (Perf {
                gauges: Gauges { fracture_in_flight: v, ..old(self).gauges },
                ..*old(self)
            }),
    {
        self.gauges.fracture_in_flight = v;
    }

    pub fn set_fracture_refresh_in_flight(&mut self, v: usize)
        ensures
            *final(self) == (Perf {
                gauges: Gauges { fracture_refresh_in_flight: v, ..old(self).gauges },
                ..*old(self)
            }),
    {
        self.gauges.fracture_refresh_in_flight = v;
    }

    pub fn set_edit_refresh_in_flight(&mut self, v: usize)
        ensures
            *final(self) == (Perf {
                gauges: Gauges { edit_refresh_in_flight: v, ..old(self).gauges },
                ..*old(self)
            }),
    {
        self.gauges.edit_refresh_in_flight = v;
    }

    pub fn set_snapshot_rebuilding(&mut self, v: bool)
        ensures
            *final(self) == (Perf {
                gauges: Gauges { snapshot_rebuilding: v, ..old(self).gauges },
                ..*old(self)
            }),
    {
        self.gauges.snapshot_rebuilding = v;
    }

    /// Adds time to a phase; the counter goes around at its end.
    pub fn add_ns(&mut self, p: Phase, ns: u64)
        requires
            old(self).wf(),
        ensures
            final(self).wf(),
            final(self).enabled == old(self).enabled,
            final(self).gauges == old(self).gauges,
            final(self).ns@ == (if old(self).enabled {
                old(self).ns@.update(
                    p.number(),
                    ((old(self).ns@[p.number()] + ns) % 0x1_0000_0000_0000_0000) as u64,
                )
            } else {
                old(self).ns@
            }),
    {
        if self.enabled {
            let i: usize = p.index();
            let total: u64 = self.ns[i].wrapping_add(ns);
            self.ns[i] = total;
        }
    }

    /// Starts a frame: every phase is back at zero.
    pub fn perf_reset(&mut self)
        requires
            old(self).wf(),
        ensures
            final(self).wf(),
            final(self).enabled == old(self).enabled,
            final(self).gauges == old(self).gauges,
            final(self).ns@ == (if old(self).enabled {
                Seq::new(10, |i: int| 0u64)
            } else {
                old(self).ns@
            }),
    {
        if self.enabled {
            self.ns = zeros();
        }
    }
}

impl Default for PerfStats {
    fn default() -> (r: Self)
        ensures
            r.last_us@ == Seq::new(10, |i: int| 0u64),
            r.frame_us == 0,
            r.other_us == 0,
            r.gauges == no_gauges(),
    {
        PerfStats {
            last_us: zeros(),
            frame_us: 0,
            other_us: 0,
            gauges: Gauges {
                brick_in_flight: 0,
                loaded_chunks: 0,
                fracture_in_flight: 0,
                fracture_refresh_in_flight: 0,
                edit_refresh_in_flight: 0,
                snapshot_rebuilding: false,
            },
        }
    }
}

/// Whole microseconds per phase.
pub open spec fn micros(ns: Seq<u64>) -> Seq<u64> {
    Seq::new(ns.len(), |i: int| (ns[i] / 1000) as u64)
}

impl PerfStats {
    /// Ends a frame of `frame_us` microseconds: takes over the phases and the
    /// queue depths. What no phase accounts for is left over, and never less
    /// than nothing.
    pub fn perf_snapshot(&mut self, perf: &Perf, frame_us: u64)
        requires
            perf.wf(),
        ensures
            !perf.enabled ==> *final(self) == *old(self),
            perf.enabled ==> ({
                let us = micros(perf.ns@);
                &&& final(self).last_us@ == us
                &&& final(self).frame_us == frame_us
                &&& final(self).other_us as int == (if frame_us > sum_of(us, 10) {
                    frame_us - sum_of(us, 10)
                } else {
                    0
                })
                &&& final(self).gauges == perf.gauges
            }),
            perf.enabled ==> final(self).last_us@.len() == 10 && forall|i: int|
                0 <= i < 10 ==> #[trigger] final(self).last_us@[i] == perf.ns@[i] / 1000,
            perf.enabled ==> ({
                let us = final(self).last_us@;
                let all = us[0] + us[1] + us[2] + us[3] + us[4] + us[5] + us[6] + us[7] + us[8] + us[9];
                &&& all <= frame_us ==> final(self).other_us + all == frame_us
                &&& all > frame_us ==> final(self).other_us == 0
            }),
    {
        if !perf.enabled {
            return ;
        }
        let mut last: Vec<u64> = Vec::new();
        let mut sum: u64 = 0;
        let mut i: usize = 0;
        while i < PHASE_COUNT
            invariant
                i <= 10,
                perf.wf(),
                last@.len() == i,
                forall|k: int| 0 <= k < i ==> #[trigger] last@[k] == micros(perf.ns@)[k],
                sum as int == sum_of(micros(perf.ns@), i as int),
                sum <= i * 18446744073709552,
            decreases 10 - i,
        {
            let us: u64 = perf.ns[i] / 1000;
            last.push(us);
            sum = sum + us;
            i += 1;
        }
        proof {
            assert(last@ =~= micros(perf.ns@));
            reveal_with_fuel(sum_of, 11);
        }
        self.last_us = last;
        self.frame_us = frame_us;
        self.other_us = frame_us.saturating_sub(sum);
        self.gauges = perf.gauges;
    }
}

/// The largest share of a frame among what is left over and the first `n`
/// phases: the phase's number, or none, and its time. A phase wins only if it
/// takes longer than all before it.
pub open spec fn dominant_of(us: Seq<u64>, other: u64, n: int) -> (Option<int>, u64)
    decreases n,
{
    if n <= 0 {
        (None, other)
    } else {
        let (p, top) = dominant_of(us, other, n - 1);
        if us[n - 1] > top {
            (Some(n - 1), us[n - 1])
        } else {
            (p, top)
        }
    }
}

/// What took the most time in a frame.
#[derive(Clone, Copy, Debug, PartialEq, Eq, Structural)]
pub struct Dominant {
    /// No phase where the time went outside all of them.
    pub phase: Option<Phase>,
    pub us: u64,
}

/// What took the most time in a frame that reached the threshold, both in
/// milliseconds; nothing is reported of a faster frame.
pub fn perf_spike_log(stats: &PerfStats, total_ms: Real64, threshold_ms: Real64) -> (r: Option<Dominant>)
    requires
        stats.last_us@.len() == 10,
    ensures
        r is None <==> total_ms.less(threshold_ms),
        r is Some ==> ({
            let (p, top) = dominant_of(stats.last_us@, stats.other_us, 10);
            &&& r->0.us == top
            &&& r->0.phase == (match p {
                Some(i) => Some(phase_at(i)),
                None => None,
            })
        }),
{
    if total_ms.lt(threshold_ms) {
        return None;
    }
    let all: Vec<Phase> = Phase::all();
    let mut best = Dominant { phase: None, us: stats.other_us };
    let mut i: usize = 0;
    while i < PHASE_COUNT
        invariant
            i <= 10,
            stats.last_us@.len() == 10,
            all@ == Seq::new(10, |k: int| phase_at(k)),
            best.us == dominant_of(stats.last_us@, stats.other_us, i as int).1,
            best.phase == (match dominant_of(stats.last_us@, stats.other_us, i as int).0 {
                Some(k) => Some(phase_at(k)),
                None => None,
            }),
        decreases 10 - i,
    {
        let us: u64 = stats.last_us[i];
        if us > best.us {
            best = Dominant { phase: Some(all[i]), us };
        }
        i += 1;
    }
    Some(best)
}

impl Dominant {
    /// The name to log.
    pub fn label(&self) -> (r: &'static str)
        ensures
            r@ == (match self.phase {
                Some(p) => p.spec_label(),
                None => "other"@,
            }),
    {
        match self.phase {
            Some(p) => p.label(),
            None => "other",
        }
    }
}

/// No phase took longer than the dominant share, and no time was left over
/// beyond it.
pub proof fn dominant_is_largest(us: Seq<u64>, other: u64, n: int, i: int)
    requires
        0 <= i < n <= us.len(),
    ensures
        us[i] <= dominant_of(us, other, n).1,
        other <= dominant_of(us, other, n).1,
    decreases n,
{
    if i < n - 1 {
        dominant_is_largest(us, other, n - 1, i);
    } else if n > 1 {
        dominant_is_largest(us, other, n - 1, n - 2);
    } else {
        assert(dominant_of(us, other, 0).1 == other);
    }
}

/// The overlay's state.
#[derive(Clone, Copy, Debug, PartialEq, Eq, Structural)]
pub struct PerfOverlayState {
    pub visible: bool,
}

/// Whether the overlay is shown, and so has to be painted.
pub fn overlay_visible(state: &PerfOverlayState) -> (r: bool)
    ensures
        r == state.visible,
{
    state.visible
}

/// F3 shows or hides the overlay.
pub fn perf_overlay_toggle(state: &mut PerfOverlayState, keys: &ButtonInput)
    ensures
        final(state).visible == (old(state).visible != keys.is_fresh(KeyCode::F3)),
{
    if keys.just_pressed(KeyCode::F3) {
        state.visible = !state.visible;
    }
}

/// Frames that the sparkline shows.
pub const SPARKLINE_FRAMES: usize = 60;

/// The recent frame times that the sparkline shows.
pub open spec fn recent(samples: Seq<u64>) -> Seq<u64> {
    if samples.len() <= 60 {
        samples
    } else {
        samples.skip(samples.len() - 60)
    }
}

/// The largest number, at least 1.
pub open spec fn peak(s: Seq<u64>) -> u64
    decreases s.len(),
{
    if s.len() == 0 {
        1
    } else {
        let front = peak(s.drop_last());
        if s.last() > front {
            s.last()
        } else {
            front
        }
    }
}

/// The level of a frame time, 0 to 7 of the peak. Times too large to be
/// multiplied count as the largest number there is.
pub open spec fn level(us: u64, max: u64) -> int {
    let scaled = if us * 7 > u64::MAX {
        u64::MAX as int
    } else {
        us * 7
    };
    let l = scaled / max as int;
    if l > 7 {
        7
    } else {
        l
    }
}

/// The bars of recent frame times, oldest first, scaled to the longest of them.
pub fn sparkline_levels(samples: &Vec<u64>) -> (r: Vec<usize>)
    ensures
        r@.len() == recent(samples@).len(),
        r@.len() == (if samples@.len() < 60 {
            samples@.len() as int
        } else {
            60
        }),
        forall|i: int|
            0 <= i < r@.len() ==> #[trigger] r@[i] as int == level(
                recent(samples@)[i],
                peak(recent(samples@)),
            ),
        forall|i: int| 0 <= i < r@.len() ==> (#[trigger] r@[i]) <= 7,
{
    let start: usize = if samples.len() <= SPARKLINE_FRAMES {
        0
    } else {
        samples.len() - SPARKLINE_FRAMES
    };
    let ghost rec = recent(samples@);
    let mut max: u64 = 1;
    let mut i: usize = start;
    while i < samples.len()
        invariant
            start <= i <= samples@.len(),
            rec == samples@.skip(start as int),
            max == peak(rec.take(i - start)),
            max >= 1,
        decreases samples@.len() - i,
    {
        proof {
            assert(rec.take(i - start + 1).drop_last() =~= rec.take(i - start));
            assert(rec.take(i - start + 1).last() == samples@[i as int]);
        }
        if samples[i] > max {
            max = samples[i];
        }
        i += 1;
    }
    proof {
        assert(rec.take(rec.len() as int) =~= rec);
        assert(rec =~= recent(samples@));
    }
    let mut out: Vec<usize> = Vec::new();
    let mut j: usize = start;
    while j < samples.len()
        invariant
            start <= j <= samples@.len(),
            rec == samples@.skip(start as int),
            max == peak(rec),
            max >= 1,
            out@.len() == j - start,
            forall|k: int| 0 <= k < out@.len() ==> #[trigger] out@[k] as int == level(rec[k], max),
            forall|k: int| 0 <= k < out@.len() ==> (#[trigger] out@[k]) <= 7,
        decreases samples@.len() - j,
    {
        let us: u64 = samples[j];
        let product: u128 = us as u128 * 7;
        let scaled: u64 = if product > u64::MAX as u128 {
            u64::MAX
        } else {
            product as u64
        };
        let l: u64 = scaled / max;
        out.push(
            if l > 7 {
                7
            } else {
                l as usize
            },
        );
        proof {
            assert(rec[j - start] == us);
        }
        j += 1;
    }
    out
}

/// The bar of a level.
pub open spec fn bar(l: int) -> Seq<char> {
    if l <= 0 {
        "\u{2581}"@
    } else if l == 1 {
        "\u{2582}"@
    } else if l == 2 {
        "\u{2583}"@
    } else if l == 3 {
        "\u{2584}"@
    } else if l == 4 {
        "\u{2585}"@
    } else if l == 5 {
        "\u{2586}"@
    } else if l == 6 {
        "\u{2587}"@
    } else {
        "\u{2588}"@
    }
}

/// Bars in a row.
pub open spec fn bars(levels: Seq<usize>) -> Seq<char>
    decreases levels.len(),
{
    if levels.len() == 0 {
        Seq::empty()
    } else {
        bars(levels.drop_last()) + bar(levels.last() as int)
    }
}

fn append_bar(out: &mut String, l: usize)
    ensures
        final(out)@ == old(out)@ + bar(l as int),
{
    if l == 0 {
        out.append("\u{2581}");
    } else if l == 1 {
        out.append("\u{2582}");
    } else if l == 2 {
        out.append("\u{2583}");
    } else if l == 3 {
        out.append("\u{2584}");
    } else if l == 4 {
        out.append("\u{2585}");
    } else if l == 5 {
        out.append("\u{2586}");
    } else if l == 6 {
        out.append("\u{2587}");
    } else {
        out.append("\u{2588}");
    }
}

/// A row of bars for the recent frame times; empty where there are none.
pub fn sparkline(samples: &Vec<u64>) -> (r: String)
    ensures
        exists|levels: Seq<usize>|
            levels.len() == recent(samples@).len() && (forall|i: int|
                0 <= i < levels.len() ==> #[trigger] levels[i] as int == level(
                    recent(samples@)[i],
                    peak(recent(samples@)),
                )) && r@ == #[trigger] bars(levels),
{
    let levels: Vec<usize> = sparkline_levels(samples);
    let mut out: String = String::new();
    let mut i: usize = 0;
    proof {
        assert(levels@.take(0) =~= Seq::<usize>::empty());
    }
    while i < levels.len()
        invariant
            i <= levels@.len(),
            out@ == bars(levels@.take(i as int)),
        decreases levels@.len() - i,
    {
        proof {
            assert(levels@.take(i + 1).drop_last() =~= levels@.take(i as int));
            assert(levels@.take(i + 1).last() == levels@[i as int]);
        }
        append_bar(&mut out, levels[i]);
        i += 1;
    }
    proof {
        assert(levels@.take(levels@.len() as int) =~= levels@);
        assert(out@ == bars(levels@));
    }
    out
}

/// The dominant share is that of a phase that took longer than what was left over
/// and than every phase before it; where no phase did, it is what was left over.
pub proof fn dominant_is_one_of_the_shares(us: Seq<u64>, other: u64, n: int)
    requires
        0 <= n <= us.len(),
    ensures
        dominant_of(us, other, n).0 matches Some(i) ==> 0 <= i < n && us[i] == dominant_of(us, other, n).1 && us[i]
            > other && forall|j: int| 0 <= j < i ==> #[trigger] us[j] < us[i],
        dominant_of(us, other, n).0 is None <==> forall|j: int| 0 <= j < n ==> #[trigger] us[j] <= other,
        dominant_of(us, other, n).0 is None ==> dominant_of(us, other, n).1 == other,
    decreases n,
{
    if n > 0 {
        dominant_is_one_of_the_shares(us, other, n - 1);
        assert forall|j: int| 0 <= j < n - 1 implies #[trigger] us[j] <= dominant_of(us, other, n - 1).1 by {
            dominant_is_largest(us, other, n - 1, j);
        }
        let (p, top) = dominant_of(us, other, n - 1);
        assert(top >= other);
        if p is Some {
            assert(us[p->0] > other);
        }
        if us[n - 1] > top {
            assert(us[n - 1] > other);
        }
    }
}

/// The sparkline shows the latest frame times, sixty at most, oldest first.
pub proof fn the_sparkline_shows_the_latest(samples: Seq<u64>, i: int)
    requires
        0 <= i < recent(samples).len(),
    ensures
        samples.len() <= 60 ==> recent(samples).len() == samples.len(),
        samples.len() > 60 ==> recent(samples).len() == 60,
        recent(samples)[i] == samples[samples.len() - recent(samples).len() + i],
{
}

/// The peak is the longest of the frame times, and 1 where none is longer.
pub proof fn the_peak_is_the_longest(s: Seq<u64>)
    ensures
        peak(s) >= 1,
        forall|i: int| 0 <= i < s.len() ==> #[trigger] s[i] <= peak(s),
        peak(s) == 1 || s.contains(peak(s)),
    decreases s.len(),
{
    if s.len() > 0 {
        let front = s.drop_last();
        the_peak_is_the_longest(front);
        assert forall|i: int| 0 <= i < s.len() implies #[trigger] s[i] <= peak(s) by {
            if i < front.len() {
                assert(front[i] == s[i]);
            }
        }
        if s.last() > peak(front) {
            assert(s[s.len() - 1] == peak(s));
        } else if front.contains(peak(front)) {
            let i = front.index_of(peak(front));
            assert(s[i] == peak(s));
        }
    }
}

/// The level of a frame time is its share of the peak in sevenths, rounded down:
/// none where it takes less than a seventh, and the highest at the peak.
pub proof fn levels_are_sevenths_of_the_peak(us: u64, max: u64)
    requires
        us <= max,
        0 < max,
        max * 7 <= u64::MAX,
    ensures
        0 <= level(us, max) <= 7,
        level(us, max) * max <= us * 7 < (level(us, max) + 1) * max,
        us == max ==> level(us, max) == 7,
        us * 7 < max ==> level(us, max) == 0,
{
    let a = us * 7;
    let m = max as int;
    assert(a / m * m <= a < (a / m + 1) * m && a / m <= 7 && (a == 7 * m ==> a / m == 7) && (a < m ==> a / m == 0) && 0
        <= a / m) by (nonlinear_arith)
        requires
            0 <= a <= 7 * m,
            m > 0,
    ;
}

/// Every level gets one bar, in its place: the lowest is one eighth of a block, and
/// each level is an eighth higher.
pub proof fn every_level_gets_its_bar(levels: Seq<usize>)
    requires
        forall|i: int| 0 <= i < levels.len() ==> #[trigger] levels[i] <= 7,
    ensures
        bars(levels).len() == levels.len(),
        forall|i: int| 0 <= i < levels.len() ==> #[trigger] bars(levels)[i] as u32 == 0x2581 + levels[i],
    decreases levels.len(),
{
    if levels.len() > 0 {
        let front = levels.drop_last();
        assert forall|i: int| 0 <= i < front.len() implies #[trigger] front[i] <= 7 by {
            assert(levels[i] <= 7);
        }
        every_level_gets_its_bar(front);
        let last = levels[levels.len() - 1];
        assert(last <= 7);
        lemma_bar(last);
        assert forall|i: int| 0 <= i < levels.len() implies #[trigger] bars(levels)[i] as u32 == 0x2581
            + levels[i] by {
            if i < front.len() {
                assert(bars(levels)[i] == bars(front)[i]);
                assert(front[i] == levels[i]);
            }
        }
    }
}

proof fn lemma_bar(l: usize)
    requires
        l <= 7,
    ensures
        bar(l as int).len() == 1,
        bar(l as int)[0] as u32 == 0x2581 + l,
{
    reveal_strlit("\u{2581}");
    reveal_strlit("\u{2582}");
    reveal_strlit("\u{2583}");
    reveal_strlit("\u{2584}");
    reveal_strlit("\u{2585}");
    reveal_strlit("\u{2586}");
    reveal_strlit("\u{2587}");
    reveal_strlit("\u{2588}");
}

} // verus!
