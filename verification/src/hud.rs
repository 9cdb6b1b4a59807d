//! Frame-time samples for the heads-up display, and the camera it draws on.

use crate::text::str_eq;
use crate::view_mode::ViewMode;
use std::collections::VecDeque;
use vstd::prelude::*;
use vstd::string::*;

verus! {

/// Most samples that a [`FrameDiagBuffer`] keeps.
pub const FRAME_DIAG_BUFFER_LEN: usize = 1024;

#[derive(Debug, Clone, Copy)]
pub struct FrameSample {
    pub frame: u64,
    pub micros: u64,
}

/// The most recent frame times, numbered by frame.
pub struct FrameDiagBuffer {
    samples: VecDeque<FrameSample>,
    next_frame: u64,
}

/// The last `n` entries of a sequence, or all of it where it is shorter.
pub open spec fn last_entries<T>(s: Seq<T>, n: int) -> Seq<T> {
    if s.len() <= n {
        s
    } else {
        s.skip(s.len() - n)
    }
}

impl Default for FrameDiagBuffer {
    fn default() -> (r: Self)
        ensures
            r.wf(),
            r@ == Seq::<FrameSample>::empty(),
            r.spec_next_frame() == 0,
    {
        let r = FrameDiagBuffer { samples: VecDeque::with_capacity(FRAME_DIAG_BUFFER_LEN), next_frame: 0 };
        proof {
            assert(r@ =~= Seq::<FrameSample>::empty());
        }
        r
    }
}

impl View for FrameDiagBuffer {
    type V = Seq<FrameSample>;

    /// The samples, oldest first.
    closed spec fn view(&self) -> Seq<FrameSample> {
        self.samples@
    }
}

impl FrameDiagBuffer {
    pub closed spec fn spec_next_frame(&self) -> u64 {
        self.next_frame
    }

    /// The buffer holds at most its capacity, and the frame numbers run up to
    /// the next one without a gap (around the end of the number range).
    pub open spec fn wf(&self) -> bool {
        &&& self@.len() <= FRAME_DIAG_BUFFER_LEN
        &&& forall|i: int|
            0 <= i < self@.len() ==> (#[trigger] self@[i]).frame as int == (self.spec_next_frame() - self@.len()
                + i) % 0x1_0000_0000_0000_0000
    }

    pub fn len(&self) -> (r: usize)
        ensures
            r as nat == self@.len(),
    {
        self.samples.len()
    }

    pub fn is_empty(&self) -> (r: bool)
        ensures
            r == (self@.len() == 0),
    {
        self.samples.len() == 0
    }

    pub fn capacity(&self) -> (r: usize)
        ensures
            r == FRAME_DIAG_BUFFER_LEN,
    {
        FRAME_DIAG_BUFFER_LEN
    }

    /// The samples, oldest first.
    pub fn samples(&self) -> (r: Vec<FrameSample>)
        ensures
            r@ == self@,
    {
        let mut out: Vec<FrameSample> = Vec::new();
        let mut i: usize = 0;
        while i < self.samples.len()
            invariant
                i <= self@.len(),
                out@ == self@.take(i as int),
            decreases self@.len() - i,
        {
            out.push(self.samples[i]);
            i += 1;
            proof {
                assert(out@ =~= self@.take(i as int));
            }
        }
        proof {
            assert(self@.take(i as int) =~= self@);
        }
        out
    }

    /// Records a frame time and returns the number given to the frame. A full
    /// buffer drops its oldest sample.
    pub fn push(&mut self, micros: u64) -> (frame: u64)
        requires
            old(self).wf(),
        ensures
            final(self).wf(),
            frame == old(self).spec_next_frame(),
            final(self).spec_next_frame() as int == (frame + 1) % 0x1_0000_0000_0000_0000,
            final(self)@ == last_entries(
                old(self)@.push(FrameSample { frame, micros }),
                FRAME_DIAG_BUFFER_LEN as int,
            ),
            final(self)@.len() == (if old(self)@.len() < 1024 {
                old(self)@.len() + 1
            } else {
                1024
            }),
            final(self)@.last().frame == frame && final(self)@.last().micros == micros,
            forall|i: int|
                0 <= i < final(self)@.len() - 1 ==> #[trigger] final(self)@[i] == old(self)@[i + old(self)@.len() + 1
                    - final(self)@.len()],
    {
        let frame: u64 = self.next_frame;
        let ghost before = self@;
        if self.samples.len() == FRAME_DIAG_BUFFER_LEN {
            let _ = self.samples.pop_front();
        }
        self.samples.push_back(FrameSample { frame, micros });
        self.next_frame = self.next_frame.wrapping_add(1);
        proof {
            let all = before.push(FrameSample { frame, micros });
            assert(self@ =~= last_entries(all, FRAME_DIAG_BUFFER_LEN as int));
            let drop = if before.len() == FRAME_DIAG_BUFFER_LEN {
                1int
            } else {
                0int
            };
            assert forall|i: int| 0 <= i < self@.len() implies (#[trigger] self@[i]).frame as int == (
            self.spec_next_frame() - self@.len() + i) % 0x1_0000_0000_0000_0000 by {
                let m = 0x1_0000_0000_0000_0000int;
                let old_next = old(self).spec_next_frame() as int;
                if i + drop < before.len() {
                    assert(self@[i] == before[i + drop]);
                    assert(self@[i].frame as int == (old_next - before.len() + i + drop) % m);
                } else {
                    assert(self@[i].frame == frame);
                }
                assert(self@.len() == before.len() + 1 - drop);
                if old_next + 1 == m {
                    assert(self.spec_next_frame() == 0);
                    let t = old_next - before.len() + i + drop;
                    assert(self.spec_next_frame() - self@.len() + i == t - m);
                    assert((t - m) % m == t % m);
                }
            }
        }
        frame
    }
}

/// What to do with the camera that one root of the display draws on.
#[derive(Clone, Copy, Debug, PartialEq, Eq, Structural)]
pub enum HudRoute {
    /// The camera does not exist yet.
    Wait,
    /// The root draws on the right camera already.
    Keep,
    /// Point the root's camera at this entity.
    Retarget(u64),
    /// Give the root this entity as its camera.
    Attach(u64),
}

/// Routes a root of the display to the camera that is active in `mode`: the
/// blit camera in the raster views, the world camera otherwise. `existing` is
/// the camera that the root draws on now.
pub fn route_hud_target(
    mode: ViewMode,
    blit_camera: Option<u64>,
    world_camera: Option<u64>,
    existing: Option<u64>,
) -> (r: HudRoute)
    ensures
        ({
            let camera = if mode is Slice || mode is Rts || mode is Overview {
                blit_camera
            } else {
                world_camera
            };
            r == match (camera, existing) {
                (None, _) => HudRoute::Wait,
                (Some(c), None) => HudRoute::Attach(c),
                (Some(c), Some(e)) => if c == e {
                    HudRoute::Keep
                } else {
                    HudRoute::Retarget(c)
                },
            }
        }),
{
    let raster: bool = matches!(mode, ViewMode::Slice | ViewMode::Rts | ViewMode::Overview);
    let camera: Option<u64> = if raster {
        blit_camera
    } else {
        world_camera
    };
    match camera {
        None => HudRoute::Wait,
        Some(target) => match existing {
            None => HudRoute::Attach(target),
            Some(current) => if current == target {
                HudRoute::Keep
            } else {
                HudRoute::Retarget(target)
            },
        },
    }
}

/// The line of the display that names the view, where it is not `shown`
/// already.
pub fn update_mode(mode: ViewMode, shown: &str) -> (r: Option<String>)
    ensures
        r is None <==> shown@ == "mode: "@ + mode.spec_label(),
        r is Some ==> r->0@ == "mode: "@ + mode.spec_label(),
{
    let want: String = String::from_str("mode: ").concat(mode.label());
    if str_eq(shown, want.as_str()) {
        None
    } else {
        Some(want)
    }
}

} // verus!
