//! The sky around the camera: when it is baked anew, and how a new one replaces
//! the old.

use crate::coord::{ChunkKey, IVec3};
use crate::measure::Real32;
use crate::order::{
    goes_before, is_selection, is_stable_order, lemma_select_next, lemma_select_none, stable_order,
};
use crate::world_stream::{LoadedChunk, LoadedChunks};
use vstd::prelude::*;

verus! {

/// Faces of a cube map.
pub const CUBE_FACE_COUNT: usize = 6;

/// Pixels along the edge of a face.
pub const SKYBOX_FACE_RESOLUTION: u32 = 256;

/// Fewest frames between two bakes.
pub const DEFAULT_MIN_FRAMES_BETWEEN_BAKES: u64 = 30;

/// How bright the sky is shown.
#[derive(Clone, Copy, Debug, PartialEq, Eq, Structural)]
pub enum Brightness {
    Fixed(Real32),
    /// On the way from one to the other.
    Blend { from: Real32, to: Real32 },
}

/// The sky in place, and the one that is about to replace it.
#[derive(Clone, Copy, Debug, PartialEq, Eq, Structural)]
pub struct SkyboxRuntime {
    /// The cube map that the camera shows.
    pub current_handle: u64,
    /// A baked cube map that is being faded in.
    pub next_handle: Option<u64>,
    pub last_brightness: Real32,
    pub next_brightness: Real32,
    /// The frame of the last bake; 0 before the first.
    pub last_refresh_frame: u64,
    pub min_frames_between_bakes: u64,
    pub frame_observed: u64,
}

/// What a frame knows of the sky.
#[derive(Clone, Copy, Debug)]
pub struct SkyFrame {
    /// The scene is set up.
    pub ready: bool,
    pub frame: u64,
    /// The observer has moved far enough for a new sky.
    pub should_refresh: bool,
}

impl SkyboxRuntime {
    pub fn new(placeholder: u64) -> (r: Self)
        ensures
            r == (SkyboxRuntime {
                current_handle: placeholder,
                next_handle: None,
                last_brightness: Real32 { bits: 0 },
                next_brightness: Real32 { bits: 0 },
                last_refresh_frame: 0,
                min_frames_between_bakes: DEFAULT_MIN_FRAMES_BETWEEN_BAKES,
                frame_observed: 0,
            }),
    {
        SkyboxRuntime {
            current_handle: placeholder,
            next_handle: None,
            last_brightness: Real32 { bits: 0 },
            next_brightness: Real32 { bits: 0 },
            last_refresh_frame: 0,
            min_frames_between_bakes: DEFAULT_MIN_FRAMES_BETWEEN_BAKES,
            frame_observed: 0,
        }
    }

    /// Enough frames have passed since the last bake; the first bake never
    /// waits.
    pub open spec fn has_budget(&self, frame: u64) -> bool {
        self.last_refresh_frame == 0 || (if frame >= self.last_refresh_frame {
            frame - self.last_refresh_frame >= self.min_frames_between_bakes
        } else {
            self.min_frames_between_bakes == 0
        })
    }

    pub fn budget_allows(&self, frame: u64) -> (r: bool)
        ensures
            r == self.has_budget(frame),
            self.last_refresh_frame == 0 ==> r,
            0 < self.last_refresh_frame <= frame ==> (r <==> self.last_refresh_frame + self.min_frames_between_bakes
                <= frame),
            frame < self.last_refresh_frame ==> (r <==> self.min_frames_between_bakes == 0),
    {
        self.last_refresh_frame == 0 || frame.saturating_sub(self.last_refresh_frame)
            >= self.min_frames_between_bakes
    }

    /// Whether to bake a sky in this frame.
    pub fn should_bake(&self, f: &SkyFrame) -> (r: bool)
        ensures
            r == (f.ready && f.should_refresh && self.has_budget(f.frame)),
    {
        f.ready && f.should_refresh && self.budget_allows(f.frame)
    }

    /// The brightness to show.
    pub fn current_brightness(&self) -> (r: Brightness)
        ensures
            r == (if self.next_handle is Some {
                Brightness::Blend { from: self.last_brightness, to: self.next_brightness }
            } else {
                Brightness::Fixed(self.last_brightness)
            }),
    {
        if self.next_handle.is_some() {
            Brightness::Blend { from: self.last_brightness, to: self.next_brightness }
        } else {
            Brightness::Fixed(self.last_brightness)
        }
    }

    /// The sky after a bake: the first is put in place at once, a later one is
    /// faded in.
    pub open spec fn baked(self, handle: u64, brightness: Real32, first: bool, frame: u64) -> SkyboxRuntime {
        if first {
            SkyboxRuntime {
                current_handle: handle,
                next_handle: None,
                last_brightness: brightness,
                next_brightness: brightness,
                last_refresh_frame: frame,
                ..self
            }
        } else {
            SkyboxRuntime {
                next_handle: Some(handle),
                next_brightness: brightness,
                last_refresh_frame: frame,
                ..self
            }
        }
    }

    /// The sky once its fade-in may have ended: with no sky left to fade in,
    /// the next one is in place.
    pub open spec fn settled(self, fading: bool) -> SkyboxRuntime {
        match self.next_handle {
            Some(h) if !fading => SkyboxRuntime {
                current_handle: h,
                next_handle: None,
                last_brightness: self.next_brightness,
                ..self
            },
            _ => self,
        }
    }

    /// One frame of the sky. `bake` is the cube map that was baked in this
    /// frame, with its brightness and whether it is the first; `fading` tells
    /// whether the observer still fades a sky in. What comes back is the cube
    /// map to show and its brightness; before the scene is ready, nothing
    /// happens.
    pub fn sync_skybox(
        &mut self,
        f: &SkyFrame,
        bake: Option<(u64, Real32, bool)>,
        fading: bool,
    ) -> (r: Option<(u64, Brightness)>)
        ensures
            r is Some <==> f.ready,
            !f.ready ==> *final(self) == *old(self),
            f.ready ==> final(self).frame_observed == f.frame && final(self).min_frames_between_bakes == old(self).min_frames_between_bakes,
            f.ready && bake is None && (fading || old(self).next_handle is None) ==> *final(self) == (SkyboxRuntime {
                frame_observed: f.frame,
                ..*old(self)
            }),
            f.ready && bake is None && !fading && old(self).next_handle is Some ==> Some(final(self).current_handle)
                == old(self).next_handle && final(self).last_brightness == old(self).next_brightness && final(self).next_handle is None && final(self).last_refresh_frame == old(self).last_refresh_frame,
            f.ready && bake is Some ==> final(self).last_refresh_frame == f.frame && final(self).next_brightness
                == (bake->0).1,
            f.ready && bake is Some && ((bake->0).2 || !fading) ==> final(self).current_handle == (bake->0).0 && final(self).last_brightness == (bake->0).1 && final(self).next_handle is None,
            f.ready && bake is Some && !(bake->0).2 && fading ==> final(self).next_handle == Some((bake->0).0) && final(self).current_handle == old(self).current_handle && final(self).last_brightness == old(self).last_brightness,
            f.ready ==> (r->0).0 == final(self).current_handle,
            f.ready && final(self).next_handle is None ==> (r->0).1 == Brightness::Fixed(final(self).last_brightness),
            f.ready && final(self).next_handle is Some ==> (r->0).1 == (Brightness::Blend {
                from: final(self).last_brightness,
                to: final(self).next_brightness,
            }),
            f.ready ==> ({
                let mid = match bake {
                    Some((handle, brightness, first)) => old(self).baked(handle, brightness, first, f.frame),
                    None => *old(self),
                };
                let done = mid.settled(fading);
                &&& *final(self) == (SkyboxRuntime { frame_observed: f.frame, ..done })
                &&& (r->0).0 == done.current_handle
                &&& (r->0).1 == (if done.next_handle is Some {
                    Brightness::Blend { from: done.last_brightness, to: done.next_brightness }
                } else {
                    Brightness::Fixed(done.last_brightness)
                })
            }),
    {
        if !f.ready {
            return None;
        }
        match bake {
            Some((handle, brightness, first)) => {
                if first {
                    self.current_handle = handle;
                    self.next_handle = None;
                    self.last_brightness = brightness;
                    self.next_brightness = brightness;
                } else {
                    self.next_handle = Some(handle);
                    self.next_brightness = brightness;
                }
                self.last_refresh_frame = f.frame;
            },
            None => {},
        }
        if !fading {
            match self.next_handle {
                Some(h) => {
                    self.current_handle = h;
                    self.next_handle = None;
                    self.last_brightness = self.next_brightness;
                },
                None => {},
            }
        }
        let shown: Brightness = self.current_brightness();
        self.frame_observed = f.frame;
        Some((self.current_handle, shown))
    }
}

/// A sky that was baked is in the end the one that is shown, at its own
/// brightness.
pub proof fn a_baked_sky_is_shown(s: SkyboxRuntime, handle: u64, brightness: Real32, first: bool, frame: u64)
    ensures
        s.baked(handle, brightness, first, frame).settled(false).current_handle == handle,
        s.baked(handle, brightness, first, frame).settled(false).last_brightness == brightness,
        s.baked(handle, brightness, first, frame).settled(false).next_handle is None,
{
}

/// After a bake there is none for the least number of frames, unless the frame
/// counter still stands at 0.
pub proof fn bakes_keep_their_distance(
    s: SkyboxRuntime,
    handle: u64,
    brightness: Real32,
    first: bool,
    frame: u64,
    later: u64,
)
    requires
        0 < frame <= later,
        later - frame < s.min_frames_between_bakes,
    ensures
        !s.baked(handle, brightness, first, frame).has_budget(later),
{
}

/// The bytes of a cube map: those of its faces, one after the other.
pub open spec fn faces_in_a_row(faces: Seq<Vec<u8>>) -> Seq<u8>
    decreases faces.len(),
{
    if faces.len() == 0 {
        Seq::empty()
    } else {
        faces_in_a_row(faces.drop_last()) + faces.last()@
    }
}

/// The bytes of a cube map.
pub fn cubemap_image(faces: &Vec<Vec<u8>>) -> (r: Vec<u8>)
    ensures
        r@ == faces_in_a_row(faces@),
{
    let mut bytes: Vec<u8> = Vec::new();
    let mut i: usize = 0;
    proof {
        assert(faces@.take(0) =~= Seq::<Vec<u8>>::empty());
    }
    while i < faces.len()
        invariant
            i <= faces@.len(),
            bytes@ == faces_in_a_row(faces@.take(i as int)),
        decreases faces@.len() - i,
    {
        let face: &Vec<u8> = &faces[i];
        let ghost before = bytes@;
        let mut j: usize = 0;
        proof {
            assert(before + face@.take(0) =~= before);
        }
        while j < face.len()
            invariant
                j <= face@.len(),
                bytes@ == before + face@.take(j as int),
            decreases face@.len() - j,
        {
            bytes.push(face[j]);
            j += 1;
            proof {
                assert(bytes@ =~= before + face@.take(j as int));
            }
        }
        proof {
            assert(face@.take(face@.len() as int) =~= face@);
            assert(faces@.take(i + 1).drop_last() =~= faces@.take(i as int));
            assert(faces@.take(i + 1).last() == faces@[i as int]);
        }
        i += 1;
    }
    proof {
        assert(faces@.take(faces@.len() as int) =~= faces@);
    }
    bytes
}

/// Faces of `n` bytes each stand at multiples of `n`.
pub proof fn faces_are_layers(faces: Seq<Vec<u8>>, n: int, f: int, i: int)
    requires
        forall|k: int| 0 <= k < faces.len() ==> (#[trigger] faces[k])@.len() == n,
        0 <= f < faces.len(),
        0 <= i < n,
    ensures
        faces_in_a_row(faces).len() == faces.len() * n,
        0 <= f * n + i < faces_in_a_row(faces).len(),
        faces_in_a_row(faces)[f * n + i] == faces[f]@[i],
    decreases faces.len(),
{
    lemma_row_len(faces, n);
    lemma_row_len(faces.drop_last(), n);
    let m = faces.len() - 1;
    assert(faces.last()@.len() == n);
    assert(faces.len() * n == m * n + n) by (nonlinear_arith)
        requires
            m == faces.len() - 1,
    ;
    if f < m {
        assert(faces.drop_last()[f] == faces[f]);
        assert forall|k: int| 0 <= k < faces.drop_last().len() implies (#[trigger] faces.drop_last()[k])@.len()
            == n by {
            assert(faces[k]@.len() == n);
        }
        faces_are_layers(faces.drop_last(), n, f, i);
    } else {
        assert(f * n + i - m * n == i);
    }
    assert(0 <= f * n) by (nonlinear_arith)
        requires
            0 <= f,
            0 <= n,
    ;
    assert(f * n + n <= faces.len() * n) by (nonlinear_arith)
        requires
            f + 1 <= faces.len(),
            0 <= n,
    ;
}

proof fn lemma_row_len(faces: Seq<Vec<u8>>, n: int)
    requires
        forall|k: int| 0 <= k < faces.len() ==> (#[trigger] faces[k])@.len() == n,
    ensures
        faces_in_a_row(faces).len() == faces.len() * n,
    decreases faces.len(),
{
    if faces.len() > 0 {
        let front = faces.drop_last();
        assert forall|k: int| 0 <= k < front.len() implies (#[trigger] front[k])@.len() == n by {
            assert(faces[k]@.len() == n);
        }
        lemma_row_len(front, n);
        assert(faces.last()@.len() == n);
        assert(faces.len() * n == (faces.len() - 1) * n + n) by (nonlinear_arith);
    } else {
        assert(faces.len() * n == 0) by (nonlinear_arith)
            requires
                faces.len() == 0,
        ;
    }
}

/// The bytes of the cube map that is shown before the first bake: one black,
/// clear pixel per face.
pub fn placeholder_cubemap_image() -> (r: Vec<u8>)
    ensures
        r@ == Seq::new(24, |i: int| 0u8),
{
    let mut bytes: Vec<u8> = Vec::new();
    let mut i: usize = 0;
    while i < 4 * CUBE_FACE_COUNT
        invariant
            i <= 24,
            bytes@.len() == i,
            forall|k: int| 0 <= k < i ==> bytes@[k] == 0u8,
        decreases 24 - i,
    {
        bytes.push(0);
        i += 1;
    }
    proof {
        assert(bytes@ =~= Seq::new(24, |i: int| 0u8));
    }
    bytes
}

/// The chunks that a bake draws: those of the coarsest level, each once.
pub fn far_ring(loaded: &LoadedChunks, far_depth: u8) -> (r: Vec<(IVec3, u8)>)
    ensures
        r@.no_duplicates(),
        forall|k: ChunkKey| #[trigger]
            r@.contains(k) <==> loaded@.dom().contains(k) && k.1 == far_depth,
{
    let keys: Vec<(IVec3, u8)> = loaded.keys();
    let mut out: Vec<(IVec3, u8)> = Vec::new();
    let mut i: usize = 0;
    while i < keys.len()
        invariant
            i <= keys@.len(),
            keys@.no_duplicates(),
            out@.no_duplicates(),
            forall|k: ChunkKey| #[trigger]
                out@.contains(k) <==> keys@.take(i as int).contains(k) && k.1 == far_depth,
        decreases keys@.len() - i,
    {
        let key: (IVec3, u8) = keys[i];
        let ghost a = keys@.take(i as int);
        let ghost b = keys@.take(i + 1);
        let ghost before = out@;
        proof {
            assert forall|k: ChunkKey| b.contains(k) <==> (a.contains(k) || k == key) by {
                if a.contains(k) {
                    let j = a.index_of(k);
                    assert(b[j] == k);
                }
                assert(b[i as int] == key);
                if b.contains(k) && k != key {
                    let j = b.index_of(k);
                    assert(a[j] == k);
                }
            }
            assert(!a.contains(key)) by {
                if a.contains(key) {
                    let j = a.index_of(key);
                    assert(keys@[j] == keys@[i as int]);
                }
            }
        }
        if key.1 == far_depth {
            proof {
                assert(!before.contains(key));
            }
            out.push(key);
            proof {
                assert forall|k: ChunkKey| #[trigger] out@.contains(k) <==> (before.contains(k) || k == key) by {
                    if before.contains(k) {
                        let j = before.index_of(k);
                        assert(out@[j] == k);
                    }
                    assert(out@[before.len() as int] == key);
                    if out@.contains(k) && k != key {
                        let j = out@.index_of(k);
                        assert(before[j] == k);
                    }
                }
                assert(out@.no_duplicates()) by {
                    assert forall|x: int, y: int| 0 <= x < out@.len() && 0 <= y < out@.len() && x != y implies out@[x]
                        != out@[y] by {
                        if x == before.len() {
                            assert(before.contains(before[y]));
                        } else if y == before.len() {
                            assert(before.contains(before[x]));
                        }
                    }
                }
            }
        }
        i += 1;
    }
    proof {
        assert(keys@.take(keys@.len() as int) =~= keys@);
        assert forall|k: ChunkKey| #[trigger] out@.contains(k) <==> loaded@.dom().contains(k) && k.1
            == far_depth by {
            assert(keys@.to_set().contains(k) <==> loaded@.dom().contains(k));
        }
    }
    out
}

/// A mesh that a bake draws: its number and its material.
#[derive(Clone, Copy, Debug, PartialEq, Eq, Structural)]
pub struct MeshNodeId {
    pub id: u64,
    pub material: u16,
}

pub open spec fn node_ranks(meshes: Seq<(u16, usize)>) -> Seq<i128> {
    Seq::new(meshes.len(), |i: int| meshes[i].0 as i128)
}

/// The first `n` meshes of a brick in sorted order, numbered by their place;
/// those without vertices are left out.
pub open spec fn numbered(meshes: Seq<(u16, usize)>, order: Seq<usize>, n: int) -> Seq<MeshNodeId>
    decreases n,
{
    if n <= 0 {
        Seq::empty()
    } else {
        let front = numbered(meshes, order, n - 1);
        let m = meshes[order[n - 1] as int];
        if m.1 > 0 {
            front.push(MeshNodeId { id: (n - 1) as u64, material: m.0 })
        } else {
            front
        }
    }
}

/// The meshes of a brick to draw, by material number. Each comes as its
/// material and its number of vertices.
pub fn brick_to_mesh_nodes(meshes: &Vec<(u16, usize)>) -> (r: Vec<MeshNodeId>)
    ensures
        exists|order: Seq<usize>| #[trigger]
            is_stable_order(node_ranks(meshes@), order) && r@ == numbered(
                meshes@,
                order,
                order.len() as int,
            ),
{
    let mut ranks: Vec<i128> = Vec::new();
    let mut i: usize = 0;
    while i < meshes.len()
        invariant
            i <= meshes@.len(),
            ranks@.len() == i,
            forall|k: int| 0 <= k < i ==> #[trigger] ranks@[k] == meshes@[k].0 as i128,
        decreases meshes@.len() - i,
    {
        ranks.push(meshes[i].0 as i128);
        i += 1;
    }
    proof {
        assert(ranks@ =~= node_ranks(meshes@));
    }
    let order: Vec<usize> = stable_order(&ranks);
    let mut out: Vec<MeshNodeId> = Vec::new();
    let mut j: usize = 0;
    while j < order.len()
        invariant
            j <= order@.len(),
            ranks@.len() == meshes@.len(),
            is_stable_order(ranks@, order@),
            out@ == numbered(meshes@, order@, j as int),
        decreases order@.len() - j,
    {
        proof {
            assert((order@[j as int] as int) < ranks@.len());
        }
        let m: (u16, usize) = meshes[order[j]];
        if m.1 > 0 {
            out.push(MeshNodeId { id: j as u64, material: m.0 });
        }
        j += 1;
    }
    out
}

proof fn lemma_numbered(meshes: Seq<(u16, usize)>, order: Seq<usize>, n: int) -> (at: Seq<int>)
    requires
        0 <= n <= order.len(),
    ensures
        is_selection(at, n, |j: int| meshes[order[j] as int].1 > 0),
        numbered(meshes, order, n).len() == at.len(),
        forall|p: int|
            0 <= p < at.len() ==> (#[trigger] numbered(meshes, order, n)[p]).id == at[p] as u64 && numbered(
                meshes,
                order,
                n,
            )[p].material == meshes[order[at[p]] as int].0,
    decreases n,
{
    let wanted = |j: int| meshes[order[j] as int].1 > 0;
    if n == 0 {
        lemma_select_none(wanted);
        Seq::<int>::empty()
    } else {
        let front = lemma_numbered(meshes, order, n - 1);
        lemma_select_next(front, n - 1, wanted)
    }
}

/// Every mesh of a brick that has vertices is drawn, once, and no other is: in
/// the order of the materials, meshes of one material in their order, and
/// numbered by its place among all meshes in that order.
pub proof fn every_mesh_with_vertices_is_drawn(meshes: Seq<(u16, usize)>, order: Seq<usize>) -> (at: Seq<int>)
    requires
        is_stable_order(node_ranks(meshes), order),
    ensures
        order.len() == meshes.len(),
        forall|i: int, j: int|
            0 <= i < j < order.len() ==> ({
                let a = meshes[#[trigger] order[i] as int].0;
                let b = meshes[#[trigger] order[j] as int].0;
                a <= b && (a == b ==> order[i] < order[j])
            }),
        is_selection(at, order.len() as int, |j: int| meshes[order[j] as int].1 > 0),
        numbered(meshes, order, order.len() as int).len() == at.len(),
        forall|p: int|
            0 <= p < at.len() ==> (#[trigger] numbered(meshes, order, order.len() as int)[p]).id == at[p] as u64
                && numbered(meshes, order, order.len() as int)[p].material == meshes[order[at[p]] as int].0,
{
    assert forall|i: int, j: int|
        0 <= i < j < order.len() implies ({
        let a = meshes[#[trigger] order[i] as int].0;
        let b = meshes[#[trigger] order[j] as int].0;
        a <= b && (a == b ==> order[i] < order[j])
    }) by {
        assert(goes_before(node_ranks(meshes), order[i] as int, order[j] as int));
        assert((order[i] as int) < meshes.len() && (order[j] as int) < meshes.len());
    }
    lemma_numbered(meshes, order, order.len() as int)
}

} // verus!
