//! The slice view: a horizontal band of the world seen from above.
//!
//! World `+Z` is up on the screen and world `-X` is to the right. The view pans
//! on its own, apart from the first-person camera.

use crate::input::{ButtonInput, KeyCode};
use crate::modes::blit::RASTER_W;
use crate::modes::raster_async::{framed, AsyncBuild, RasterFrame};
use crate::view_mode::ViewMode;
use vstd::prelude::*;

verus! {

/// Thickness of the visible band, in voxels.
pub const Z_BAND_THICKNESS: u8 = 3;

/// Voxels across the slice.
pub const SLICE_FOOTPRINT_VOX: u32 = 64;

/// Pixels of one voxel's tile; the footprint fills the raster image.
pub const SLICE_TILE_PX: u32 = 4;

/// Footprint of a slice: the corner with the lowest coordinates, and the top of
/// the band.
#[derive(Clone, Copy, Debug)]
pub struct SliceKey {
    pub min_x: i32,
    pub min_z: i32,
    pub z_band_top: i32,
}

impl PartialEq for SliceKey {
    fn eq(&self, other: &Self) -> (r: bool) {
        self.min_x == other.min_x && self.min_z == other.min_z && self.z_band_top == other.z_band_top
    }
}

impl vstd::std_specs::cmp::PartialEqSpecImpl for SliceKey {
    open spec fn obeys_eq_spec() -> bool {
        true
    }

    open spec fn eq_spec(&self, other: &Self) -> bool {
        self.min_x == other.min_x && self.min_z == other.min_z && self.z_band_top == other.z_band_top
    }
}

/// The slice view's own state, apart from its horizontal position.
#[derive(Debug)]
pub struct SliceState {
    /// Top of the visible band, in voxels.
    pub z_band_top: i32,
    /// The view of the previous frame.
    pub prev_mode: Option<ViewMode>,
}

impl Default for SliceState {
    fn default() -> (r: Self)
        ensures
            r.z_band_top == 6,
            r.prev_mode is None,
    {
        SliceState { z_band_top: 6, prev_mode: None }
    }
}

/// How the slice's centre moves in a frame.
#[derive(Clone, Copy, Debug, PartialEq, Eq, Structural)]
pub struct SlicePan {
    /// Move the centre to the first-person eye first.
    pub reseed: bool,
    /// Toward `+Z`.
    pub forward: bool,
    /// Toward `-Z`.
    pub back: bool,
    /// Toward `+X`.
    pub left: bool,
    /// Toward `-X`.
    pub right: bool,
    /// At the higher speed.
    pub fast: bool,
}

/// The band's top as the view is entered: the ground under the eye plus two, so
/// that the surface lies in the band, or the eye's own height where the ground
/// is unknown. Heights are rounded to whole voxels.
pub open spec fn band_on_entry(ground: Option<i32>, eye: i32) -> int {
    match ground {
        Some(h) => h + 2,
        None => eye as int,
    }
}

pub open spec fn band_up(keys: ButtonInput) -> bool {
    keys.is_fresh(KeyCode::KeyQ) || keys.is_fresh(KeyCode::Space) || keys.is_fresh(KeyCode::PageUp)
}

pub open spec fn band_down(keys: ButtonInput) -> bool {
    keys.is_fresh(KeyCode::KeyE) || keys.is_fresh(KeyCode::ControlLeft) || keys.is_fresh(
        KeyCode::ControlRight,
    ) || keys.is_fresh(KeyCode::PageDown)
}

/// The band's top after a frame in the slice view, before the shift by keys.
pub open spec fn band_base(state: SliceState, ground: Option<i32>, eye: i32) -> int {
    if state.prev_mode == Some(ViewMode::Slice) {
        state.z_band_top as int
    } else {
        band_on_entry(ground, eye)
    }
}

/// The band's top stays a 32-bit number through a frame.
pub open spec fn band_fits(
    state: SliceState,
    mode: ViewMode,
    keys: ButtonInput,
    ground: Option<i32>,
    eye: i32,
) -> bool {
    mode is Slice ==> {
        let base = band_base(state, ground, eye);
        &&& i32::MIN <= base <= i32::MAX
        &&& band_up(keys) ==> base < i32::MAX
        &&& band_down(keys) && !band_up(keys) ==> i32::MIN < base
    }
}

fn goes_up(keys: &ButtonInput) -> (r: bool)
    ensures
        r == band_up(*keys),
{
    keys.just_pressed(KeyCode::KeyQ) || keys.just_pressed(KeyCode::Space) || keys.just_pressed(
        KeyCode::PageUp,
    )
}

fn goes_down(keys: &ButtonInput) -> (r: bool)
    ensures
        r == band_down(*keys),
{
    keys.just_pressed(KeyCode::KeyE) || keys.just_pressed(KeyCode::ControlLeft) || keys.just_pressed(
        KeyCode::ControlRight,
    ) || keys.just_pressed(KeyCode::PageDown)
}

/// Whether the band's top stays a 32-bit number through a frame.
pub fn can_take_input(
    state: &SliceState,
    mode: ViewMode,
    keys: &ButtonInput,
    ground: Option<i32>,
    eye: i32,
) -> (r: bool)
    ensures
        r == band_fits(*state, mode, *keys, ground, eye),
{
    if mode != ViewMode::Slice {
        return true;
    }
    let was_slice: bool = match state.prev_mode {
        Some(m) => m == ViewMode::Slice,
        None => false,
    };
    let base: i64 = if was_slice {
        state.z_band_top as i64
    } else {
        match ground {
            Some(h) => h as i64 + 2,
            None => eye as i64,
        }
    };
    let (low, top): (i64, i64) = (i32::MIN as i64, i32::MAX as i64);
    let up: bool = goes_up(keys);
    low <= base && base <= top && (!up || base < top) && (up || !goes_down(keys) || low < base)
}

fn note_mode(state: &mut SliceState, mode: ViewMode) -> (entered: bool)
    ensures
        final(state).z_band_top == old(state).z_band_top,
        final(state).prev_mode == Some(mode),
        entered == (mode is Slice && old(state).prev_mode != Some(ViewMode::Slice)),
{
    let was_slice: bool = match state.prev_mode {
        Some(m) => m == ViewMode::Slice,
        None => false,
    };
    state.prev_mode = Some(mode);
    mode == ViewMode::Slice && !was_slice
}

/// One frame of input. Outside the slice view only the view is remembered.
/// Entering it seeds the band from `ground` and `eye`, and asks for the centre
/// to be seeded; the band then moves up or down by key, and the returned pan
/// says which way the centre moves.
pub fn slice_input(
    state: &mut SliceState,
    mode: ViewMode,
    keys: &ButtonInput,
    ground: Option<i32>,
    eye: i32,
) -> (r: Option<SlicePan>)
    requires
        band_fits(*old(state), mode, *keys, ground, eye),
    ensures
        final(state).prev_mode == Some(mode),
        !(mode is Slice) ==> r is None && final(state).z_band_top == old(state).z_band_top,
        mode is Slice ==> final(state).z_band_top as int == band_base(*old(state), ground, eye) + (
        if band_up(*keys) {
            1int
        } else {
            0int
        }) - (if band_down(*keys) {
            1int
        } else {
            0int
        }),
        mode is Slice ==> ({
            let up = keys.is_fresh(KeyCode::KeyQ) || keys.is_fresh(KeyCode::Space) || keys.is_fresh(KeyCode::PageUp);
            let down = keys.is_fresh(KeyCode::KeyE) || keys.is_fresh(KeyCode::ControlLeft) || keys.is_fresh(
                KeyCode::ControlRight,
            ) || keys.is_fresh(KeyCode::PageDown);
            let base = if old(state).prev_mode == Some(ViewMode::Slice) {
                old(state).z_band_top as int
            } else if ground is Some {
                ground->0 + 2
            } else {
                eye as int
            };
            &&& up == down ==> final(state).z_band_top == base
            &&& up && !down ==> final(state).z_band_top == base + 1
            &&& down && !up ==> final(state).z_band_top == base - 1
        }),
        mode is Slice ==> r == Some(
            SlicePan {
                reseed: old(state).prev_mode != Some(ViewMode::Slice),
                forward: keys.is_down(KeyCode::KeyW),
                back: keys.is_down(KeyCode::KeyS),
                left: keys.is_down(KeyCode::KeyA),
                right: keys.is_down(KeyCode::KeyD),
                fast: keys.is_down(KeyCode::ShiftLeft) || keys.is_down(KeyCode::ShiftRight),
            },
        ),
{
    let entered: bool = note_mode(state, mode);
    if mode != ViewMode::Slice {
        return None;
    }
    if entered {
        state.z_band_top = match ground {
            Some(h) => h + 2,
            None => eye,
        };
    }
    let pan = SlicePan {
        reseed: entered,
        forward: keys.pressed(KeyCode::KeyW),
        back: keys.pressed(KeyCode::KeyS),
        left: keys.pressed(KeyCode::KeyA),
        right: keys.pressed(KeyCode::KeyD),
        fast: keys.pressed(KeyCode::ShiftLeft) || keys.pressed(KeyCode::ShiftRight),
    };
    if goes_up(keys) {
        state.z_band_top += 1;
    }
    if goes_down(keys) {
        state.z_band_top -= 1;
    }
    Some(pan)
}

/// What the slice view does in a frame.
pub enum SliceStep {
    /// Another view is active.
    Idle,
    /// A scripted run: build the table for the live centre and draw it now, so
    /// that captures do not depend on a thread's timing.
    DrawLive,
    /// An interactive run: use the cache.
    Cached(RasterFrame<SliceKey>),
}

/// One frame of drawing. `key` is the footprint around the live centre, and
/// `arrived` a table that the builder finished since the last frame, with its ticket.
pub fn slice_render<T>(
    cache: &mut AsyncBuild<T, SliceKey>,
    mode: ViewMode,
    scripted: bool,
    key: SliceKey,
    arrived: Option<(u64, T)>,
) -> (r: SliceStep)
    requires
        old(cache).wf(),
    ensures
        final(cache).wf(),
        !(mode is Slice) ==> r is Idle && *final(cache) == *old(cache),
        mode is Slice && scripted ==> r is DrawLive && *final(cache) == *old(cache),
        mode is Slice && !scripted ==> match r {
            SliceStep::Cached(f) => framed(*old(cache), *final(cache), key, arrived, f),
            _ => false,
        },
{
    if mode != ViewMode::Slice {
        return SliceStep::Idle;
    }
    if scripted {
        return SliceStep::DrawLive;
    }
    SliceStep::Cached(cache.frame(key, arrived))
}

/// The footprint fills the raster image exactly.
pub proof fn tiles_fill_the_raster()
    ensures
        SLICE_TILE_PX * SLICE_FOOTPRINT_VOX == RASTER_W,
        SLICE_TILE_PX == RASTER_W / SLICE_FOOTPRINT_VOX,
{
}

} // verus!
