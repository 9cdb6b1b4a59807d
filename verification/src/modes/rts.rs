//! The strategy view: the surface seen from straight above.

use crate::input::{ButtonInput, KeyCode};
use crate::modes::raster_async::{framed, AsyncBuild, RasterFrame};
use crate::view_mode::ViewMode;
use vstd::prelude::*;

verus! {

/// Voxels across the surface raster.
pub const RTS_FOOTPRINT_VOX: u32 = 48;

/// Footprint of a raster: its centre in whole voxels. Turning and zooming move
/// the camera alone.
#[derive(Clone, Copy, Debug)]
pub struct RtsKey {
    pub x: i32,
    pub z: i32,
}

impl PartialEq for RtsKey {
    fn eq(&self, other: &Self) -> (r: bool) {
        self.x == other.x && self.z == other.z
    }
}

impl vstd::std_specs::cmp::PartialEqSpecImpl for RtsKey {
    open spec fn obeys_eq_spec() -> bool {
        true
    }

    open spec fn eq_spec(&self, other: &Self) -> bool {
        self.x == other.x && self.z == other.z
    }
}

/// How the camera changes in a frame.
#[derive(Clone, Copy, Debug, PartialEq, Eq, Structural)]
pub struct RtsControls {
    pub zoom_in: bool,
    pub zoom_out: bool,
    pub turn_left: bool,
    pub turn_right: bool,
}

/// The camera controls of a frame; none outside the strategy view. Zooming
/// takes a fresh press, turning goes on while a key is held.
pub fn rts_input(mode: ViewMode, keys: &ButtonInput) -> (r: Option<RtsControls>)
    ensures
        r == (if mode is Rts {
            Some(
                RtsControls {
                    zoom_in: keys.is_fresh(KeyCode::KeyQ) || keys.is_fresh(KeyCode::Equal),
                    zoom_out: keys.is_fresh(KeyCode::KeyE) || keys.is_fresh(KeyCode::Minus),
                    turn_left: keys.is_down(KeyCode::KeyZ),
                    turn_right: keys.is_down(KeyCode::KeyX),
                },
            )
        } else {
            None
        }),
{
    if mode != ViewMode::Rts {
        return None;
    }
    Some(
        RtsControls {
            zoom_in: keys.just_pressed(KeyCode::KeyQ) || keys.just_pressed(KeyCode::Equal),
            zoom_out: keys.just_pressed(KeyCode::KeyE) || keys.just_pressed(KeyCode::Minus),
            turn_left: keys.pressed(KeyCode::KeyZ),
            turn_right: keys.pressed(KeyCode::KeyX),
        },
    )
}

/// What the strategy view does in a frame.
pub enum RtsStep {
    /// Another view is active.
    Idle,
    /// A scripted run: build the raster for the live centre and draw it now.
    DrawLive,
    /// An interactive run: use the cache.
    Cached(RasterFrame<RtsKey>),
}

/// One frame of drawing. `key` is the footprint around the live centre, and
/// `arrived` a raster that the builder finished since the last frame, with its ticket.
pub fn rts_render<T>(
    cache: &mut AsyncBuild<T, RtsKey>,
    mode: ViewMode,
    scripted: bool,
    key: RtsKey,
    arrived: Option<(u64, T)>,
) -> (r: RtsStep)
    requires
        old(cache).wf(),
    ensures
        final(cache).wf(),
        !(mode is Rts) ==> r is Idle && *final(cache) == *old(cache),
        mode is Rts && scripted ==> r is DrawLive && *final(cache) == *old(cache),
        mode is Rts && !scripted ==> match r {
            RtsStep::Cached(f) => framed(*old(cache), *final(cache), key, arrived, f),
            _ => false,
        },
{
    if mode != ViewMode::Rts {
        return RtsStep::Idle;
    }
    if scripted {
        return RtsStep::DrawLive;
    }
    RtsStep::Cached(cache.frame(key, arrived))
}

} // verus!
