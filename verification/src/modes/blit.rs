//! The raster views draw into one fixed-size image that is shown full screen.

use crate::view_mode::ViewMode;
use vstd::prelude::*;

verus! {

/// Width of the raster image, in pixels.
pub const RASTER_W: u32 = 256;

/// Height of the raster image, in pixels.
pub const RASTER_H: u32 = 256;

/// Bytes of the raster image: four per pixel.
pub const RASTER_BYTES: usize = 262144;

/// A view that draws into the raster image.
pub open spec fn is_raster(mode: ViewMode) -> bool {
    mode is Slice || mode is Rts || mode is Overview
}

/// Whether the view draws into the raster image rather than with the world
/// camera.
pub fn raster_mode_active(mode: ViewMode) -> (r: bool)
    ensures
        r == is_raster(mode),
        r <==> !(mode is Fp) && !(mode is Tp),
{
    matches!(mode, ViewMode::Slice | ViewMode::Rts | ViewMode::Overview)
}

/// What is switched on in a view.
#[derive(Clone, Copy, Debug, PartialEq, Eq, Structural)]
pub struct BlitToggle {
    pub blit_camera: bool,
    pub world_camera: bool,
    pub sprite_visible: bool,
}

/// The cameras and the sprite of a view. Exactly one of the two cameras is
/// active, so that the world's clear colour never shows around the raster
/// image.
pub fn toggle_blit_visibility(mode: ViewMode) -> (r: BlitToggle)
    ensures
        r.blit_camera == is_raster(mode),
        r.world_camera == !r.blit_camera,
        r.world_camera <==> mode is Fp || mode is Tp,
        r.sprite_visible == r.blit_camera,
{
    let active: bool = raster_mode_active(mode);
    BlitToggle { blit_camera: active, world_camera: !active, sprite_visible: active }
}

/// Copies a rendered frame into the raster image's bytes. A frame of another
/// size is dropped: `false` comes back and the image keeps its bytes, as it
/// does where it has none on this side.
pub fn copy_framebuffer_to_image(image: &mut Option<Vec<u8>>, pixels: &Vec<u8>) -> (r: bool)
    requires
        *old(image) is Some ==> (*old(image))->0@.len() == RASTER_BYTES,
    ensures
        r == (pixels@.len() == RASTER_BYTES),
        *final(image) is Some <==> *old(image) is Some,
        *final(image) is Some ==> (*final(image))->0@ == (if r {
            pixels@
        } else {
            (*old(image))->0@
        }),
{
    if pixels.len() != RASTER_BYTES {
        return false;
    }
    match image.take() {
        Some(data) => {
            let mut out: Vec<u8> = data;
            let mut i: usize = 0;
            while i < RASTER_BYTES
                invariant
                    i <= RASTER_BYTES,
                    out@.len() == RASTER_BYTES,
                    pixels@.len() == RASTER_BYTES,
                    forall|k: int| 0 <= k < i ==> out@[k] == pixels@[k],
                decreases RASTER_BYTES - i,
            {
                out[i] = pixels[i];
                i += 1;
            }
            proof {
                assert(out@ =~= pixels@);
            }
            *image = Some(out);
        },
        None => {},
    }
    true
}

} // verus!
