//! The world's clock and sun.

use crate::measure::Real32;
use crate::render::config::RenderConfig;
use vstd::prelude::*;

verus! {

/// Height of the sun's direction beyond which it is nearly vertical: 0.95.
pub const STEEP: u32 = 0x3f73_3333;

/// The axis that the light is kept upright by.
#[derive(Clone, Copy, Debug, PartialEq, Eq, Structural)]
pub enum UpAxis {
    Y,
    Z,
}

/// The axis to keep the light upright by: never one that is nearly parallel to
/// the sun's direction. `height` is the vertical part of that direction.
pub fn sun_up(height: Real32) -> (r: UpAxis)
    ensures
        r == (if STEEP < height.magnitude() && !height.is_nan() {
            UpAxis::Z
        } else {
            UpAxis::Y
        }),
{
    let magnitude = Real32 {
        bits: if height.bits >= 0x8000_0000 {
            height.bits - 0x8000_0000
        } else {
            height.bits
        },
    };
    if (Real32 { bits: STEEP }).lt(magnitude) {
        UpAxis::Z
    } else {
        UpAxis::Y
    }
}

/// Whether the world's clock advances in this frame.
pub fn advance_world_time(cfg: &RenderConfig) -> (r: bool)
    ensures
        r == cfg.time_advances_automatically,
{
    cfg.time_advances_automatically
}

} // verus!
