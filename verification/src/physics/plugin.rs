//! Which bricks collide.

use crate::coord::IVec3;
use crate::voxel::Brick;
use crate::world_stream::LoadedChunks;
use vstd::prelude::*;

verus! {

/// The voxels that a brick's collider is made of: those that are resident, at
/// the finest level only. A coarse or absent brick does not collide.
pub fn attach_brick_colliders<'a>(loaded: &'a LoadedChunks, coord: IVec3, depth: u8) -> (r: Option<&'a Brick>)
    requires
        loaded.wf(),
    ensures
        match r {
            Some(b) => depth == 0 && loaded@.dom().contains((coord, 0u8)) && loaded@[(coord, 0u8)].brick
                == Some(*b) && b.wf(),
            None => depth != 0 || !loaded@.dom().contains((coord, 0u8)) || loaded@[(
                coord,
                0u8,
            )].brick is None,
        },
{
    proof {
        loaded.lemma_wf();
    }
    if depth != 0 {
        return None;
    }
    match loaded.get(&(coord, 0)) {
        Some(chunk) => chunk.brick.as_ref(),
        None => None,
    }
}

/// Whether a brick loses its collider: as soon as it fades out.
pub fn detach_brick_colliders(fading_out: bool, has_collider: bool) -> (r: bool)
    ensures
        r == (fading_out && has_collider),
{
    fading_out && has_collider
}

} // verus!
