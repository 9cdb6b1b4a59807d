//! The ways to make a collider of a brick.

use crate::physics::collider_gen::{
    brick_to_collider, compound_from_boxes, is_per_voxel, part_of, per_voxel_boxes, solid, unit_box, BoxPart, VoxBox,
};
use crate::voxel::Brick;
use vstd::prelude::*;

verus! {

/// Solid voxels are merged into a few boxes.
#[derive(Debug, Clone, Copy, PartialEq, Eq, Structural)]
pub struct GreedyBoxCompound {}

/// One box per solid voxel.
#[derive(Debug, Clone, Copy, PartialEq, Eq, Structural)]
pub struct PerVoxelCompound {}

/// How voxels become colliders.
#[derive(Debug, Clone, Copy, PartialEq, Eq, Structural)]
pub enum ColliderStrategy {
    GreedyBoxCompound(GreedyBoxCompound),
    PerVoxelCompound(PerVoxelCompound),
}

impl Default for GreedyBoxCompound {
    fn default() -> Self {
        GreedyBoxCompound {  }
    }
}

impl Default for PerVoxelCompound {
    fn default() -> Self {
        PerVoxelCompound {  }
    }
}

impl GreedyBoxCompound {
    pub fn name(&self) -> (r: &'static str)
        ensures
            r@ == "GreedyBoxCompound"@,
    {
        "GreedyBoxCompound"
    }

    /// The collider of a brick's merged boxes.
    pub fn build(&self, merged: &Vec<VoxBox>) -> (r: Option<Vec<BoxPart>>)
        ensures
            match r {
                None => merged@.len() == 0,
                Some(parts) => merged@.len() > 0 && parts@ == Seq::new(
                    merged@.len(),
                    |i: int| part_of(merged@[i]),
                ),
            },
    {
        brick_to_collider(merged)
    }
}

impl PerVoxelCompound {
    pub fn name(&self) -> (r: &'static str)
        ensures
            r@ == "PerVoxelCompound"@,
    {
        "PerVoxelCompound"
    }

    /// The collider of a brick; a brick without solid voxels has none.
    pub fn build(&self, brick: &Brick) -> (r: Option<Vec<BoxPart>>)
        requires
            brick.wf(),
        ensures
            r is None <==> (forall|x: int, y: int, z: int| !(#[trigger] solid(*brick, x, y, z))),
            r is Some ==> exists|boxes: Seq<VoxBox>| #[trigger]
                is_per_voxel(*brick, boxes) && r->0@ == Seq::new(boxes.len(), |i: int| part_of(boxes[i])),
    {
        let boxes: Vec<VoxBox> = per_voxel_boxes(brick);
        let r: Option<Vec<BoxPart>> = compound_from_boxes(&boxes);
        proof {
            assert forall|x: int, y: int, z: int| #[trigger] solid(*brick, x, y, z) implies boxes@.len() > 0 by {
                assert(boxes@.contains(unit_box(x, y, z)));
            }
            if boxes@.len() > 0 {
                assert(solid(*brick, boxes@[0].min.x as int, boxes@[0].min.y as int, boxes@[0].min.z as int));
            }
        }
        r
    }
}

} // verus!
