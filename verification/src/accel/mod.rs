//! Brick generation by a CPU or a GPU backend.

use crate::coord::IVec3;
use crate::voxel::Brick;
use vstd::prelude::*;

pub mod cuda;
pub mod strategy_kernels;

verus! {

/// A generator of terrain, which makes a brick of a seed and the brick's
/// coordinate.
pub trait BrickGenerator {
    fn generate_brick_legacy(&self, world_seed: u64, brick_coord: IVec3) -> (r: Brick)
        ensures
            r.wf(),
    ;
}

/// A backend that fills bricks.
pub trait Accelerator {
    /// The backend's name.
    fn backend(&self) -> (r: &'static str);

    /// Fills one brick.
    fn fill_brick(&self, world_seed: u64, brick_coord: IVec3) -> (r: Brick)
        ensures
            r.wf(),
    ;

    /// Fills many bricks, each as [`Accelerator::fill_brick`] does.
    fn fill_bricks_batch(&self, world_seed: u64, brick_coords: &Vec<IVec3>) -> (r: Vec<Brick>)
        ensures
            r@.len() == brick_coords@.len(),
            forall|i: int|
                0 <= i < r@.len() ==> (#[trigger] r@[i]).wf() && call_ensures(
                    Self::fill_brick,
                    (self, world_seed, brick_coords@[i]),
                    r@[i],
                ),
    {
        let mut out: Vec<Brick> = Vec::new();
        let mut i: usize = 0;
        while i < brick_coords.len()
            invariant
                i <= brick_coords@.len(),
                out@.len() == i,
                forall|k: int|
                    0 <= k < i ==> (#[trigger] out@[k]).wf() && call_ensures(
                        Self::fill_brick,
                        (self, world_seed, brick_coords@[k]),
                        out@[k],
                    ),
            decreases brick_coords@.len() - i,
        {
            out.push(self.fill_brick(world_seed, brick_coords[i]));
            i += 1;
        }
        out
    }
}

/// The CPU backend: it hands every brick to a generator.
#[derive(Debug)]
pub struct CpuAccelerator<G> {
    pub generator: G,
}

impl<G> CpuAccelerator<G> {
    pub fn new(generator: G) -> (r: Self)
        ensures
            r.generator == generator,
    {
        CpuAccelerator { generator }
    }
}

impl<G: BrickGenerator> Accelerator for CpuAccelerator<G> {
    fn backend(&self) -> (r: &'static str)
        ensures
            r@ == "cpu"@,
    {
        "cpu"
    }

    /// The brick is the one that the generator makes.
    fn fill_brick(&self, world_seed: u64, brick_coord: IVec3) -> (r: Brick)
        ensures
            call_ensures(G::generate_brick_legacy, (&self.generator, world_seed, brick_coord), r),
    {
        self.generator.generate_brick_legacy(world_seed, brick_coord)
    }
}

} // verus!
