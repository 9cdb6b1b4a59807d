//! Kernels of single generation stages, and the inputs on which a kernel has to
//! agree with its CPU reference.

use crate::coord::IVec3;
use vstd::prelude::*;

verus! {

/// A GPU kernel of one generation stage.
pub trait StrategyKernel {
    fn name(&self) -> &'static str;

    /// Number of kernel launches so far.
    fn launch_count(&self) -> u64;
}

/// An input on which a kernel and its CPU reference agree bit for bit.
#[derive(Debug, Clone, Copy, PartialEq, Eq, Structural)]
pub struct ParityCase {
    pub world_seed: u64,
    pub brick_coord: IVec3,
}

/// The canonical inputs; no two are the same.
pub fn parity_cases() -> (r: Vec<ParityCase>)
    ensures
        r@ == seq![
            ParityCase {
                world_seed: 0x1234_5678_9ABC_DEF0,
                brick_coord: IVec3 { x: 0, y: 0, z: 0 },
            },
            ParityCase {
                world_seed: 0xDEAD_BEEF_CAFE_F00D,
                brick_coord: IVec3 { x: 5, y: -3i64, z: 2 },
            },
            ParityCase { world_seed: 7, brick_coord: IVec3 { x: -2i64, y: -2i64, z: -2i64 } },
        ],
        r@.no_duplicates(),
{
    let mut r: Vec<ParityCase> = Vec::new();
    r.push(
        ParityCase { world_seed: 0x1234_5678_9ABC_DEF0, brick_coord: IVec3 { x: 0, y: 0, z: 0 } },
    );
    r.push(
        ParityCase { world_seed: 0xDEAD_BEEF_CAFE_F00D, brick_coord: IVec3 { x: 5, y: -3, z: 2 } },
    );
    r.push(ParityCase { world_seed: 7, brick_coord: IVec3 { x: -2, y: -2, z: -2 } });
    r
}

} // verus!
