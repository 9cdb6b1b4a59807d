//! The physics configuration.

use crate::cli::{ColliderArg, PhysicsToggle};
use crate::measure::Real32;
use crate::physics::defaults::{ColliderStrategy, GreedyBoxCompound, PerVoxelCompound};
use vstd::prelude::*;

verus! {

/// An acceleration along the three axes.
#[derive(Debug, Clone, Copy, PartialEq, Eq, Structural)]
pub struct Pull {
    pub x: Real32,
    pub y: Real32,
    pub z: Real32,
}

#[derive(Debug, Clone, Copy, PartialEq, Eq, Structural)]
pub struct PhysicsConfig {
    /// Without it no physics system runs.
    pub enabled: bool,
    pub collider: ColliderStrategy,
    /// Pull along x, y and z, in meters per second squared.
    pub gravity: Pull,
    /// Edge of a voxel, in meters.
    pub voxel_size_m: Real32,
}

/// Physics on, merged boxes, the pull of the earth, voxels of one meter.
pub open spec fn default_physics() -> PhysicsConfig {
    PhysicsConfig {
        enabled: true,
        collider: ColliderStrategy::GreedyBoxCompound(GreedyBoxCompound {  }),
        gravity: Pull {
            x: Real32 { bits: 0 },
            y: Real32 { bits: 0xc11c_f5c3 },
            z: Real32 { bits: 0 },
        },
        voxel_size_m: Real32 { bits: 0x3f80_0000 },
    }
}

impl Default for PhysicsConfig {
    fn default() -> (r: Self)
        ensures
            r == default_physics(),
            r.enabled && r.collider is GreedyBoxCompound && r.voxel_size_m.bits == 0x3f80_0000,
            r.gravity.x.bits == 0 && r.gravity.y.bits == 0xc11c_f5c3 && r.gravity.z.bits == 0,
    {
        PhysicsConfig {
            enabled: true,
            collider: ColliderStrategy::GreedyBoxCompound(GreedyBoxCompound {  }),
            gravity: Pull {
                x: Real32 { bits: 0 },
                y: Real32 { bits: 0xc11c_f5c3 },
                z: Real32 { bits: 0 },
            },
            voxel_size_m: Real32 { bits: 0x3f80_0000 },
        }
    }
}

impl PhysicsConfig {
    /// The configuration of a run: scripted runs have no physics.
    pub fn for_run(physics: PhysicsToggle, collider: ColliderArg, scripted: bool) -> (r: Self)
        ensures
            r == (PhysicsConfig {
                enabled: physics is On && !scripted,
                collider: match collider {
                    ColliderArg::Greedy => ColliderStrategy::GreedyBoxCompound(GreedyBoxCompound {  }),
                    ColliderArg::PerVoxel => ColliderStrategy::PerVoxelCompound(PerVoxelCompound {  }),
                },
                ..default_physics()
            }),
            r.enabled <==> physics is On && !scripted,
            collider is Greedy <==> r.collider is GreedyBoxCompound,
            r.gravity.x.bits == 0 && r.gravity.y.bits == 0xc11c_f5c3 && r.gravity.z.bits == 0,
            r.voxel_size_m.bits == 0x3f80_0000,
    {
        let mut cfg = PhysicsConfig::default();
        cfg.enabled = physics == PhysicsToggle::On && !scripted;
        cfg.collider = match collider {
            ColliderArg::Greedy => ColliderStrategy::GreedyBoxCompound(GreedyBoxCompound {  }),
            ColliderArg::PerVoxel => ColliderStrategy::PerVoxelCompound(PerVoxelCompound {  }),
        };
        cfg
    }
}

} // verus!
