//! Collider strategies by name.

use crate::physics::config::PhysicsConfig;
use crate::physics::defaults::{ColliderStrategy, GreedyBoxCompound, PerVoxelCompound};
use crate::text::str_eq;
use vstd::prelude::*;

verus! {

/// The collider strategy that `name` stands for.
pub open spec fn collider_named(name: Seq<char>) -> Option<ColliderStrategy> {
    if name == "GreedyBoxCompound"@ || name == "greedy"@ {
        Some(ColliderStrategy::GreedyBoxCompound(GreedyBoxCompound {  }))
    } else if name == "PerVoxelCompound"@ || name == "per-voxel"@ || name == "per_voxel"@ {
        Some(ColliderStrategy::PerVoxelCompound(PerVoxelCompound {  }))
    } else {
        None
    }
}

/// Puts the strategy that `slot` and `name` stand for in place. The one slot is
/// `collider`. Where either is unknown, `false` comes back and nothing changes.
pub fn apply_strategy_by_name(cfg: &mut PhysicsConfig, slot: &str, name: &str) -> (r: bool)
    ensures
        r == (slot@ == "collider"@ && collider_named(name@) is Some),
        *final(cfg) == (if r {
            PhysicsConfig { collider: collider_named(name@)->0, ..*old(cfg) }
        } else {
            *old(cfg)
        }),
        r <==> slot@ == "collider"@ && (name@ == "GreedyBoxCompound"@ || name@ == "greedy"@ || name@
            == "PerVoxelCompound"@ || name@ == "per-voxel"@ || name@ == "per_voxel"@),
        r && (name@ == "GreedyBoxCompound"@ || name@ == "greedy"@) ==> final(cfg).collider is GreedyBoxCompound,
        r && (name@ == "PerVoxelCompound"@ || name@ == "per-voxel"@ || name@ == "per_voxel"@)
            ==> final(cfg).collider is PerVoxelCompound,
        final(cfg).enabled == old(cfg).enabled,
        final(cfg).gravity == old(cfg).gravity,
        final(cfg).voxel_size_m == old(cfg).voxel_size_m,
        !r ==> final(cfg).collider == old(cfg).collider,
{
    proof {
        reveal_strlit("GreedyBoxCompound");
        assert("GreedyBoxCompound"@.len() == 17);
        reveal_strlit("greedy");
        assert("greedy"@.len() == 6);
        reveal_strlit("PerVoxelCompound");
        assert("PerVoxelCompound"@.len() == 16);
        reveal_strlit("per-voxel");
        assert("per-voxel"@.len() == 9);
        reveal_strlit("per_voxel");
        assert("per_voxel"@.len() == 9);
    }
    if !str_eq(slot, "collider") {
        return false;
    }
    if str_eq(name, "GreedyBoxCompound") || str_eq(name, "greedy") {
        cfg.collider = ColliderStrategy::GreedyBoxCompound(GreedyBoxCompound {  });
        true
    } else if str_eq(name, "PerVoxelCompound") || str_eq(name, "per-voxel") || str_eq(name, "per_voxel") {
        cfg.collider = ColliderStrategy::PerVoxelCompound(PerVoxelCompound {  });
        true
    } else {
        false
    }
}

} // verus!
