//! Integer coordinates: voxel cells, the bricks that hold them, and the
//! level-of-detail pyramid over the bricks.

use vstd::prelude::*;

verus! {

/// Voxels along one edge of a brick.
pub const BRICK_EDGE: usize = 16;

/// Voxels in one brick.
pub const BRICK_LEN: usize = 4096;

/// A point of an integer grid: a voxel cell or a brick, as the context says.
#[derive(Clone, Copy, Debug, PartialEq, Eq, Structural, Hash)]
pub struct IVec3 {
    pub x: i64,
    pub y: i64,
    pub z: i64,
}

impl IVec3 {
    pub fn new(x: i64, y: i64, z: i64) -> (r: Self)
        ensures
            r == (IVec3 { x, y, z }),
    {
        IVec3 { x, y, z }
    }
}

/// A level of detail. Depth 0 is the finest; each step up doubles the edge
/// of a voxel.
#[derive(Clone, Copy, Debug, PartialEq, Eq, Structural, Hash)]
pub struct Lod {
    pub depth: u8,
}

impl Lod {
    pub fn new(depth: u8) -> (r: Self)
        ensures
            r == (Lod { depth }),
    {
        Lod { depth }
    }
}

/// A brick of one level of detail: its coordinate in that level's brick grid,
/// and the level's depth.
pub type ChunkKey = (IVec3, u8);

/// `a` divided by `m`, rounded toward negative infinity.
pub fn floor_div(a: i64, m: i64) -> (r: i64)
    requires
        m > 0,
    ensures
        r as int == a as int / m as int,
{
    proof {
        assert(i64::MIN <= a as int / m as int <= i64::MAX) by (nonlinear_arith)
            requires
                m > 0,
                i64::MIN <= a <= i64::MAX,
        ;
    }
    a.checked_div_euclid(m).unwrap()
}

/// What [`floor_div`] leaves over, from 0 up to below `m`.
pub fn floor_rem(a: i64, m: i64) -> (r: i64)
    requires
        m > 0,
    ensures
        r as int == a as int % m as int,
{
    proof {
        assert(0 <= a as int % m as int <= i64::MAX) by (nonlinear_arith)
            requires
                0 < m <= i64::MAX,
        ;
    }
    a.checked_rem_euclid(m).unwrap()
}

/// The brick of the next coarser level that covers `key`'s brick: half the
/// coordinate on each axis, rounded down, one level up.
pub open spec fn parent_of(key: ChunkKey) -> ChunkKey {
    (
        IVec3 {
            x: (key.0.x as int / 2) as i64,
            y: (key.0.y as int / 2) as i64,
            z: (key.0.z as int / 2) as i64,
        },
        (key.1 + 1) as u8,
    )
}

/// `(coord, depth)` of the brick that immediately covers `(coord, depth)`.
///
/// Halves are rounded down, not toward zero, so a negative coordinate falls
/// into the brick that really contains it.
pub fn parent_key(key: ChunkKey) -> (r: ChunkKey)
    requires
        key.1 < 255,
    ensures
        r == parent_of(key),
        r.1 == key.1 + 1,
        2 * r.0.x <= key.0.x <= 2 * r.0.x + 1,
        2 * r.0.y <= key.0.y <= 2 * r.0.y + 1,
        2 * r.0.z <= key.0.z <= 2 * r.0.z + 1,
{
    (
        IVec3 { x: floor_div(key.0.x, 2), y: floor_div(key.0.y, 2), z: floor_div(key.0.z, 2) },
        key.1 + 1,
    )
}

/// Dictionary order of keys: by x, y, z and then depth.
pub open spec fn key_before(a: ChunkKey, b: ChunkKey) -> bool {
    ||| a.0.x < b.0.x
    ||| a.0.x == b.0.x && a.0.y < b.0.y
    ||| a.0.x == b.0.x && a.0.y == b.0.y && a.0.z < b.0.z
    ||| a.0.x == b.0.x && a.0.y == b.0.y && a.0.z == b.0.z && a.1 < b.1
}

/// Whether `a` comes before `b` in dictionary order.
pub fn key_lt(a: ChunkKey, b: ChunkKey) -> (r: bool)
    ensures
        r == key_before(a, b),
        a.0.x != b.0.x ==> (r <==> a.0.x < b.0.x),
        a.0.x == b.0.x && a.0.y != b.0.y ==> (r <==> a.0.y < b.0.y),
        a.0.x == b.0.x && a.0.y == b.0.y && a.0.z != b.0.z ==> (r <==> a.0.z < b.0.z),
        a.0 == b.0 ==> (r <==> a.1 < b.1),
{
    if a.0.x != b.0.x {
        a.0.x < b.0.x
    } else if a.0.y != b.0.y {
        a.0.y < b.0.y
    } else if a.0.z != b.0.z {
        a.0.z < b.0.z
    } else {
        a.1 < b.1
    }
}

/// Whether `child` is one of the bricks that `parent` covers: one level finer,
/// inside the two-brick span of the parent on every axis.
pub open spec fn covers(parent: ChunkKey, child: ChunkKey) -> bool {
    &&& parent.1 == child.1 + 1
    &&& 2 * parent.0.x <= child.0.x <= 2 * parent.0.x + 1
    &&& 2 * parent.0.y <= child.0.y <= 2 * parent.0.y + 1
    &&& 2 * parent.0.z <= child.0.z <= 2 * parent.0.z + 1
}

/// A brick's parent is the one brick of the next level that covers it.
pub proof fn parent_is_the_cover(parent: ChunkKey, child: ChunkKey)
    requires
        child.1 < 255,
    ensures
        parent == parent_of(child) <==> covers(parent, child),
{
    if covers(parent, child) {
        assert(parent.0.x as int == child.0.x as int / 2);
        assert(parent.0.y as int == child.0.y as int / 2);
        assert(parent.0.z as int == child.0.z as int / 2);
        assert(parent.0 == parent_of(child).0);
        assert(parent == parent_of(child));
    }
}

} // verus!
