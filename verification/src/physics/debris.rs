//! Falling pieces of broken structures.

use crate::coord::IVec3;
use crate::measure::Real32;
use crate::physics::collider_gen::{part_of, BoxPart, VoxBox};
use vstd::prelude::*;

verus! {

/// Longest life of a piece: 30 seconds.
pub const MAX_AGE_S: u32 = 0x41f0_0000;

/// Height below which a piece is gone: 512 meters below zero.
pub const KILL_Y: u32 = 0xc400_0000;

/// Shortest life of a piece that has come to rest: 1 second.
pub const MIN_SETTLE_S: u32 = 0x3f80_0000;

/// Whether a piece of this age and height is removed: it has come to rest, is
/// too old, or fell out of the world.
pub fn settle_and_despawn_debris(age: Real32, y: Real32, asleep: Option<bool>) -> (r: bool)
    ensures
        r == ((asleep == Some(true) && (Real32 { bits: MIN_SETTLE_S }).less(age)) || (Real32 {
            bits: MAX_AGE_S,
        }).less(age) || y.less(Real32 { bits: KILL_Y })),
        y.less(Real32 { bits: 0xc400_0000 }) ==> r,
        (Real32 { bits: 0x41f0_0000 }).less(age) ==> r,
        asleep == Some(true) && (Real32 { bits: 0x3f80_0000 }).less(age) ==> r,
        age.less_or_equal(Real32 { bits: 0x3f80_0000 }) && !y.less(Real32 { bits: 0xc400_0000 }) ==> !r,
        asleep != Some(true) && age.less_or_equal(Real32 { bits: 0x41f0_0000 }) && !y.less(Real32 { bits: 0xc400_0000 })
            ==> !r,
{
    let at_rest: bool = match asleep {
        Some(s) => s,
        None => false,
    };
    let settled: bool = at_rest && (Real32 { bits: MIN_SETTLE_S }).lt(age);
    settled || (Real32 { bits: MAX_AGE_S }).lt(age) || y.lt(Real32 { bits: KILL_Y })
}

/// A detached piece: where it lies, how large it is, the material of each of
/// its cells, and the boxes that its solid cells merge into.
#[derive(Debug)]
pub struct Island {
    pub origin: IVec3,
    pub dims: (u32, u32, u32),
    /// By x, then y, then z.
    pub material: Vec<u16>,
    pub boxes: Vec<VoxBox>,
}

/// Where the cell `(x, y, z)` of a piece stands in its material list.
pub open spec fn island_index(dims: (u32, u32, u32), x: int, y: int, z: int) -> int {
    x * dims.1 * dims.2 + y * dims.2 + z
}

impl Island {
    /// There is a material for every cell, and every box begins inside.
    pub open spec fn wf(&self) -> bool {
        &&& self.material@.len() == self.dims.0 * self.dims.1 * self.dims.2
        &&& self.dims.0 <= i32::MAX && self.dims.1 <= i32::MAX && self.dims.2 <= i32::MAX
        &&& forall|i: int|
            0 <= i < self.boxes@.len() ==> {
                let m = (#[trigger] self.boxes@[i]).min;
                0 <= m.x < self.dims.0 && 0 <= m.y < self.dims.1 && 0 <= m.z < self.dims.2
            }
    }
}

/// A box of a piece, as it is shown and as it collides.
#[derive(Clone, Copy, Debug, PartialEq, Eq, Structural)]
pub struct IslandPart {
    pub part: BoxPart,
    pub material: u16,
}

/// The part that a box of a piece makes, with the material of its lower corner.
pub open spec fn island_part(island: Island, i: int) -> IslandPart {
    let b = island.boxes@[i];
    IslandPart {
        part: part_of(b),
        material: island.material@[island_index(
            island.dims,
            b.min.x as int,
            b.min.y as int,
            b.min.z as int,
        )],
    }
}

proof fn lemma_index(dims: (u32, u32, u32), x: int, y: int, z: int)
    requires
        0 <= x < dims.0,
        0 <= y < dims.1,
        0 <= z < dims.2,
    ensures
        0 <= x * dims.1 * dims.2 + y * dims.2,
        0 <= x * dims.1 * dims.2,
        0 <= x * dims.1,
        0 <= y * dims.2,
        island_index(dims, x, y, z) < dims.0 * dims.1 * dims.2,
{
    let a = dims.0 as int;
    let b = dims.1 as int;
    let c = dims.2 as int;
    assert(0 <= x * b && x * b + b <= a * b) by (nonlinear_arith)
        requires
            0 <= x,
            x + 1 <= a,
            0 <= b,
    ;
    assert(0 <= y * c && y * c + c <= b * c) by (nonlinear_arith)
        requires
            0 <= y,
            y + 1 <= b,
            0 <= c,
    ;
    assert(0 <= (x * b) * c && (x * b + b) * c <= (a * b) * c) by (nonlinear_arith)
        requires
            0 <= x * b,
            x * b + b <= a * b,
            0 <= c,
    ;
    assert((x * b + b) * c == x * b * c + b * c) by (nonlinear_arith);
}

/// The parts of a piece; one without solid cells is not spawned.
pub fn spawn_island(island: &Island) -> (r: Option<Vec<IslandPart>>)
    requires
        island.wf(),
    ensures
        match r {
            None => island.boxes@.len() == 0,
            Some(parts) => island.boxes@.len() > 0 && parts@ == Seq::new(
                island.boxes@.len(),
                |i: int| island_part(*island, i),
            ),
        },
{
    if island.boxes.len() == 0 {
        return None;
    }
    let cells: usize = island.material.len();
    let mut parts: Vec<IslandPart> = Vec::new();
    let mut i: usize = 0;
    while i < island.boxes.len()
        invariant
            island.wf(),
            cells == island.material@.len(),
            i <= island.boxes@.len(),
            parts@.len() == i,
            forall|k: int| 0 <= k < i ==> #[trigger] parts@[k] == island_part(*island, k),
        decreases island.boxes@.len() - i,
    {
        let b: VoxBox = island.boxes[i];
        proof {
            assert(island.boxes@[i as int] == b);
            lemma_index(island.dims, b.min.x as int, b.min.y as int, b.min.z as int);
            assert(b.min.x * island.dims.1 <= b.min.x * island.dims.1 * island.dims.2) by (nonlinear_arith)
                requires
                    0 <= b.min.x * island.dims.1,
                    1 <= island.dims.2,
            ;
        }
        let at: usize = b.min.x as usize * island.dims.1 as usize * island.dims.2 as usize + b.min.y as usize
            * island.dims.2 as usize + b.min.z as usize;
        parts.push(
            IslandPart {
                part: BoxPart {
                    centre: IVec3 {
                        x: b.min.x as i64 + b.max.x as i64,
                        y: b.min.y as i64 + b.max.y as i64,
                        z: b.min.z as i64 + b.max.z as i64,
                    },
                    half: IVec3 {
                        x: b.max.x as i64 - b.min.x as i64,
                        y: b.max.y as i64 - b.min.y as i64,
                        z: b.max.z as i64 - b.min.z as i64,
                    },
                },
                material: island.material[at],
            },
        );
        i += 1;
    }
    proof {
        assert(parts@ =~= Seq::new(island.boxes@.len(), |k: int| island_part(*island, k)));
    }
    Some(parts)
}

/// The materials of a piece go by x, then y, then z: the first cell comes first,
/// and a step along z, y or x passes over one cell, a row or a layer.
pub proof fn materials_go_by_x_then_y_then_z(dims: (u32, u32, u32), x: int, y: int, z: int)
    ensures
        island_index(dims, 0, 0, 0) == 0,
        island_index(dims, x, y, z + 1) == island_index(dims, x, y, z) + 1,
        island_index(dims, x, y + 1, z) == island_index(dims, x, y, z) + dims.2,
        island_index(dims, x + 1, y, z) == island_index(dims, x, y, z) + dims.1 * dims.2,
{
    let (b, c) = (dims.1 as int, dims.2 as int);
    assert((x + 1) * b * c == x * b * c + b * c) by (nonlinear_arith);
    assert((y + 1) * c == y * c + c) by (nonlinear_arith);
    assert(0 * b * c == 0) by (nonlinear_arith);
}

/// A box of a piece is shown with the material of its lower corner, and spans
/// the box.
pub proof fn a_part_has_its_corner_material(island: Island, i: int)
    requires
        0 <= i < island.boxes@.len(),
    ensures
        ({
            let b = island.boxes@[i];
            let p = island_part(island, i);
            &&& p.material == island.material@[b.min.x * island.dims.1 * island.dims.2 + b.min.y
                * island.dims.2 + b.min.z]
            &&& p.part.centre.x - p.part.half.x == 2 * b.min.x && p.part.centre.x + p.part.half.x == 2 * b.max.x
            &&& p.part.centre.y - p.part.half.y == 2 * b.min.y && p.part.centre.y + p.part.half.y == 2 * b.max.y
            &&& p.part.centre.z - p.part.half.z == 2 * b.min.z && p.part.centre.z + p.part.half.z == 2 * b.max.z
        }),
{
}

} // verus!
