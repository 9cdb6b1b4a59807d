//! Boxes of solid voxels, and the parts of a collider that they make.

use crate::coord::{IVec3, BRICK_EDGE};
use crate::voxel::{in_brick, Brick};
use vstd::prelude::*;

verus! {

/// A corner of a box, in voxels.
#[derive(Clone, Copy, Debug, PartialEq, Eq, Structural)]
pub struct Corner {
    pub x: i32,
    pub y: i32,
    pub z: i32,
}

/// A box of voxels, from `min` up to below `max`.
#[derive(Clone, Copy, Debug, PartialEq, Eq, Structural)]
pub struct VoxBox {
    pub min: Corner,
    pub max: Corner,
}

impl VoxBox {
    /// The edges' lengths fit in 32 bits.
    pub open spec fn measurable(self) -> bool {
        &&& i32::MIN <= self.max.x - self.min.x <= i32::MAX
        &&& i32::MIN <= self.max.y - self.min.y <= i32::MAX
        &&& i32::MIN <= self.max.z - self.min.z <= i32::MAX
    }

    /// The edges' lengths.
    pub fn size(&self) -> (r: Corner)
        requires
            self.measurable(),
        ensures
            r.x == self.max.x - self.min.x,
            r.y == self.max.y - self.min.y,
            r.z == self.max.z - self.min.z,
    {
        Corner {
            x: self.max.x - self.min.x,
            y: self.max.y - self.min.y,
            z: self.max.z - self.min.z,
        }
    }

    /// The box holds the cell `(x, y, z)`.
    pub open spec fn holds(self, x: int, y: int, z: int) -> bool {
        &&& self.min.x <= x < self.max.x
        &&& self.min.y <= y < self.max.y
        &&& self.min.z <= z < self.max.z
    }
}

/// The box around one cell.
pub open spec fn unit_box(x: int, y: int, z: int) -> VoxBox {
    VoxBox {
        min: Corner { x: x as i32, y: y as i32, z: z as i32 },
        max: Corner { x: (x + 1) as i32, y: (y + 1) as i32, z: (z + 1) as i32 },
    }
}

/// The cell `(x, y, z)` of a brick is solid.
pub open spec fn solid(brick: Brick, x: int, y: int, z: int) -> bool {
    &&& 0 <= x < 16
    &&& 0 <= y < 16
    &&& 0 <= z < 16
    &&& !brick.at(IVec3 { x: x as i64, y: y as i64, z: z as i64 }).spec_is_empty()
}

/// Boxes by x, then y, then z of their lower corner.
pub open spec fn box_before(a: VoxBox, b: VoxBox) -> bool {
    ||| a.min.x < b.min.x
    ||| a.min.x == b.min.x && a.min.y < b.min.y
    ||| a.min.x == b.min.x && a.min.y == b.min.y && a.min.z < b.min.z
}

/// One box per solid cell of a brick, by x, then y, then z.
pub open spec fn is_per_voxel(brick: Brick, boxes: Seq<VoxBox>) -> bool {
    &&& forall|x: int, y: int, z: int|
        #![trigger unit_box(x, y, z)]
        0 <= x < 16 && 0 <= y < 16 && 0 <= z < 16 ==> (boxes.contains(unit_box(x, y, z)) <==> solid(
            brick,
            x,
            y,
            z,
        ))
    &&& forall|i: int|
        0 <= i < boxes.len() ==> #[trigger] boxes[i] == unit_box(
            boxes[i].min.x as int,
            boxes[i].min.y as int,
            boxes[i].min.z as int,
        ) && solid(brick, boxes[i].min.x as int, boxes[i].min.y as int, boxes[i].min.z as int)
    &&& forall|i: int, j: int| 0 <= i < j < boxes.len() ==> box_before(#[trigger] boxes[i], #[trigger] boxes[j])
}

/// One box per solid voxel, by x, then y, then z.
pub fn per_voxel_boxes(brick: &Brick) -> (r: Vec<VoxBox>)
    requires
        brick.wf(),
    ensures
        is_per_voxel(*brick, r@),
        r@.len() == solid_cells(*brick).len(),
        total_volume(r@) == solid_cells(*brick).len(),
{
    let mut out: Vec<VoxBox> = Vec::new();
    let edge: i32 = BRICK_EDGE as i32;
    let mut x: i32 = 0;
    while x < edge
        invariant
            edge == 16,
            0 <= x <= 16,
            brick.wf(),
            forall|i: int|
                0 <= i < out@.len() ==> #[trigger] out@[i] == unit_box(
                    out@[i].min.x as int,
                    out@[i].min.y as int,
                    out@[i].min.z as int,
                ) && solid(*brick, out@[i].min.x as int, out@[i].min.y as int, out@[i].min.z as int)
                    && out@[i].min.x < x,
            forall|i: int, j: int| 0 <= i < j < out@.len() ==> box_before(#[trigger] out@[i], #[trigger] out@[j]),
            forall|a: int, b: int, c: int|
                #![trigger unit_box(a, b, c)]
                0 <= a < x && solid(*brick, a, b, c) ==> out@.contains(unit_box(a, b, c)),
        decreases 16 - x,
    {
        let mut y: i32 = 0;
        while y < edge
            invariant
                edge == 16,
                0 <= x < 16,
                0 <= y <= 16,
                brick.wf(),
                forall|i: int|
                    0 <= i < out@.len() ==> #[trigger] out@[i] == unit_box(
                        out@[i].min.x as int,
                        out@[i].min.y as int,
                        out@[i].min.z as int,
                    ) && solid(*brick, out@[i].min.x as int, out@[i].min.y as int, out@[i].min.z as int) && (
                    out@[i].min.x < x || (out@[i].min.x == x && out@[i].min.y < y)),
                forall|i: int, j: int|
                    0 <= i < j < out@.len() ==> box_before(#[trigger] out@[i], #[trigger] out@[j]),
                forall|a: int, b: int, c: int|
                    #![trigger unit_box(a, b, c)]
                    (0 <= a < x || (a == x && 0 <= b < y)) && solid(*brick, a, b, c) ==> out@.contains(
                        unit_box(a, b, c),
                    ),
            decreases 16 - y,
        {
            let mut z: i32 = 0;
            while z < edge
                invariant
                    edge == 16,
                    0 <= x < 16,
                    0 <= y < 16,
                    0 <= z <= 16,
                    brick.wf(),
                    forall|i: int|
                        0 <= i < out@.len() ==> #[trigger] out@[i] == unit_box(
                            out@[i].min.x as int,
                            out@[i].min.y as int,
                            out@[i].min.z as int,
                        ) && solid(*brick, out@[i].min.x as int, out@[i].min.y as int, out@[i].min.z as int) && (
                        out@[i].min.x < x || (out@[i].min.x == x && (out@[i].min.y < y || (out@[i].min.y == y
                            && out@[i].min.z < z)))),
                    forall|i: int, j: int|
                        0 <= i < j < out@.len() ==> box_before(#[trigger] out@[i], #[trigger] out@[j]),
                    forall|a: int, b: int, c: int|
                        #![trigger unit_box(a, b, c)]
                        (0 <= a < x || (a == x && (0 <= b < y || (b == y && 0 <= c < z)))) && solid(
                            *brick,
                            a,
                            b,
                            c,
                        ) ==> out@.contains(unit_box(a, b, c)),
                decreases 16 - z,
            {
                let cell = IVec3 { x: x as i64, y: y as i64, z: z as i64 };
                let v = brick.get(cell);
                let ghost before = out@;
                if !v.is_empty() {
                    out.push(
                        VoxBox {
                            min: Corner { x, y, z },
                            max: Corner { x: x + 1, y: y + 1, z: z + 1 },
                        },
                    );
                }
                proof {
                    assert forall|a: int, b: int, c: int|
                        #![trigger unit_box(a, b, c)]
                        (0 <= a < x || (a == x && (0 <= b < y || (b == y && 0 <= c < z + 1)))) && solid(
                            *brick,
                            a,
                            b,
                            c,
                        ) implies out@.contains(unit_box(a, b, c)) by {
                        if a == x && b == y && c == z {
                            assert(out@[before.len() as int] == unit_box(a, b, c));
                        } else {
                            assert(before.contains(unit_box(a, b, c)));
                            let i = before.index_of(unit_box(a, b, c));
                            assert(out@[i] == unit_box(a, b, c));
                        }
                    }
                }
                z += 1;
            }
            y += 1;
        }
        x += 1;
    }
    proof {
        assert forall|a: int, b: int, c: int|
            #![trigger unit_box(a, b, c)]
            0 <= a < 16 && 0 <= b < 16 && 0 <= c < 16 implies (out@.contains(unit_box(a, b, c)) <==> solid(
            *brick,
            a,
            b,
            c,
        )) by {
            if out@.contains(unit_box(a, b, c)) {
                let i = out@.index_of(unit_box(a, b, c));
                assert(out@[i].min.x == a);
                assert(out@[i].min.y == b);
                assert(out@[i].min.z == c);
            }
        }
        per_voxel_boxes_count_the_solid(*brick, out@);
    }
    out
}

/// The boxes of [`per_voxel_boxes`] hold exactly the solid cells, each in one
/// box.
pub proof fn per_voxel_boxes_cover_the_solid(brick: Brick, boxes: Seq<VoxBox>, x: int, y: int, z: int)
    requires
        is_per_voxel(brick, boxes),
    ensures
        solid(brick, x, y, z) <==> exists|i: int| 0 <= i < boxes.len() && (#[trigger] boxes[i]).holds(x, y, z),
        forall|i: int, j: int|
            0 <= i < j < boxes.len() ==> !((#[trigger] boxes[i]).holds(x, y, z) && (#[trigger] boxes[j]).holds(
                x,
                y,
                z,
            )),
{
    if solid(brick, x, y, z) {
        let u = unit_box(x, y, z);
        assert(boxes.contains(u));
        let i = boxes.index_of(u);
        assert(boxes[i].holds(x, y, z));
    }
    if exists|i: int| 0 <= i < boxes.len() && (#[trigger] boxes[i]).holds(x, y, z) {
        let i = choose|i: int| 0 <= i < boxes.len() && (#[trigger] boxes[i]).holds(x, y, z);
        assert(boxes[i].min.x == x);
        assert(boxes[i].min.y == y);
        assert(boxes[i].min.z == z);
    }
    assert forall|i: int, j: int| 0 <= i < j < boxes.len() implies !((#[trigger] boxes[i]).holds(x, y, z)
        && (#[trigger] boxes[j]).holds(x, y, z)) by {
        assert(box_before(boxes[i], boxes[j]));
    }
}

/// The solid cells of a brick.
pub open spec fn solid_cells(brick: Brick) -> Set<(int, int, int)> {
    Set::new(|c: (int, int, int)| solid(brick, c.0, c.1, c.2))
}

/// The cells of a box with the given bounds.
pub open spec fn grid(x0: int, x1: int, y0: int, y1: int, z0: int, z1: int) -> Set<(int, int, int)> {
    Set::new(
        |c: (int, int, int)| x0 <= c.0 < x1 && y0 <= c.1 < y1 && z0 <= c.2 < z1,
    )
}

impl VoxBox {
    /// The cells that the box holds.
    pub open spec fn cells(self) -> Set<(int, int, int)> {
        grid(
            self.min.x as int,
            self.max.x as int,
            self.min.y as int,
            self.max.y as int,
            self.min.z as int,
            self.max.z as int,
        )
    }

    /// The box is not empty.
    pub open spec fn is_solid(self) -> bool {
        self.min.x < self.max.x && self.min.y < self.max.y && self.min.z < self.max.z
    }

    /// The product of the edges' lengths.
    pub open spec fn spec_volume(self) -> int {
        (self.max.x - self.min.x) * (self.max.y - self.min.y) * (self.max.z - self.min.z)
    }
}

/// The volume of boxes together.
pub open spec fn total_volume(boxes: Seq<VoxBox>) -> int
    decreases boxes.len(),
{
    if boxes.len() == 0 {
        0
    } else {
        total_volume(boxes.drop_last()) + boxes.last().spec_volume()
    }
}

/// The boxes are not empty, no cell lies in two of them, and together they hold
/// exactly the solid cells.
pub open spec fn is_cover(brick: Brick, boxes: Seq<VoxBox>) -> bool {
    &&& forall|i: int| 0 <= i < boxes.len() ==> (#[trigger] boxes[i]).is_solid()
    &&& forall|i: int, j: int|
        0 <= i < j < boxes.len() ==> (#[trigger] boxes[i]).cells().disjoint((#[trigger] boxes[j]).cells())
    &&& forall|x: int, y: int, z: int| #[trigger]
        solid(brick, x, y, z) <==> exists|i: int| 0 <= i < boxes.len() && (#[trigger] boxes[i]).holds(x, y, z)
}

proof fn lemma_grid(x0: int, x1: int, y0: int, y1: int, z0: int, z1: int)
    requires
        x0 < x1,
        y0 < y1,
        z0 < z1,
    ensures
        grid(x0, x1, y0, y1, z0, z1).finite(),
        grid(x0, x1, y0, y1, z0, z1).len() == (x1 - x0) * (y1 - y0) * (z1 - z0),
    decreases (x1 - x0) + (y1 - y0) + (z1 - z0),
{
    let all = grid(x0, x1, y0, y1, z0, z1);
    if x1 - x0 > 1 {
        let (a, b) = (grid(x0, x1 - 1, y0, y1, z0, z1), grid(x1 - 1, x1, y0, y1, z0, z1));
        lemma_grid(x0, x1 - 1, y0, y1, z0, z1);
        lemma_grid(x1 - 1, x1, y0, y1, z0, z1);
        assert(all =~= a + b);
        vstd::set_lib::lemma_set_disjoint_lens(a, b);
        let (n, m, k) = (x1 - x0, y1 - y0, z1 - z0);
        assert((n - 1) * m * k + 1 * m * k == n * m * k) by (nonlinear_arith);
    } else if y1 - y0 > 1 {
        let (a, b) = (grid(x0, x1, y0, y1 - 1, z0, z1), grid(x0, x1, y1 - 1, y1, z0, z1));
        lemma_grid(x0, x1, y0, y1 - 1, z0, z1);
        lemma_grid(x0, x1, y1 - 1, y1, z0, z1);
        assert(all =~= a + b);
        vstd::set_lib::lemma_set_disjoint_lens(a, b);
        let (n, m, k) = (x1 - x0, y1 - y0, z1 - z0);
        assert(n * (m - 1) * k + n * 1 * k == n * m * k) by (nonlinear_arith);
    } else if z1 - z0 > 1 {
        let (a, b) = (grid(x0, x1, y0, y1, z0, z1 - 1), grid(x0, x1, y0, y1, z1 - 1, z1));
        lemma_grid(x0, x1, y0, y1, z0, z1 - 1);
        lemma_grid(x0, x1, y0, y1, z1 - 1, z1);
        assert(all =~= a + b);
        vstd::set_lib::lemma_set_disjoint_lens(a, b);
        let (n, m, k) = (x1 - x0, y1 - y0, z1 - z0);
        assert(n * m * (k - 1) + n * m * 1 == n * m * k) by (nonlinear_arith);
    } else {
        assert(all =~= Set::<(int, int, int)>::empty().insert((x0, y0, z0)));
        assert((x1 - x0) * (y1 - y0) * (z1 - z0) == 1) by (nonlinear_arith)
            requires
                x1 - x0 == 1,
                y1 - y0 == 1,
                z1 - z0 == 1,
        ;
    }
}

/// The cells that some box holds.
spec fn held_by(boxes: Seq<VoxBox>) -> Set<(int, int, int)> {
    Set::new(
        |c: (int, int, int)|
            exists|i: int| 0 <= i < boxes.len() && (#[trigger] boxes[i]).holds(c.0, c.1, c.2),
    )
}

proof fn lemma_volume(boxes: Seq<VoxBox>)
    requires
        forall|i: int| 0 <= i < boxes.len() ==> (#[trigger] boxes[i]).is_solid(),
        forall|i: int, j: int|
            0 <= i < j < boxes.len() ==> (#[trigger] boxes[i]).cells().disjoint(
                (#[trigger] boxes[j]).cells(),
            ),
    ensures
        held_by(boxes).finite(),
        held_by(boxes).len() == total_volume(boxes),
        boxes.len() <= total_volume(boxes),
    decreases boxes.len(),
{
    let all = held_by(boxes);
    if boxes.len() == 0 {
        assert(all =~= Set::<(int, int, int)>::empty());
    } else {
        let n = boxes.len() - 1;
        let (front, last) = (boxes.drop_last(), boxes[n]);
        assert forall|i: int, j: int| 0 <= i < j < front.len() implies (#[trigger] front[i]).cells().disjoint(
            (#[trigger] front[j]).cells(),
        ) by {
            assert(boxes[i].cells().disjoint(boxes[j].cells()));
        }
        lemma_volume(front);
        assert(last.is_solid());
        lemma_grid(
            last.min.x as int,
            last.max.x as int,
            last.min.y as int,
            last.max.y as int,
            last.min.z as int,
            last.max.z as int,
        );
        assert(all =~= held_by(front) + last.cells()) by {
            assert forall|c: (int, int, int)| all.contains(c) <==> (held_by(front) + last.cells()).contains(c) by {
                if all.contains(c) {
                    let i = choose|i: int| 0 <= i < boxes.len() && (#[trigger] boxes[i]).holds(c.0, c.1, c.2);
                    if i < n {
                        assert(front[i].holds(c.0, c.1, c.2));
                    }
                }
                if held_by(front).contains(c) {
                    let i = choose|i: int| 0 <= i < front.len() && (#[trigger] front[i]).holds(c.0, c.1, c.2);
                    assert(boxes[i].holds(c.0, c.1, c.2));
                }
                if last.cells().contains(c) {
                    assert(boxes[n].holds(c.0, c.1, c.2));
                }
            }
        }
        assert(held_by(front).disjoint(last.cells())) by {
            assert forall|c: (int, int, int)| !(held_by(front).contains(c) && last.cells().contains(c)) by {
                if held_by(front).contains(c) && last.cells().contains(c) {
                    let i = choose|i: int| 0 <= i < front.len() && (#[trigger] front[i]).holds(c.0, c.1, c.2);
                    assert(boxes[i].cells().contains(c));
                    assert(boxes[i].cells().disjoint(boxes[n].cells()));
                }
            }
        }
        vstd::set_lib::lemma_set_disjoint_lens(held_by(front), last.cells());
        let (a, b, c) = (last.max.x - last.min.x, last.max.y - last.min.y, last.max.z - last.min.z);
        assert(a * b * c >= 1) by (nonlinear_arith)
            requires
                a >= 1,
                b >= 1,
                c >= 1,
        ;
    }
}

/// Boxes that hold exactly the solid cells, each in one box, have the number of
/// solid cells as their volume, and are no more than that.
pub proof fn a_cover_has_the_solid_volume(brick: Brick, boxes: Seq<VoxBox>)
    requires
        is_cover(brick, boxes),
    ensures
        solid_cells(brick).finite(),
        total_volume(boxes) == solid_cells(brick).len(),
        boxes.len() <= solid_cells(brick).len(),
{
    lemma_volume(boxes);
    assert(held_by(boxes) =~= solid_cells(brick)) by {
        assert forall|c: (int, int, int)| held_by(boxes).contains(c) <==> solid_cells(brick).contains(c) by {
            assert(solid(brick, c.0, c.1, c.2) <==> exists|i: int|
                0 <= i < boxes.len() && (#[trigger] boxes[i]).holds(c.0, c.1, c.2));
        }
    }
}

/// The boxes of [`per_voxel_boxes`] are as many as the solid cells, and their
/// volume is that number.
pub proof fn per_voxel_boxes_count_the_solid(brick: Brick, boxes: Seq<VoxBox>)
    requires
        is_per_voxel(brick, boxes),
    ensures
        is_cover(brick, boxes),
        solid_cells(brick).finite(),
        boxes.len() == solid_cells(brick).len(),
        total_volume(boxes) == solid_cells(brick).len(),
{
    assert forall|i: int| 0 <= i < boxes.len() implies (#[trigger] boxes[i]).is_solid() by {}
    assert forall|i: int, j: int| 0 <= i < j < boxes.len() implies (#[trigger] boxes[i]).cells().disjoint(
        (#[trigger] boxes[j]).cells(),
    ) by {
        assert forall|c: (int, int, int)| !(boxes[i].cells().contains(c) && boxes[j].cells().contains(c)) by {
            per_voxel_boxes_cover_the_solid(brick, boxes, c.0, c.1, c.2);
            if boxes[i].cells().contains(c) && boxes[j].cells().contains(c) {
                assert(boxes[i].holds(c.0, c.1, c.2) && boxes[j].holds(c.0, c.1, c.2));
            }
        }
    }
    assert forall|x: int, y: int, z: int| #[trigger] solid(brick, x, y, z) <==> exists|i: int|
        0 <= i < boxes.len() && (#[trigger] boxes[i]).holds(x, y, z) by {
        per_voxel_boxes_cover_the_solid(brick, boxes, x, y, z);
    }
    a_cover_has_the_solid_volume(brick, boxes);
    lemma_unit_volume(brick, boxes, boxes.len() as int);
    assert(boxes.take(boxes.len() as int) =~= boxes);
}

proof fn lemma_unit_volume(brick: Brick, boxes: Seq<VoxBox>, n: int)
    requires
        is_per_voxel(brick, boxes),
        0 <= n <= boxes.len(),
    ensures
        total_volume(boxes.take(n)) == n,
    decreases n,
{
    if n > 0 {
        lemma_unit_volume(brick, boxes, n - 1);
        assert(boxes.take(n).drop_last() =~= boxes.take(n - 1));
        let b = boxes[n - 1];
        assert(boxes.take(n).last() == b);
        assert(b == unit_box(b.min.x as int, b.min.y as int, b.min.z as int));
        assert(b.spec_volume() == 1) by {
            assert(1 * 1 * 1 == 1int) by (nonlinear_arith);
        }
    }
}

/// Merged boxes cover the same volume as one box per solid cell, with no more
/// boxes.
pub proof fn merged_boxes_cover_the_same(brick: Brick, merged: Seq<VoxBox>, single: Seq<VoxBox>)
    requires
        is_cover(brick, merged),
        is_per_voxel(brick, single),
    ensures
        total_volume(merged) == total_volume(single),
        merged.len() <= single.len(),
{
    a_cover_has_the_solid_volume(brick, merged);
    per_voxel_boxes_count_the_solid(brick, single);
}

/// The boxes of [`per_voxel_boxes`] are the only ones of their kind.
pub proof fn per_voxel_boxes_are_unique(brick: Brick, a: Seq<VoxBox>, b: Seq<VoxBox>)
    requires
        is_per_voxel(brick, a),
        is_per_voxel(brick, b),
    ensures
        a == b,
{
    lemma_prefix(brick, a, b, a.len() as int);
    lemma_prefix(brick, b, a, b.len() as int);
    assert(a =~= b);
}

/// Lists of one box per solid cell agree as far as the first one goes.
proof fn lemma_prefix(brick: Brick, a: Seq<VoxBox>, b: Seq<VoxBox>, n: int)
    requires
        is_per_voxel(brick, a),
        is_per_voxel(brick, b),
        0 <= n <= a.len(),
    ensures
        n <= b.len(),
        forall|i: int| 0 <= i < n ==> #[trigger] a[i] == b[i],
    decreases n,
{
    if n > 0 {
        lemma_prefix(brick, a, b, n - 1);
        let p = a[n - 1];
        let u = unit_box(p.min.x as int, p.min.y as int, p.min.z as int);
        assert(p == u);
        assert(a.contains(u));
        assert(b.contains(u));
        let i = b.index_of(u);
        if i < n - 1 {
            assert(a[i] == b[i]);
            assert(box_before(a[i], a[n - 1]));
        }
        if i > n - 1 {
            let q = b[n - 1];
            let v = unit_box(q.min.x as int, q.min.y as int, q.min.z as int);
            assert(q == v);
            assert(b.contains(v));
            assert(a.contains(v));
            let j = a.index_of(v);
            assert(box_before(b[n - 1], b[i]));
            if j < n - 1 {
                assert(a[j] == b[j]);
                assert(box_before(b[j], b[n - 1]));
            }
            if j > n - 1 {
                assert(box_before(a[n - 1], a[j]));
            }
        }
    }
}

/// A part of a compound collider, in half voxels: where its centre lies, and
/// how far it reaches from there along each axis.
#[derive(Clone, Copy, Debug, PartialEq, Eq, Structural)]
pub struct BoxPart {
    pub centre: IVec3,
    pub half: IVec3,
}

/// The part that a box makes.
pub open spec fn part_of(b: VoxBox) -> BoxPart {
    BoxPart {
        centre: IVec3 {
            x: (b.min.x + b.max.x) as i64,
            y: (b.min.y + b.max.y) as i64,
            z: (b.min.z + b.max.z) as i64,
        },
        half: IVec3 {
            x: (b.max.x - b.min.x) as i64,
            y: (b.max.y - b.min.y) as i64,
            z: (b.max.z - b.min.z) as i64,
        },
    }
}

/// The parts of a collider made of boxes; no boxes make no collider.
pub fn compound_from_boxes(boxes: &Vec<VoxBox>) -> (r: Option<Vec<BoxPart>>)
    ensures
        match r {
            None => boxes@.len() == 0,
            Some(parts) => boxes@.len() > 0 && parts@ == Seq::new(
                boxes@.len(),
                |i: int| part_of(boxes@[i]),
            ),
        },
{
    if boxes.len() == 0 {
        return None;
    }
    let mut parts: Vec<BoxPart> = Vec::new();
    let mut i: usize = 0;
    while i < boxes.len()
        invariant
            i <= boxes@.len(),
            parts@.len() == i,
            forall|k: int| 0 <= k < i ==> #[trigger] parts@[k] == part_of(boxes@[k]),
        decreases boxes@.len() - i,
    {
        let b: VoxBox = boxes[i];
        parts.push(
            BoxPart {
                centre: IVec3 {
                    x: b.min.x as i64 + b.max.x as i64,
                    y: b.min.y as i64 + b.max.y as i64,
                    z: b.min.z as i64 + b.max.z as i64,
                },
                half: IVec3 {
                    x: b.max.x as i64 - b.min.x as i64,
                    y: b.max.y as i64 - b.min.y as i64,
                    z: b.max.z as i64 - b.min.z as i64,
                },
            },
        );
        i += 1;
    }
    proof {
        assert(parts@ =~= Seq::new(boxes@.len(), |k: int| part_of(boxes@[k])));
    }
    Some(parts)
}

/// The collider of a brick whose solid voxels were merged into boxes; a brick
/// without solid voxels has none.
pub fn brick_to_collider(merged: &Vec<VoxBox>) -> (r: Option<Vec<BoxPart>>)
    ensures
        match r {
            None => merged@.len() == 0,
            Some(parts) => merged@.len() > 0 && parts@ == Seq::new(
                merged@.len(),
                |i: int| part_of(merged@[i]),
            ),
        },
{
    compound_from_boxes(merged)
}

/// A part spans its box: centre less half is the lower corner and centre plus
/// half the upper one, in half voxels.
pub proof fn part_spans_its_box(b: VoxBox)
    ensures
        part_of(b).centre.x - part_of(b).half.x == 2 * b.min.x,
        part_of(b).centre.y - part_of(b).half.y == 2 * b.min.y,
        part_of(b).centre.z - part_of(b).half.z == 2 * b.min.z,
        part_of(b).centre.x + part_of(b).half.x == 2 * b.max.x,
        part_of(b).centre.y + part_of(b).half.y == 2 * b.max.y,
        part_of(b).centre.z + part_of(b).half.z == 2 * b.max.z,
{
}

} // verus!
