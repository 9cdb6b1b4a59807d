//! Voxels and bricks of them.

use crate::coord::{IVec3, BRICK_EDGE, BRICK_LEN};
use vstd::prelude::*;

verus! {

/// One voxel: the number of its material, 0 for air.
#[derive(Clone, Copy, Debug, PartialEq, Eq, Structural, Hash)]
pub struct Voxel(pub u16);

impl Voxel {
    pub fn new(material: u16) -> (r: Self)
        ensures
            r == Voxel(material),
    {
        Voxel(material)
    }

    /// Air.
    pub fn empty() -> (r: Self)
        ensures
            r == Voxel(0),
    {
        Voxel(0)
    }

    pub open spec fn spec_is_empty(self) -> bool {
        self.0 == 0
    }

    pub fn is_empty(&self) -> (r: bool)
        ensures
            r == self.spec_is_empty(),
            r == (self.0 == 0),
    {
        self.0 == 0
    }
}

/// Whether `p` is a cell of a brick.
pub open spec fn in_brick(p: IVec3) -> bool {
    0 <= p.x < 16 && 0 <= p.y < 16 && 0 <= p.z < 16
}

/// Where the cell `(x, y, z)` stands in a brick: by z, then y, then x.
pub open spec fn cell_index(x: int, y: int, z: int) -> int {
    (z * 16 + y) * 16 + x
}

/// How many cells are not empty.
pub open spec fn count_solid(cells: Seq<Voxel>) -> nat
    decreases cells.len(),
{
    if cells.len() == 0 {
        0
    } else {
        count_solid(cells.drop_last()) + if cells.last().spec_is_empty() {
            0nat
        } else {
            1nat
        }
    }
}

proof fn lemma_count_update(cells: Seq<Voxel>, i: int, v: Voxel)
    requires
        0 <= i < cells.len(),
    ensures
        count_solid(cells.update(i, v)) == count_solid(cells) + (if v.spec_is_empty() {
            0int
        } else {
            1int
        }) - (if cells[i].spec_is_empty() {
            0int
        } else {
            1int
        }),
    decreases cells.len(),
{
    let t = cells.update(i, v);
    if i == cells.len() - 1 {
        assert(t.drop_last() =~= cells.drop_last());
    } else {
        assert(t.drop_last() =~= cells.drop_last().update(i, v));
        lemma_count_update(cells.drop_last(), i, v);
    }
}

proof fn lemma_count_bound(cells: Seq<Voxel>)
    ensures
        count_solid(cells) <= cells.len(),
    decreases cells.len(),
{
    if cells.len() > 0 {
        lemma_count_bound(cells.drop_last());
    }
}

proof fn lemma_count_empty(cells: Seq<Voxel>)
    requires
        forall|i: int| 0 <= i < cells.len() ==> (#[trigger] cells[i]).spec_is_empty(),
    ensures
        count_solid(cells) == 0,
    decreases cells.len(),
{
    if cells.len() > 0 {
        assert(cells.last().spec_is_empty());
        assert forall|i: int| 0 <= i < cells.drop_last().len() implies (
        #[trigger] cells.drop_last()[i]).spec_is_empty() by {
            assert(cells[i].spec_is_empty());
        }
        lemma_count_empty(cells.drop_last());
    }
}

proof fn lemma_count_positive(cells: Seq<Voxel>)
    requires
        count_solid(cells) > 0,
    ensures
        exists|i: int| 0 <= i < cells.len() && !(#[trigger] cells[i]).spec_is_empty(),
    decreases cells.len(),
{
    if !cells.last().spec_is_empty() {
        assert(!cells[cells.len() - 1].spec_is_empty());
    } else {
        lemma_count_positive(cells.drop_last());
        let i = choose|i: int| 0 <= i < cells.drop_last().len() && !(#[trigger] cells.drop_last()[i]).spec_is_empty();
        assert(!cells[i].spec_is_empty());
    }
}

/// A cube of voxels, 16 along each edge.
#[derive(Debug)]
pub struct Brick {
    cells: Vec<Voxel>,
    nonempty: usize,
}

impl View for Brick {
    type V = Seq<Voxel>;

    /// The cells, in the order of [`cell_index`].
    closed spec fn view(&self) -> Seq<Voxel> {
        self.cells@
    }
}

impl Brick {
    /// All cells are there, and the count of solid ones is right.
    pub closed spec fn wf(&self) -> bool {
        &&& self.cells@.len() == BRICK_LEN
        &&& self.nonempty == count_solid(self.cells@)
    }

    /// The voxel of a cell.
    pub open spec fn at(&self, p: IVec3) -> Voxel {
        self@[cell_index(p.x as int, p.y as int, p.z as int)]
    }

    /// A brick of air.
    pub fn new() -> (r: Self)
        ensures
            r.wf(),
            r@ == Seq::new(BRICK_LEN as nat, |i: int| Voxel(0)),
    {
        let mut cells: Vec<Voxel> = Vec::new();
        let mut i: usize = 0;
        while i < BRICK_LEN
            invariant
                i <= BRICK_LEN,
                cells@.len() == i,
                forall|k: int| 0 <= k < i ==> cells@[k] == Voxel(0),
            decreases BRICK_LEN - i,
        {
            cells.push(Voxel(0));
            i += 1;
        }
        proof {
            lemma_count_empty(cells@);
            assert(cells@ =~= Seq::new(BRICK_LEN as nat, |i: int| Voxel(0)));
        }
        Brick { cells, nonempty: 0 }
    }

    /// Cells are always all there.
    pub proof fn lemma_len(&self)
        requires
            self.wf(),
        ensures
            self@.len() == BRICK_LEN,
    {
    }

    /// The voxel of a cell.
    pub fn get(&self, p: IVec3) -> (r: Voxel)
        requires
            self.wf(),
            in_brick(p),
        ensures
            r == self.at(p),
            r == self@[p.x + 16 * p.y + 256 * p.z],
    {
        let i: usize = (p.z as usize * BRICK_EDGE + p.y as usize) * BRICK_EDGE + p.x as usize;
        self.cells[i]
    }

    /// Sets the voxel of a cell.
    pub fn set(&mut self, p: IVec3, v: Voxel)
        requires
            old(self).wf(),
            in_brick(p),
        ensures
            final(self).wf(),
            final(self)@ == old(self)@.update(cell_index(p.x as int, p.y as int, p.z as int), v),
            final(self)@[p.x + 16 * p.y + 256 * p.z] == v,
            forall|i: int|
                0 <= i < 4096 && i != p.x + 16 * p.y + 256 * p.z ==> #[trigger] final(self)@[i] == old(self)@[i],
    {
        let i: usize = (p.z as usize * BRICK_EDGE + p.y as usize) * BRICK_EDGE + p.x as usize;
        proof {
            lemma_count_update(self.cells@, i as int, v);
            lemma_count_bound(self.cells@.update(i as int, v));
        }
        let before: Voxel = self.cells[i];
        if !v.is_empty() && before.is_empty() {
            self.nonempty += 1;
        }
        if v.is_empty() && !before.is_empty() {
            self.nonempty -= 1;
        }
        self.cells[i] = v;
    }

    /// How many cells are not empty.
    pub fn nonempty_count(&self) -> (r: usize)
        requires
            self.wf(),
        ensures
            r as nat == count_solid(self@),
    {
        self.nonempty
    }

    /// Whether every cell is empty.
    pub fn is_empty(&self) -> (r: bool)
        requires
            self.wf(),
        ensures
            r == (forall|i: int| 0 <= i < self@.len() ==> (#[trigger] self@[i]).spec_is_empty()),
            r == (forall|i: int| 0 <= i < 4096 ==> (#[trigger] self@[i]).0 == 0),
    {
        proof {
            if self.nonempty > 0 {
                lemma_count_positive(self@);
            } else if exists|i: int| 0 <= i < self@.len() && !(#[trigger] self@[i]).spec_is_empty() {
                let i = choose|i: int| 0 <= i < self@.len() && !(#[trigger] self@[i]).spec_is_empty();
                lemma_count_update(self@, i, Voxel(0));
            }
        }
        self.nonempty == 0
    }
}

/// What was written to a cell is read from it, and other cells keep what they
/// hold.
pub proof fn set_then_get(cells: Seq<Voxel>, p: IVec3, q: IVec3, v: Voxel)
    requires
        cells.len() == BRICK_LEN,
        in_brick(p),
        in_brick(q),
    ensures
        cells.update(cell_index(p.x as int, p.y as int, p.z as int), v)[cell_index(
            q.x as int,
            q.y as int,
            q.z as int,
        )] == (if p == q {
            v
        } else {
            cells[cell_index(q.x as int, q.y as int, q.z as int)]
        }),
{
}

/// The count of solid cells is the number of cells whose material is not 0.
pub proof fn every_solid_cell_counts_once(cells: Seq<Voxel>)
    ensures
        Set::new(|i: int| 0 <= i < cells.len() && cells[i].0 != 0).finite(),
        count_solid(cells) == Set::new(|i: int| 0 <= i < cells.len() && cells[i].0 != 0).len(),
    decreases cells.len(),
{
    let all = Set::new(|i: int| 0 <= i < cells.len() && cells[i].0 != 0);
    if cells.len() == 0 {
        assert(all =~= Set::<int>::empty());
    } else {
        let front = cells.drop_last();
        let n = cells.len() - 1;
        let some = Set::new(|i: int| 0 <= i < front.len() && front[i].0 != 0);
        every_solid_cell_counts_once(front);
        if cells[n].0 != 0 {
            assert(all =~= some.insert(n));
        } else {
            assert(all =~= some);
        }
    }
}

/// The cells of a brick go by x, then y, then z, from the first place to the last.
pub proof fn cells_go_by_x_then_y_then_z(x: int, y: int, z: int)
    ensures
        cell_index(0, 0, 0) == 0,
        cell_index(x + 1, y, z) == cell_index(x, y, z) + 1,
        cell_index(x, y + 1, z) == cell_index(x, y, z) + 16,
        cell_index(x, y, z + 1) == cell_index(x, y, z) + 256,
        0 <= x < 16 && 0 <= y < 16 && 0 <= z < 16 ==> 0 <= cell_index(x, y, z) < 4096,
{
}

} // verus!
