//! A cubic block of voxels, the unit of storage and placement.
use crate::grid::{cube, in_bounds, lemma_index_decodes, linear_index, IVec3};
use crate::voxel::Voxel;
use vstd::prelude::*;

verus! {

/// A cube of `size³` voxels stored in `linear_index` order, together with
/// the chunk's slot in the world grid.
#[derive(Debug)]
pub struct Chunk {
    voxels: Vec<Voxel>,
    pub position: IVec3,
    size: usize,
}

impl Chunk {
    /// Side length of a chunk built with `new_standard`.
    pub const SIZE: usize = 16;

    /// Side length of the chunk.
    pub closed spec fn side(&self) -> int {
        self.size as int
    }

    /// The chunk's slot in the world grid.
    pub closed spec fn slot(&self) -> IVec3 {
        self.position
    }

    /// The stored voxels, in `linear_index` order.
    pub closed spec fn cells(&self) -> Seq<Voxel> {
        self.voxels@
    }

    /// Storage holds exactly one voxel per cell.
    pub open spec fn wf(&self) -> bool {
        &&& 0 <= self.side()
        &&& self.cells().len() == cube(self.side())
    }

    /// The voxel of a cell, or `None` when the coordinate lies outside the chunk.
    pub open spec fn voxel_at(&self, x: int, y: int, z: int) -> Option<Voxel> {
        if in_bounds(self.side(), x, y, z) {
            Some(self.cells()[linear_index(self.side(), x, y, z)])
        } else {
            None
        }
    }

    /// A chunk of side `size` at grid slot `position`, all of whose cells are empty.
    pub fn new(position: IVec3, size: usize) -> (r: Chunk)
        requires
            size * size * size <= usize::MAX,
        ensures
            r.wf(),
            r.side() == size,
            r.slot() == position,
            r.cells() == Seq::new(cube(size as int) as nat, |i: int| Voxel { id: 0 }),
            forall|x: int, y: int, z: int|
                in_bounds(size as int, x, y, z) ==> #[trigger] r.voxel_at(x, y, z) == Some(
                    Voxel { id: 0 },
                ),
    {
        assert(size * size <= size * size * size || size == 0) by (nonlinear_arith);
        let n: usize = size * size * size;
        let voxels = vec![Voxel { id: 0 }; n];
        let r = Chunk { voxels, position, size };
        assert(r.cells() =~= Seq::new(cube(size as int) as nat, |i: int| Voxel { id: 0 }));
        assert forall|x: int, y: int, z: int| in_bounds(size as int, x, y, z) implies #[trigger] r.voxel_at(
            x,
            y,
            z,
        ) == Some(Voxel { id: 0 }) by {
            lemma_index_decodes(size as int, x, y, z);
        }
        r
    }

    /// A chunk of side `Chunk::SIZE` at grid slot `position`, all of whose cells are empty.
    pub fn new_standard(position: IVec3) -> (r: Chunk)
        ensures
            r.wf(),
            r.side() == Chunk::SIZE,
            r.slot() == position,
            r.cells() == Seq::new(cube(Chunk::SIZE as int) as nat, |i: int| Voxel { id: 0 }),
            forall|x: int, y: int, z: int|
                in_bounds(Chunk::SIZE as int, x, y, z) ==> #[trigger] r.voxel_at(x, y, z) == Some(
                    Voxel { id: 0 },
                ),
    {
        Chunk::new(position, Chunk::SIZE)
    }

    /// The chunk's slot in the world grid.
    pub fn position(&self) -> (r: IVec3)
        ensures
            r == self.slot(),
    {
        self.position
    }

    /// Number of stored voxels: one per cell.
    pub fn len(&self) -> (r: usize)
        requires
            self.wf(),
        ensures
            r == cube(self.side()),
    {
        self.voxels.len()
    }

    /// Side length of the chunk.
    pub fn size(&self) -> (r: usize)
        ensures
            r == self.side(),
    {
        self.size
    }

    /// Storage index of `(x, y, z)` in a chunk of side `Chunk::SIZE`.
    pub fn linearize(x: usize, y: usize, z: usize) -> (r: usize)
        requires
            linear_index(Chunk::SIZE as int, x as int, y as int, z as int) <= usize::MAX,
        ensures
            r == linear_index(Chunk::SIZE as int, x as int, y as int, z as int),
    {
        (z * Self::SIZE * Self::SIZE) + (y * Self::SIZE) + x
    }

    /// Storage index of `(x, y, z)` in this chunk.
    pub fn flatten_cartesian(&self, x: usize, y: usize, z: usize) -> (r: usize)
        requires
            linear_index(self.side(), x as int, y as int, z as int) <= usize::MAX,
        ensures
            r == linear_index(self.side(), x as int, y as int, z as int),
    {
        let s = self.size;
        assert(z * s <= z * s * s || s == 0) by (nonlinear_arith);
        assert(0 <= z * s * s && 0 <= y * s) by (nonlinear_arith);
        (z * s * s) + (y * s) + x
    }

    /// The voxel at `(x, y, z)`, or `None` when any component is `>= size`.
    ///
    /// The bounds are checked per axis, so an out-of-range coordinate never
    /// reaches another cell through its storage index, and "out of range"
    /// (`None`) stays distinct from "empty" (`Some` of id 0).
    pub fn get(&self, x: usize, y: usize, z: usize) -> (r: Option<&Voxel>)
        requires
            self.wf(),
        ensures
            match r {
                Some(v) => self.voxel_at(x as int, y as int, z as int) == Some(*v),
                None => self.voxel_at(x as int, y as int, z as int) is None,
            },
    {
        if x < self.size && y < self.size && z < self.size {
            let len = self.voxels.len();
            proof {
                lemma_index_decodes(self.side(), x as int, y as int, z as int);
            }
            let i = self.flatten_cartesian(x, y, z);
            Some(&self.voxels[i])
        } else {
            None
        }
    }

    /// Overwrites the cell `(x, y, z)` with `value`; a coordinate outside the
    /// chunk leaves it unchanged.
    pub fn set(&mut self, x: usize, y: usize, z: usize, value: Voxel)
        requires
            old(self).wf(),
        ensures
            final(self).wf(),
            final(self).side() == old(self).side(),
            final(self).slot() == old(self).slot(),
            in_bounds(old(self).side(), x as int, y as int, z as int) ==> final(self).cells()
                == old(self).cells().update(
                linear_index(old(self).side(), x as int, y as int, z as int),
                value,
            ),
            !in_bounds(old(self).side(), x as int, y as int, z as int) ==> *final(self) == *old(
                self,
            ),
    {
        if x < self.size && y < self.size && z < self.size {
            let len = self.voxels.len();
            proof {
                lemma_index_decodes(self.side(), x as int, y as int, z as int);
            }
            let i = self.flatten_cartesian(x, y, z);
            self.voxels.set(i, value);
        }
    }

    /// Overwrites every cell with `value`.
    pub fn fill(&mut self, value: Voxel)
        requires
            old(self).wf(),
        ensures
            final(self).wf(),
            final(self).side() == old(self).side(),
            final(self).slot() == old(self).slot(),
            final(self).cells() == Seq::new(cube(old(self).side()) as nat, |i: int| value),
            forall|x: int, y: int, z: int|
                in_bounds(old(self).side(), x, y, z) ==> #[trigger] final(self).voxel_at(x, y, z)
                    == Some(value),
    {
        let n = self.voxels.len();
        let mut i: usize = 0;
        while i < n
            invariant
                self.wf(),
                self.side() == old(self).side(),
                self.slot() == old(self).slot(),
                n == self.cells().len(),
                0 <= i <= n,
                forall|k: int| 0 <= k < i ==> self.cells()[k] == value,
            decreases n - i,
        {
            self.voxels.set(i, value);
            i += 1;
        }
        assert(self.cells() =~= Seq::new(cube(old(self).side()) as nat, |i: int| value));
        assert forall|x: int, y: int, z: int| in_bounds(self.side(), x, y, z) implies #[trigger] self.voxel_at(
            x,
            y,
            z,
        ) == Some(value) by {
            lemma_index_decodes(self.side(), x, y, z);
        }
    }
}

} // verus!
