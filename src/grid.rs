//! Local coordinates inside a cubic chunk and their storage order.
use vstd::arithmetic::div_mod::{
    lemma_div_denominator, lemma_fundamental_div_mod, lemma_fundamental_div_mod_converse,
};
use vstd::prelude::*;

verus! {

/// An integer 3D vector: a chunk's slot in the world grid, or a world
/// coordinate counted in voxel units.
#[derive(Debug, Clone, Copy, PartialEq, Eq, Structural)]
pub struct IVec3 {
    pub x: i64,
    pub y: i64,
    pub z: i64,
}

impl IVec3 {
    pub fn new(x: i64, y: i64, z: i64) -> (r: IVec3)
        ensures
            r == (IVec3 { x, y, z }),
    {
        IVec3 { x, y, z }
    }
}

/// `(x, y, z)` is a cell of a chunk whose side is `s`.
pub open spec fn in_bounds(s: int, x: int, y: int, z: int) -> bool {
    0 <= x < s && 0 <= y < s && 0 <= z < s
}

/// Storage index of a cell: z varies slowest, then y, and x fastest.
pub open spec fn linear_index(s: int, x: int, y: int, z: int) -> int {
    z * s * s + y * s + x
}

/// Number of cells of a chunk whose side is `s`.
pub open spec fn cube(s: int) -> int {
    s * s * s
}

/// The cell stored at index `i`: the inverse of `linear_index`.
pub open spec fn coord_of(s: int, i: int) -> (int, int, int) {
    (i % s, (i / s) % s, i / (s * s))
}

/// An in-bounds cell has an index in `[0, s³)`, and decoding that index gives the cell back.
pub proof fn lemma_index_decodes(s: int, x: int, y: int, z: int)
    requires
        in_bounds(s, x, y, z),
    ensures
        0 <= linear_index(s, x, y, z) < cube(s),
        coord_of(s, linear_index(s, x, y, z)) == (x, y, z),
{
    let i = linear_index(s, x, y, z);
    let q = z * s + y;
    assert(i == q * s + x) by (nonlinear_arith)
        requires
            i == z * s * s + y * s + x,
            q == z * s + y,
    ;
    assert(0 <= q < s * s) by (nonlinear_arith)
        requires
            q == z * s + y,
            0 <= y < s,
            0 <= z < s,
    ;
    assert(0 <= i < s * s * s) by (nonlinear_arith)
        requires
            i == q * s + x,
            0 <= q < s * s,
            0 <= x < s,
    ;
    lemma_fundamental_div_mod_converse(i, s, q, x);
    lemma_fundamental_div_mod_converse(q, s, z, y);
    lemma_div_denominator(i, s, s);
}

/// Every index in `[0, s³)` decodes to an in-bounds cell whose index it is.
pub proof fn lemma_index_covers(s: int, i: int)
    requires
        0 <= i < cube(s),
    ensures
        in_bounds(s, coord_of(s, i).0, coord_of(s, i).1, coord_of(s, i).2),
        linear_index(s, coord_of(s, i).0, coord_of(s, i).1, coord_of(s, i).2) == i,
{
    assert(s > 0) by (nonlinear_arith)
        requires
            0 <= i < s * s * s,
    ;
    let x = i % s;
    let q = i / s;
    let y = q % s;
    let z = q / s;
    lemma_fundamental_div_mod(i, s);
    lemma_fundamental_div_mod(q, s);
    lemma_div_denominator(i, s, s);
    assert(0 <= q < s * s) by (nonlinear_arith)
        requires
            i == s * q + x,
            0 <= x < s,
            0 <= i < s * s * s,
    ;
    assert(0 <= z < s) by (nonlinear_arith)
        requires
            q == s * z + y,
            0 <= y < s,
            0 <= q < s * s,
    ;
    assert(z * s * s + y * s + x == i) by (nonlinear_arith)
        requires
            i == s * q + x,
            q == s * z + y,
    ;
}

/// The storage order is a bijection between the cells of a chunk of side `s`
/// and the indices `[0, s³)`: every cell lands in range, no two distinct cells
/// share an index, and every index is the index of the cell it decodes to.
pub proof fn linear_index_bijective(s: int)
    ensures
        forall|x: int, y: int, z: int|
            in_bounds(s, x, y, z) ==> 0 <= #[trigger] linear_index(s, x, y, z) < cube(s),
        forall|x1: int, y1: int, z1: int, x2: int, y2: int, z2: int|
            in_bounds(s, x1, y1, z1) && in_bounds(s, x2, y2, z2) && #[trigger] linear_index(
                s,
                x1,
                y1,
                z1,
            ) == #[trigger] linear_index(s, x2, y2, z2) ==> x1 == x2 && y1 == y2 && z1 == z2,
        forall|i: int|
            #![trigger coord_of(s, i)]
            0 <= i < cube(s) ==> {
                let (x, y, z) = coord_of(s, i);
                in_bounds(s, x, y, z) && linear_index(s, x, y, z) == i
            },
{
    assert forall|x: int, y: int, z: int| in_bounds(s, x, y, z) implies 0 <= #[trigger] linear_index(
        s,
        x,
        y,
        z,
    ) < cube(s) by {
        lemma_index_decodes(s, x, y, z);
    }
    assert forall|x1: int, y1: int, z1: int, x2: int, y2: int, z2: int|
        in_bounds(s, x1, y1, z1) && in_bounds(s, x2, y2, z2) && #[trigger] linear_index(
            s,
            x1,
            y1,
            z1,
        ) == #[trigger] linear_index(s, x2, y2, z2) implies x1 == x2 && y1 == y2 && z1 == z2 by {
        lemma_index_decodes(s, x1, y1, z1);
        lemma_index_decodes(s, x2, y2, z2);
    }
    assert forall|i: int| 0 <= i < cube(s) implies {
        let (x, y, z) = #[trigger] coord_of(s, i);
        in_bounds(s, x, y, z) && linear_index(s, x, y, z) == i
    } by {
        lemma_index_covers(s, i);
    }
}

} // verus!
