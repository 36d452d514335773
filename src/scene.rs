//! Placement of one cube instance per solid voxel of a set of chunks.
//!
//! World coordinates are integers: `unit` is the length of a voxel's side,
//! and a chunk of side `s` in grid slot `p` covers the world cells
//! `unit * (local + s * p)` on each axis.
use crate::chunk::Chunk;
use crate::grid::{coord_of, cube, in_bounds, lemma_index_covers, IVec3};
use crate::voxel::Voxel;
use vstd::arithmetic::div_mod::lemma_fundamental_div_mod_converse;
use vstd::prelude::*;

verus! {

pub open spec fn abs(a: int) -> int {
    if a < 0 {
        -a
    } else {
        a
    }
}

/// World coordinate on one axis of local cell `local` of a chunk of side `s`
/// in grid slot `slot`.
pub open spec fn world_axis(unit: int, s: int, slot: int, local: int) -> int {
    unit * local + unit * s * slot
}

/// Every world coordinate on this axis of a chunk of side `s` in grid slot
/// `slot`, and every intermediate of its computation, fits in an `i64`.
pub open spec fn axis_fits(unit: int, s: int, slot: int) -> bool {
    &&& 0 <= s
    &&& s * (abs(slot) + 1) <= i64::MAX
    &&& abs(unit) * (s * (abs(slot) + 1)) <= i64::MAX
}

/// The world coordinates of every cell of `c` fit in an `i64`.
pub open spec fn placement_fits(unit: int, c: Chunk) -> bool {
    &&& axis_fits(unit, c.side(), c.slot().x as int)
    &&& axis_fits(unit, c.side(), c.slot().y as int)
    &&& axis_fits(unit, c.side(), c.slot().z as int)
}

/// World position of local cell `(x, y, z)` of chunk `c`.
pub open spec fn world_point(unit: int, c: Chunk, x: int, y: int, z: int) -> IVec3 {
    IVec3 {
        x: world_axis(unit, c.side(), c.slot().x as int, x) as i64,
        y: world_axis(unit, c.side(), c.slot().y as int, y) as i64,
        z: world_axis(unit, c.side(), c.slot().z as int, z) as i64,
    }
}

proof fn lemma_axis_bounds(unit: int, s: int, slot: int, local: int)
    requires
        0 <= local < s,
        axis_fits(unit, s, slot),
    ensures
        s <= i64::MAX,
        i64::MIN <= s * slot <= i64::MAX,
        i64::MIN <= local + s * slot <= i64::MAX,
        i64::MIN <= unit * (local + s * slot) <= i64::MAX,
        unit * (local + s * slot) == world_axis(unit, s, slot, local),
{
    let m = s * (abs(slot) + 1);
    let a = abs(slot);
    let u = abs(unit);
    assert(s <= m && -m <= s * slot <= m && -m <= local + s * slot <= m) by (nonlinear_arith)
        requires
            m == s * (a + 1),
            a == abs(slot),
            0 <= local < s,
    ;
    let c = local + s * slot;
    assert(-(u * m) <= unit * c <= u * m) by (nonlinear_arith)
        requires
            -m <= c <= m,
            u == abs(unit),
    ;
    assert(unit * (local + s * slot) == unit * local + unit * s * slot) by (nonlinear_arith);
}

/// World coordinate on one axis of local cell `local` of a chunk of side `s`
/// in grid slot `slot`.
pub fn world_coordinate(unit: i64, s: usize, slot: i64, local: usize) -> (r: i64)
    requires
        local < s,
        axis_fits(unit as int, s as int, slot as int),
    ensures
        r == world_axis(unit as int, s as int, slot as int, local as int),
{
    proof {
        lemma_axis_bounds(unit as int, s as int, slot as int, local as int);
    }
    let base: i64 = (s as i64) * slot;
    let offset: i64 = (local as i64) + base;
    unit * offset
}

/// World position of local cell `(x, y, z)` of `chunk`.
pub fn voxel_world_position(unit: i64, chunk: &Chunk, x: usize, y: usize, z: usize) -> (r: IVec3)
    requires
        in_bounds(chunk.side(), x as int, y as int, z as int),
        placement_fits(unit as int, *chunk),
    ensures
        r == world_point(unit as int, *chunk, x as int, y as int, z as int),
{
    let s = chunk.size();
    let slot = chunk.position();
    IVec3 {
        x: world_coordinate(unit, s, slot.x, x),
        y: world_coordinate(unit, s, slot.y, y),
        z: world_coordinate(unit, s, slot.z, z),
    }
}

/// World positions of the solid voxels among the first `n` cells of `c`,
/// in storage order.
pub open spec fn chunk_instances_upto(unit: int, c: Chunk, n: int) -> Seq<IVec3>
    decreases n,
{
    if n <= 0 {
        Seq::empty()
    } else {
        let prev = chunk_instances_upto(unit, c, n - 1);
        let (x, y, z) = coord_of(c.side(), n - 1);
        if c.cells()[n - 1].id == 0 {
            prev
        } else {
            prev.push(world_point(unit, c, x, y, z))
        }
    }
}

/// World positions of all solid voxels of `c`, in storage order.
pub open spec fn chunk_instances_of(unit: int, c: Chunk) -> Seq<IVec3> {
    chunk_instances_upto(unit, c, cube(c.side()))
}

/// Instances of the first `n` chunks, chunk after chunk.
pub open spec fn instances_upto(unit: int, chunks: Seq<Chunk>, n: int) -> Seq<IVec3>
    decreases n,
{
    if n <= 0 {
        Seq::empty()
    } else {
        instances_upto(unit, chunks, n - 1) + chunk_instances_of(unit, chunks[n - 1])
    }
}

/// Instances of all chunks, chunk after chunk.
pub open spec fn world_instances_of(unit: int, chunks: Seq<Chunk>) -> Seq<IVec3> {
    instances_upto(unit, chunks, chunks.len() as int)
}

/// Every chunk is well formed and its world coordinates fit in an `i64`.
pub open spec fn chunks_placeable(unit: int, chunks: Seq<Chunk>) -> bool {
    forall|j: int| 0 <= j < chunks.len() ==> (#[trigger] chunks[j]).wf() && placement_fits(unit, chunks[j])
}

/// The world position of every solid voxel of `chunk`, in storage order.
/// Empty cells get no instance.
pub fn chunk_instances(unit: i64, chunk: &Chunk) -> (r: Vec<IVec3>)
    requires
        chunk.wf(),
        placement_fits(unit as int, *chunk),
    ensures
        r@ == chunk_instances_of(unit as int, *chunk),
{
    let s = chunk.size();
    let n = chunk.len();
    let mut out: Vec<IVec3> = Vec::new();
    let mut i: usize = 0;
    while i < n
        invariant
            chunk.wf(),
            placement_fits(unit as int, *chunk),
            s == chunk.side(),
            n == cube(s as int),
            0 <= i <= n,
            out@ == chunk_instances_upto(unit as int, *chunk, i as int),
        decreases n - i,
    {
        proof {
            lemma_index_covers(s as int, i as int);
            assert(s * s <= s * s * s) by (nonlinear_arith)
                requires
                    s * s * s > 0,
            ;
        }
        let x = i % s;
        let y = (i / s) % s;
        let z = i / (s * s);
        match chunk.get(x, y, z) {
            Some(v) => {
                if v.id != 0 {
                    out.push(voxel_world_position(unit, chunk, x, y, z));
                }
            },
            None => {},
        }
        i += 1;
    }
    out
}

/// The world position of every solid voxel of every chunk: the chunks in
/// order, and within each chunk its cells in storage order.
pub fn world_instances(unit: i64, chunks: &Vec<Chunk>) -> (r: Vec<IVec3>)
    requires
        chunks_placeable(unit as int, chunks@),
    ensures
        r@ == world_instances_of(unit as int, chunks@),
{
    let mut out: Vec<IVec3> = Vec::new();
    let mut j: usize = 0;
    while j < chunks.len()
        invariant
            chunks_placeable(unit as int, chunks@),
            0 <= j <= chunks.len(),
            out@ == instances_upto(unit as int, chunks@, j as int),
        decreases chunks.len() - j,
    {
        let mut part = chunk_instances(unit, &chunks[j]);
        out.append(&mut part);
        j += 1;
    }
    out
}

fn axis_fits_check(unit: i64, s: usize, slot: i64) -> (r: bool)
    ensures
        r == axis_fits(unit as int, s as int, slot as int),
{
    let a: u128 = if slot < 0 {
        (0i128 - (slot as i128)) as u128
    } else {
        slot as u128
    };
    let u: u128 = if unit < 0 {
        (0i128 - (unit as i128)) as u128
    } else {
        unit as u128
    };
    let sw: u128 = s as u128;
    assert(sw * (a + 1) <= 0x1_0000_0000_0000_0000 * 0x8000_0000_0000_0001) by (nonlinear_arith)
        requires
            sw <= 0xffff_ffff_ffff_ffff,
            a <= 0x8000_0000_0000_0000,
    ;
    let m: u128 = sw * (a + 1);
    if m > 0x7fff_ffff_ffff_ffff {
        false
    } else {
        assert(u * m <= 0x8000_0000_0000_0000 * 0x7fff_ffff_ffff_ffff) by (nonlinear_arith)
            requires
                u <= 0x8000_0000_0000_0000,
                m <= 0x7fff_ffff_ffff_ffff,
        ;
        u * m <= 0x7fff_ffff_ffff_ffff
    }
}

/// Whether the world coordinates of every cell of `chunk` fit in an `i64`,
/// as `chunk_instances` and `voxel_world_position` require.
pub fn can_place(unit: i64, chunk: &Chunk) -> (r: bool)
    ensures
        r == placement_fits(unit as int, *chunk),
{
    let s = chunk.size();
    let slot = chunk.position();
    axis_fits_check(unit, s, slot.x) && axis_fits_check(unit, s, slot.y) && axis_fits_check(
        unit,
        s,
        slot.z,
    )
}

/// World position of the cell stored at index `i` of `c`.
pub open spec fn world_point_at(unit: int, c: Chunk, i: int) -> IVec3 {
    let (x, y, z) = coord_of(c.side(), i);
    world_point(unit, c, x, y, z)
}

proof fn lemma_world_axis_injective(
    unit: int,
    s: int,
    slot1: int,
    local1: int,
    slot2: int,
    local2: int,
)
    requires
        unit != 0,
        0 <= local1 < s,
        0 <= local2 < s,
        axis_fits(unit, s, slot1),
        axis_fits(unit, s, slot2),
        world_axis(unit, s, slot1, local1) as i64 == world_axis(unit, s, slot2, local2) as i64,
    ensures
        slot1 == slot2,
        local1 == local2,
{
    lemma_axis_bounds(unit, s, slot1, local1);
    lemma_axis_bounds(unit, s, slot2, local2);
    let q1 = local1 + s * slot1;
    let q2 = local2 + s * slot2;
    assert(q1 == q2) by (nonlinear_arith)
        requires
            unit != 0,
            unit * q1 == unit * q2,
    ;
    lemma_fundamental_div_mod_converse(q1, s, slot1, local1);
    lemma_fundamental_div_mod_converse(q2, s, slot2, local2);
}

/// Two cells of chunks of the same side, in range and placeable, that land on
/// the same world position are the same cell of chunks in the same slot.
proof fn lemma_world_point_injective(unit: int, c1: Chunk, i1: int, c2: Chunk, i2: int)
    requires
        unit != 0,
        c1.side() == c2.side(),
        placement_fits(unit, c1),
        placement_fits(unit, c2),
        0 <= i1 < cube(c1.side()),
        0 <= i2 < cube(c2.side()),
        world_point_at(unit, c1, i1) == world_point_at(unit, c2, i2),
    ensures
        c1.slot() == c2.slot(),
        i1 == i2,
{
    let s = c1.side();
    lemma_index_covers(s, i1);
    lemma_index_covers(s, i2);
    let (x1, y1, z1) = coord_of(s, i1);
    let (x2, y2, z2) = coord_of(s, i2);
    lemma_world_axis_injective(unit, s, c1.slot().x as int, x1, c2.slot().x as int, x2);
    lemma_world_axis_injective(unit, s, c1.slot().y as int, y1, c2.slot().y as int, y2);
    lemma_world_axis_injective(unit, s, c1.slot().z as int, z1, c2.slot().z as int, z2);
}

/// `p` is the world position of one of the first `n` cells of `c`.
pub open spec fn placed_from_cell(unit: int, c: Chunk, n: int, p: IVec3) -> bool {
    exists|i: int| 0 <= i < n && p == #[trigger] world_point_at(unit, c, i)
}

proof fn lemma_chunk_instances_distinct(unit: int, c: Chunk, n: int)
    requires
        unit != 0,
        c.wf(),
        placement_fits(unit, c),
        0 <= n <= cube(c.side()),
    ensures
        chunk_instances_upto(unit, c, n).no_duplicates(),
        forall|k: int|
            0 <= k < chunk_instances_upto(unit, c, n).len() ==> placed_from_cell(
                unit,
                c,
                n,
                #[trigger] chunk_instances_upto(unit, c, n)[k],
            ),
    decreases n,
{
    if n > 0 {
        lemma_chunk_instances_distinct(unit, c, n - 1);
        let prev = chunk_instances_upto(unit, c, n - 1);
        let cur = chunk_instances_upto(unit, c, n);
        assert forall|k: int| 0 <= k < prev.len() implies placed_from_cell(unit, c, n, #[trigger] prev[k]) by {
            let i = choose|i: int| 0 <= i < n - 1 && prev[k] == #[trigger] world_point_at(unit, c, i);
            assert(0 <= i < n && prev[k] == world_point_at(unit, c, i));
        }
        if c.cells()[n - 1].id != 0 {
            let p = world_point_at(unit, c, n - 1);
            assert(cur == prev.push(p));
            assert forall|k: int| 0 <= k < prev.len() implies prev[k] != p by {
                let i = choose|i: int| 0 <= i < n - 1 && prev[k] == #[trigger] world_point_at(unit, c, i);
                if prev[k] == p {
                    lemma_world_point_injective(unit, c, i, c, n - 1);
                }
            }
            assert forall|k: int| 0 <= k < cur.len() implies placed_from_cell(unit, c, n, #[trigger] cur[k]) by {
                if k < prev.len() {
                    assert(cur[k] == prev[k]);
                } else {
                    assert(cur[k] == world_point_at(unit, c, n - 1));
                }
            }
        }
    }
}

/// Chunks of one side length, placeable, in pairwise distinct grid slots.
pub open spec fn distinct_slots(unit: int, chunks: Seq<Chunk>, s: int) -> bool {
    &&& chunks_placeable(unit, chunks)
    &&& forall|j: int| 0 <= j < chunks.len() ==> (#[trigger] chunks[j]).side() == s
    &&& forall|j1: int, j2: int|
        0 <= j1 < chunks.len() && 0 <= j2 < chunks.len() && j1 != j2 ==> (#[trigger] chunks[j1]).slot()
            != (#[trigger] chunks[j2]).slot()
}

/// `p` is the world position of a cell of one of the first `n` chunks.
pub open spec fn placed_from_chunks(unit: int, chunks: Seq<Chunk>, s: int, n: int, p: IVec3) -> bool {
    exists|m: int, i: int|
        0 <= m < n && 0 <= i < cube(s) && p == #[trigger] world_point_at(unit, chunks[m], i)
}

proof fn lemma_instances_distinct(unit: int, chunks: Seq<Chunk>, s: int, n: int)
    requires
        unit != 0,
        distinct_slots(unit, chunks, s),
        0 <= n <= chunks.len(),
    ensures
        instances_upto(unit, chunks, n).no_duplicates(),
        forall|k: int|
            0 <= k < instances_upto(unit, chunks, n).len() ==> placed_from_chunks(
                unit,
                chunks,
                s,
                n,
                #[trigger] instances_upto(unit, chunks, n)[k],
            ),
    decreases n,
{
    if n > 0 {
        lemma_instances_distinct(unit, chunks, s, n - 1);
        let c = chunks[n - 1];
        assert(c.wf() && placement_fits(unit, c) && c.side() == s);
        lemma_chunk_instances_distinct(unit, c, cube(s));
        let a = instances_upto(unit, chunks, n - 1);
        let b = chunk_instances_of(unit, c);
        let cur = instances_upto(unit, chunks, n);
        assert(cur == a + b);
        assert forall|k1: int, k2: int|
            0 <= k1 < cur.len() && 0 <= k2 < cur.len() && k1 != k2 implies cur[k1] != cur[k2] by {
            if k1 < a.len() && k2 >= a.len() {
                assert(placed_from_chunks(unit, chunks, s, n - 1, a[k1]));
                assert(placed_from_cell(unit, c, cube(s), b[k2 - a.len()]));
                let (m, i1) = choose|m: int, i: int|
                    0 <= m < n - 1 && 0 <= i < cube(s) && a[k1] == #[trigger] world_point_at(
                        unit,
                        chunks[m],
                        i,
                    );
                let i2 = choose|i: int|
                    0 <= i < cube(s) && b[k2 - a.len()] == #[trigger] world_point_at(unit, c, i);
                if cur[k1] == cur[k2] {
                    assert(chunks[m].wf() && placement_fits(unit, chunks[m]) && chunks[m].side() == s);
                    lemma_world_point_injective(unit, chunks[m], i1, c, i2);
                }
            } else if k2 < a.len() && k1 >= a.len() {
                assert(placed_from_chunks(unit, chunks, s, n - 1, a[k2]));
                assert(placed_from_cell(unit, c, cube(s), b[k1 - a.len()]));
                let (m, i2) = choose|m: int, i: int|
                    0 <= m < n - 1 && 0 <= i < cube(s) && a[k2] == #[trigger] world_point_at(
                        unit,
                        chunks[m],
                        i,
                    );
                let i1 = choose|i: int|
                    0 <= i < cube(s) && b[k1 - a.len()] == #[trigger] world_point_at(unit, c, i);
                if cur[k1] == cur[k2] {
                    assert(chunks[m].wf() && placement_fits(unit, chunks[m]) && chunks[m].side() == s);
                    lemma_world_point_injective(unit, chunks[m], i2, c, i1);
                }
            } else if k1 < a.len() {
                assert(cur[k1] == a[k1] && cur[k2] == a[k2]);
            } else {
                assert(cur[k1] == b[k1 - a.len()] && cur[k2] == b[k2 - a.len()]);
            }
        }
        assert forall|k: int| 0 <= k < cur.len() implies placed_from_chunks(
            unit,
            chunks,
            s,
            n,
            #[trigger] cur[k],
        ) by {
            if k < a.len() {
                assert(cur[k] == a[k]);
                assert(placed_from_chunks(unit, chunks, s, n - 1, a[k]));
                let (m, i) = choose|m: int, i: int|
                    0 <= m < n - 1 && 0 <= i < cube(s) && a[k] == #[trigger] world_point_at(
                        unit,
                        chunks[m],
                        i,
                    );
                assert(0 <= m < n && cur[k] == world_point_at(unit, chunks[m], i));
            } else {
                assert(cur[k] == b[k - a.len()]);
                assert(placed_from_cell(unit, c, cube(s), b[k - a.len()]));
                let i = choose|i: int|
                    0 <= i < cube(s) && b[k - a.len()] == #[trigger] world_point_at(unit, c, i);
                assert(0 <= n - 1 < n && cur[k] == world_point_at(unit, chunks[n - 1], i));
            }
        }
    }
}

/// Chunks of one side length in pairwise distinct grid slots, with a nonzero
/// voxel size, never place two instances at the same world position.
pub proof fn instances_distinct(unit: int, chunks: Seq<Chunk>, s: int)
    requires
        unit != 0,
        distinct_slots(unit, chunks, s),
    ensures
        world_instances_of(unit, chunks).no_duplicates(),
{
    lemma_instances_distinct(unit, chunks, s, chunks.len() as int);
}

/// Every cell of `c` holds a solid voxel.
pub open spec fn is_full(c: Chunk) -> bool {
    forall|i: int| 0 <= i < cube(c.side()) ==> (#[trigger] c.cells()[i]).id != 0
}

proof fn lemma_full_chunk_count(unit: int, c: Chunk, n: int)
    requires
        is_full(c),
        0 <= n <= cube(c.side()),
    ensures
        chunk_instances_upto(unit, c, n).len() == n,
    decreases n,
{
    if n > 0 {
        lemma_full_chunk_count(unit, c, n - 1);
        assert(c.cells()[n - 1].id != 0);
    }
}

proof fn lemma_full_chunks_count(unit: int, chunks: Seq<Chunk>, s: int, n: int)
    requires
        forall|j: int|
            0 <= j < chunks.len() ==> (#[trigger] chunks[j]).wf() && chunks[j].side() == s && is_full(
                chunks[j],
            ),
        0 <= n <= chunks.len(),
    ensures
        instances_upto(unit, chunks, n).len() == n * cube(s),
    decreases n,
{
    if n > 0 {
        lemma_full_chunks_count(unit, chunks, s, n - 1);
        let c = chunks[n - 1];
        assert(c.wf() && c.side() == s && is_full(c));
        assert(cube(s) >= 0) by (nonlinear_arith)
            requires
                s >= 0,
        ;
        lemma_full_chunk_count(unit, c, cube(s));
        assert((n - 1) * cube(s) + cube(s) == n * cube(s)) by (nonlinear_arith);
    }
}

/// Chunks of side `s` whose every cell is solid yield exactly `s³` instances
/// each.
pub proof fn full_chunks_instance_count(unit: int, chunks: Seq<Chunk>, s: int)
    requires
        forall|j: int|
            0 <= j < chunks.len() ==> (#[trigger] chunks[j]).wf() && chunks[j].side() == s && is_full(
                chunks[j],
            ),
    ensures
        world_instances_of(unit, chunks).len() == chunks.len() * cube(s),
{
    lemma_full_chunks_count(unit, chunks, s, chunks.len() as int);
}

/// `c` is a chunk of side `size` in grid slot `slot` whose every cell holds `value`.
pub open spec fn is_filled_chunk(c: Chunk, slot: IVec3, size: int, value: Voxel) -> bool {
    &&& c.wf()
    &&& c.slot() == slot
    &&& c.side() == size
    &&& c.cells() == Seq::new(cube(size) as nat, |i: int| value)
}

/// The grid slot of the `k`-th chunk of a grid with `rows` chunks along z.
pub open spec fn grid_slot(rows: int, k: int) -> IVec3 {
    IVec3 { x: (k / rows) as i64, y: 0, z: (k % rows) as i64 }
}

/// Builds `columns * rows` chunks of side `size` in the slots `(cx, 0, cz)`
/// for `cx < columns` and `cz < rows`, `cx` varying slowest, each filled with
/// `value`.
pub fn build_chunk_grid(columns: usize, rows: usize, size: usize, value: Voxel) -> (r: Vec<Chunk>)
    requires
        columns <= i64::MAX,
        rows <= i64::MAX,
        size * size * size <= usize::MAX,
    ensures
        r.len() == columns * rows,
        forall|k: int|
            0 <= k < r.len() ==> is_filled_chunk(
                #[trigger] r@[k],
                grid_slot(rows as int, k),
                size as int,
                value,
            ),
{
    let mut out: Vec<Chunk> = Vec::new();
    let mut cx: usize = 0;
    while cx < columns
        invariant
            columns <= i64::MAX,
            rows <= i64::MAX,
            size * size * size <= usize::MAX,
            0 <= cx <= columns,
            out.len() == cx * rows,
            forall|k: int|
                0 <= k < out.len() ==> is_filled_chunk(
                    #[trigger] out@[k],
                    grid_slot(rows as int, k),
                    size as int,
                    value,
                ),
        decreases columns - cx,
    {
        let mut cz: usize = 0;
        while cz < rows
            invariant
                columns <= i64::MAX,
                rows <= i64::MAX,
                size * size * size <= usize::MAX,
                0 <= cx < columns,
                0 <= cz <= rows,
                out.len() == cx * rows + cz,
                forall|k: int|
                    0 <= k < out.len() ==> is_filled_chunk(
                        #[trigger] out@[k],
                        grid_slot(rows as int, k),
                        size as int,
                        value,
                    ),
            decreases rows - cz,
        {
            let mut chunk = Chunk::new(IVec3::new(cx as i64, 0, cz as i64), size);
            chunk.fill(value);
            proof {
                lemma_fundamental_div_mod_converse(out.len() as int, rows as int, cx as int, cz as int);
            }
            out.push(chunk);
            cz += 1;
        }
        assert(out.len() == (cx + 1) * rows) by (nonlinear_arith)
            requires
                out.len() == cx * rows + rows,
        ;
        cx += 1;
    }
    out
}

} // verus!
