//! The cube mesh template: one unit cube, instanced once per solid voxel.
//!
//! All tables hold exact integers. Positions are in half units, so that the
//! cube spans -1..=1 on each axis and stands for a unit cube centred on the
//! origin. Texture coordinates are in hundredths of the atlas. Normals are
//! axis-aligned unit vectors.
use crate::grid::IVec3;
use vstd::prelude::*;

verus! {

/// Number of vertices of the template: 4 per face, 6 faces.
pub const VERTEX_COUNT: usize = 24;

/// Number of triangle indices of the template: 2 triangles per face.
pub const INDEX_COUNT: usize = 36;

/// A texture coordinate in hundredths of the atlas; (0, 0) is its top-left.
#[derive(Debug, Clone, Copy, PartialEq, Eq, Structural)]
pub struct Uv {
    pub u: u32,
    pub v: u32,
}

/// The four parallel tables of a triangle mesh.
#[derive(Debug)]
pub struct CubeMesh {
    pub positions: Vec<IVec3>,
    pub normals: Vec<IVec3>,
    pub uvs: Vec<Uv>,
    pub indices: Vec<u32>,
}

pub open spec fn v3(x: int, y: int, z: int) -> IVec3 {
    IVec3 { x: x as i64, y: y as i64, z: z as i64 }
}

pub open spec fn uv(u: u32, v: u32) -> Uv {
    Uv { u, v }
}

/// Vertex positions, four per face, faces in the order
/// top (+y), bottom (-y), right (+x), left (-x), back (+z), forward (-z).
pub open spec fn cube_positions() -> Seq<IVec3> {
    seq![
        v3(-1, 1, -1), v3(1, 1, -1), v3(1, 1, 1), v3(-1, 1, 1),
        v3(-1, -1, -1), v3(1, -1, -1), v3(1, -1, 1), v3(-1, -1, 1),
        v3(1, -1, -1), v3(1, -1, 1), v3(1, 1, 1), v3(1, 1, -1),
        v3(-1, -1, -1), v3(-1, -1, 1), v3(-1, 1, 1), v3(-1, 1, -1),
        v3(-1, -1, 1), v3(-1, 1, 1), v3(1, 1, 1), v3(1, -1, 1),
        v3(-1, -1, -1), v3(-1, 1, -1), v3(1, 1, -1), v3(1, -1, -1),
    ]
}

/// The outward normal of each face, in face order.
pub open spec fn face_normal(face: int) -> IVec3 {
    if face == 0 {
        v3(0, 1, 0)
    } else if face == 1 {
        v3(0, -1, 0)
    } else if face == 2 {
        v3(1, 0, 0)
    } else if face == 3 {
        v3(-1, 0, 0)
    } else if face == 4 {
        v3(0, 0, 1)
    } else {
        v3(0, 0, -1)
    }
}

/// One normal per vertex: the normal of the vertex's face.
pub open spec fn cube_normals() -> Seq<IVec3> {
    Seq::new(VERTEX_COUNT as nat, |i: int| face_normal(i / 4))
}

/// Texture coordinates: top and bottom use their own bands of the atlas,
/// the four side faces share a third band.
pub open spec fn cube_uvs() -> Seq<Uv> {
    seq![
        uv(0, 20), uv(0, 0), uv(100, 0), uv(100, 20),
        uv(0, 45), uv(0, 25), uv(100, 25), uv(100, 45),
        uv(100, 45), uv(0, 45), uv(0, 20), uv(100, 20),
        uv(100, 45), uv(0, 45), uv(0, 20), uv(100, 20),
        uv(0, 45), uv(0, 20), uv(100, 20), uv(100, 45),
        uv(0, 45), uv(0, 20), uv(100, 20), uv(100, 45),
    ]
}

/// Two triangles per face, counter-clockwise seen from outside the cube.
pub open spec fn cube_indices() -> Seq<u32> {
    seq![
        0, 3, 1, 1, 3, 2,
        4, 5, 7, 5, 6, 7,
        8, 11, 9, 9, 11, 10,
        12, 13, 15, 13, 14, 15,
        16, 19, 17, 17, 19, 18,
        20, 21, 23, 21, 22, 23,
    ]
}

impl CubeMesh {
    /// The mesh holds exactly the template's tables.
    pub open spec fn is_cube_template(&self) -> bool {
        &&& self.positions@ == cube_positions()
        &&& self.normals@ == cube_normals()
        &&& self.uvs@ == cube_uvs()
        &&& self.indices@ == cube_indices()
    }
}

/// The vector from `a` to `b`.
pub open spec fn edge(a: IVec3, b: IVec3) -> (int, int, int) {
    (b.x - a.x, b.y - a.y, b.z - a.z)
}

pub open spec fn cross(a: (int, int, int), b: (int, int, int)) -> (int, int, int) {
    (a.1 * b.2 - a.2 * b.1, a.2 * b.0 - a.0 * b.2, a.0 * b.1 - a.1 * b.0)
}

pub open spec fn dot(a: (int, int, int), n: IVec3) -> int {
    a.0 * n.x + a.1 * n.y + a.2 * n.z
}

/// Triangle `t` of the template (indices `3t .. 3t + 3`) lies on face `t / 2`:
/// its three vertices carry that face's normal, and its counter-clockwise
/// winding gives a surface normal pointing the same way.
pub open spec fn winds_outward(t: int) -> bool {
    let i0 = cube_indices()[3 * t] as int;
    let i1 = cube_indices()[3 * t + 1] as int;
    let i2 = cube_indices()[3 * t + 2] as int;
    let a = cube_positions()[i0];
    let b = cube_positions()[i1];
    let c = cube_positions()[i2];
    let n = face_normal(t / 2);
    &&& cube_normals()[i0] == n
    &&& cube_normals()[i1] == n
    &&& cube_normals()[i2] == n
    &&& dot(cross(edge(a, b), edge(a, c)), n) > 0
}

/// Building the template twice gives tables equal in content and order.
pub proof fn cube_mesh_idempotent(a: CubeMesh, b: CubeMesh)
    requires
        a.is_cube_template(),
        b.is_cube_template(),
    ensures
        a.positions@ == b.positions@,
        a.normals@ == b.normals@,
        a.uvs@ == b.uvs@,
        a.indices@ == b.indices@,
{
}

/// The template has 24 vertices with one normal and one texture coordinate
/// each, 36 indices all below 24, and each of its 12 triangles winds outward
/// with respect to the normal of its face.
pub proof fn cube_indices_valid()
    ensures
        cube_positions().len() == VERTEX_COUNT,
        cube_normals().len() == VERTEX_COUNT,
        cube_uvs().len() == VERTEX_COUNT,
        cube_indices().len() == INDEX_COUNT,
        forall|k: int| 0 <= k < INDEX_COUNT ==> #[trigger] cube_indices()[k] < VERTEX_COUNT,
        forall|t: int| 0 <= t < INDEX_COUNT / 3 ==> #[trigger] winds_outward(t),
{
    assert(cube_positions().len() == VERTEX_COUNT);
    assert(cube_uvs().len() == VERTEX_COUNT);
    assert(cube_indices().len() == INDEX_COUNT);
    assert forall|k: int| 0 <= k < INDEX_COUNT implies #[trigger] cube_indices()[k] < VERTEX_COUNT by {
        assert(cube_indices()[k] < VERTEX_COUNT);
    }
    assert(winds_outward(0)) by (nonlinear_arith);
    assert(winds_outward(1)) by (nonlinear_arith);
    assert(winds_outward(2)) by (nonlinear_arith);
    assert(winds_outward(3)) by (nonlinear_arith);
    assert(winds_outward(4)) by (nonlinear_arith);
    assert(winds_outward(5)) by (nonlinear_arith);
    assert(winds_outward(6)) by (nonlinear_arith);
    assert(winds_outward(7)) by (nonlinear_arith);
    assert(winds_outward(8)) by (nonlinear_arith);
    assert(winds_outward(9)) by (nonlinear_arith);
    assert(winds_outward(10)) by (nonlinear_arith);
    assert(winds_outward(11)) by (nonlinear_arith);
}

/// Builds the cube mesh template.
pub fn generate_cube_mesh() -> (r: CubeMesh)
    ensures
        r.is_cube_template(),
{
    let positions = vec![
        IVec3::new(-1, 1, -1), IVec3::new(1, 1, -1), IVec3::new(1, 1, 1), IVec3::new(-1, 1, 1),
        IVec3::new(-1, -1, -1), IVec3::new(1, -1, -1), IVec3::new(1, -1, 1), IVec3::new(-1, -1, 1),
        IVec3::new(1, -1, -1), IVec3::new(1, -1, 1), IVec3::new(1, 1, 1), IVec3::new(1, 1, -1),
        IVec3::new(-1, -1, -1), IVec3::new(-1, -1, 1), IVec3::new(-1, 1, 1), IVec3::new(-1, 1, -1),
        IVec3::new(-1, -1, 1), IVec3::new(-1, 1, 1), IVec3::new(1, 1, 1), IVec3::new(1, -1, 1),
        IVec3::new(-1, -1, -1), IVec3::new(-1, 1, -1), IVec3::new(1, 1, -1), IVec3::new(1, -1, -1),
    ];
    let up = IVec3::new(0, 1, 0);
    let down = IVec3::new(0, -1, 0);
    let right = IVec3::new(1, 0, 0);
    let left = IVec3::new(-1, 0, 0);
    let back = IVec3::new(0, 0, 1);
    let forward = IVec3::new(0, 0, -1);
    let normals = vec![
        up, up, up, up,
        down, down, down, down,
        right, right, right, right,
        left, left, left, left,
        back, back, back, back,
        forward, forward, forward, forward,
    ];
    let uvs = vec![
        Uv { u: 0, v: 20 }, Uv { u: 0, v: 0 }, Uv { u: 100, v: 0 }, Uv { u: 100, v: 20 },
        Uv { u: 0, v: 45 }, Uv { u: 0, v: 25 }, Uv { u: 100, v: 25 }, Uv { u: 100, v: 45 },
        Uv { u: 100, v: 45 }, Uv { u: 0, v: 45 }, Uv { u: 0, v: 20 }, Uv { u: 100, v: 20 },
        Uv { u: 100, v: 45 }, Uv { u: 0, v: 45 }, Uv { u: 0, v: 20 }, Uv { u: 100, v: 20 },
        Uv { u: 0, v: 45 }, Uv { u: 0, v: 20 }, Uv { u: 100, v: 20 }, Uv { u: 100, v: 45 },
        Uv { u: 0, v: 45 }, Uv { u: 0, v: 20 }, Uv { u: 100, v: 20 }, Uv { u: 100, v: 45 },
    ];
    let indices: Vec<u32> = vec![
        0, 3, 1, 1, 3, 2,
        4, 5, 7, 5, 6, 7,
        8, 11, 9, 9, 11, 10,
        12, 13, 15, 13, 14, 15,
        16, 19, 17, 17, 19, 18,
        20, 21, 23, 21, 22, 23,
    ];
    let r = CubeMesh { positions, normals, uvs, indices };
    assert(r.positions@ =~= cube_positions());
    assert(r.normals@ =~= cube_normals());
    assert(r.uvs@ =~= cube_uvs());
    assert(r.indices@ =~= cube_indices());
    r
}

} // verus!
