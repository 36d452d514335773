use voxel_world::mesh::{generate_cube_mesh, Uv, INDEX_COUNT, VERTEX_COUNT};
use voxel_world::IVec3;

#[test]
fn generating_twice_gives_equal_tables() {
    let a = generate_cube_mesh();
    let b = generate_cube_mesh();
    assert_eq!(a.positions, b.positions);
    assert_eq!(a.normals, b.normals);
    assert_eq!(a.uvs, b.uvs);
    assert_eq!(a.indices, b.indices);
}

#[test]
fn table_sizes() {
    let m = generate_cube_mesh();
    assert_eq!(m.positions.len(), 24);
    assert_eq!(m.normals.len(), 24);
    assert_eq!(m.uvs.len(), 24);
    assert_eq!(m.indices.len(), 36);
    assert_eq!(VERTEX_COUNT, 24);
    assert_eq!(INDEX_COUNT, 36);
}

#[test]
fn indices_reference_declared_vertices() {
    let m = generate_cube_mesh();
    assert!(m.indices.iter().all(|i| (*i as usize) < m.positions.len()));
}

#[test]
fn triangles_wind_outward() {
    let m = generate_cube_mesh();
    for t in 0..12 {
        let i0 = m.indices[3 * t] as usize;
        let i1 = m.indices[3 * t + 1] as usize;
        let i2 = m.indices[3 * t + 2] as usize;
        let (a, b, c) = (m.positions[i0], m.positions[i1], m.positions[i2]);
        let e1 = (b.x - a.x, b.y - a.y, b.z - a.z);
        let e2 = (c.x - a.x, c.y - a.y, c.z - a.z);
        let cross = (
            e1.1 * e2.2 - e1.2 * e2.1,
            e1.2 * e2.0 - e1.0 * e2.2,
            e1.0 * e2.1 - e1.1 * e2.0,
        );
        let n = m.normals[i0];
        assert_eq!(m.normals[i1], n);
        assert_eq!(m.normals[i2], n);
        assert!(cross.0 * n.x + cross.1 * n.y + cross.2 * n.z > 0, "triangle {}", t);
    }
}

#[test]
fn faces_in_order_with_constant_normals() {
    let m = generate_cube_mesh();
    let expected = [
        IVec3::new(0, 1, 0),
        IVec3::new(0, -1, 0),
        IVec3::new(1, 0, 0),
        IVec3::new(-1, 0, 0),
        IVec3::new(0, 0, 1),
        IVec3::new(0, 0, -1),
    ];
    for (i, n) in m.normals.iter().enumerate() {
        assert_eq!(*n, expected[i / 4]);
    }
}

#[test]
fn cube_is_centred_on_origin() {
    let m = generate_cube_mesh();
    let mut sum = (0i64, 0i64, 0i64);
    for p in &m.positions {
        assert!(p.x.abs() == 1 && p.y.abs() == 1 && p.z.abs() == 1);
        sum = (sum.0 + p.x, sum.1 + p.y, sum.2 + p.z);
    }
    assert_eq!(sum, (0, 0, 0));
    assert_eq!(m.positions[0], IVec3::new(-1, 1, -1));
    assert_eq!(m.positions[10], IVec3::new(1, 1, 1));
    assert_eq!(m.positions[23], IVec3::new(1, -1, -1));
}

#[test]
fn uv_bands() {
    let m = generate_cube_mesh();
    assert_eq!(m.uvs[0], Uv { u: 0, v: 20 });
    assert_eq!(m.uvs[1], Uv { u: 0, v: 0 });
    assert_eq!(m.uvs[5], Uv { u: 0, v: 25 });
    assert_eq!(m.uvs[7], Uv { u: 100, v: 45 });
    // top face in the top band, bottom face in its own band
    assert!(m.uvs[0..4].iter().all(|uv| uv.v <= 20));
    assert!(m.uvs[4..8].iter().all(|uv| uv.v >= 25 && uv.v <= 45));
    // the four side faces share one band
    assert!(m.uvs[8..24].iter().all(|uv| uv.v >= 20 && uv.v <= 45));
    assert_eq!(m.uvs[8..12], m.uvs[12..16]);
    assert_eq!(m.uvs[16..20], m.uvs[20..24]);
}

#[test]
fn first_and_last_triangles() {
    let m = generate_cube_mesh();
    assert_eq!(m.indices[0..6], [0, 3, 1, 1, 3, 2]);
    assert_eq!(m.indices[30..36], [20, 21, 23, 21, 22, 23]);
}
