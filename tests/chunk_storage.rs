use voxel_world::{Chunk, IVec3, Voxel};

fn origin() -> IVec3 {
    IVec3::new(0, 0, 0)
}

#[test]
fn new_chunk_is_empty_and_sized() {
    let n: usize = 5;
    let chunk = Chunk::new(origin(), n);
    assert_eq!(chunk.len(), n * n * n);
    assert_eq!(chunk.size(), n);
    for z in 0..n {
        for y in 0..n {
            for x in 0..n {
                assert_eq!(chunk.get(x, y, z), Some(&Voxel { id: 0 }));
            }
        }
    }
}

#[test]
fn new_standard_uses_fixed_size() {
    let chunk = Chunk::new_standard(IVec3::new(1, 2, 3));
    assert_eq!(chunk.size(), Chunk::SIZE);
    assert_eq!(chunk.len(), 16 * 16 * 16);
    assert_eq!(chunk.position(), IVec3::new(1, 2, 3));
    assert_eq!(chunk.get(15, 15, 15), Some(&Voxel { id: 0 }));
    assert_eq!(chunk.get(16, 0, 0), None);
}

#[test]
fn zero_sized_chunk_has_no_cells() {
    let chunk = Chunk::new(origin(), 0);
    assert_eq!(chunk.len(), 0);
    assert_eq!(chunk.get(0, 0, 0), None);
}

#[test]
fn linearize_orders_z_then_y_then_x() {
    assert_eq!(Chunk::linearize(0, 0, 0), 0);
    assert_eq!(Chunk::linearize(1, 0, 0), 1);
    assert_eq!(Chunk::linearize(0, 1, 0), 16);
    assert_eq!(Chunk::linearize(0, 0, 1), 256);
    assert_eq!(Chunk::linearize(1, 2, 3), 3 * 256 + 2 * 16 + 1);
    assert_eq!(Chunk::linearize(15, 15, 15), 4095);
}

#[test]
fn flatten_cartesian_is_a_bijection() {
    let n: usize = 4;
    let chunk = Chunk::new(origin(), n);
    let mut seen = vec![false; n * n * n];
    for z in 0..n {
        for y in 0..n {
            for x in 0..n {
                let i = chunk.flatten_cartesian(x, y, z);
                assert_eq!(i, z * n * n + y * n + x);
                assert!(i < n * n * n);
                assert!(!seen[i]);
                seen[i] = true;
            }
        }
    }
    assert!(seen.iter().all(|s| *s));
}

#[test]
fn set_then_get_in_range() {
    let mut chunk = Chunk::new(origin(), 4);
    chunk.set(1, 2, 3, Voxel { id: 7 });
    assert_eq!(chunk.get(1, 2, 3), Some(&Voxel { id: 7 }));
    assert_eq!(chunk.get(3, 2, 1), Some(&Voxel { id: 0 }));
    chunk.set(1, 2, 3, Voxel { id: 0 });
    assert_eq!(chunk.get(1, 2, 3), Some(&Voxel { id: 0 }));
}

#[test]
fn out_of_range_get_is_none() {
    let mut chunk = Chunk::new(origin(), 4);
    chunk.fill(Voxel { id: 1 });
    assert_eq!(chunk.get(4, 0, 0), None);
    assert_eq!(chunk.get(0, 4, 0), None);
    assert_eq!(chunk.get(0, 0, 4), None);
    assert_eq!(chunk.get(usize::MAX, usize::MAX, usize::MAX), None);
    assert_eq!(chunk.get(3, 3, 3), Some(&Voxel { id: 1 }));
}

#[test]
fn out_of_range_set_changes_nothing() {
    let n: usize = 3;
    let mut chunk = Chunk::new(origin(), n);
    chunk.set(1, 1, 1, Voxel { id: 2 });
    chunk.set(n, 0, 0, Voxel { id: 9 });
    chunk.set(0, n, 0, Voxel { id: 9 });
    chunk.set(0, 0, n, Voxel { id: 9 });
    chunk.set(usize::MAX, 0, 0, Voxel { id: 9 });
    assert_eq!(chunk.len(), n * n * n);
    for z in 0..n {
        for y in 0..n {
            for x in 0..n {
                let expected = if (x, y, z) == (1, 1, 1) { 2 } else { 0 };
                assert_eq!(chunk.get(x, y, z), Some(&Voxel { id: expected }));
            }
        }
    }
}

#[test]
fn fill_sets_every_cell() {
    let n: usize = 3;
    let mut chunk = Chunk::new(IVec3::new(2, 0, 1), n);
    chunk.fill(Voxel { id: 1 });
    assert_eq!(chunk.position(), IVec3::new(2, 0, 1));
    for z in 0..n {
        for y in 0..n {
            for x in 0..n {
                assert_eq!(chunk.get(x, y, z), Some(&Voxel { id: 1 }));
            }
        }
    }
}

#[test]
fn voxel_emptiness() {
    assert!(Voxel { id: 0 }.is_empty());
    assert!(!Voxel { id: 1 }.is_empty());
    assert_eq!(Voxel { id: 3 }, Voxel { id: 3 });
    assert_ne!(Voxel { id: 3 }, Voxel { id: 4 });
}
