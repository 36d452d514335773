use std::collections::HashSet;
use voxel_world::scene::{
    build_chunk_grid, can_place, chunk_instances, voxel_world_position, world_coordinate, world_instances,
};
use voxel_world::{Chunk, IVec3, Voxel};

#[test]
fn placement_scenario() {
    let mut chunk = Chunk::new(IVec3::new(1, 0, 2), 16);
    chunk.set(3, 4, 5, Voxel { id: 1 });
    assert_eq!(voxel_world_position(1, &chunk, 3, 4, 5), IVec3::new(19, 4, 37));
    let placed = world_instances(1, &vec![chunk]);
    assert_eq!(placed, vec![IVec3::new(19, 4, 37)]);
}

#[test]
fn world_coordinate_formula() {
    assert_eq!(world_coordinate(1, 16, 1, 3), 19);
    assert_eq!(world_coordinate(1, 16, 2, 5), 37);
    assert_eq!(world_coordinate(2, 8, 3, 1), 2 * 1 + 2 * 8 * 3);
    assert_eq!(world_coordinate(3, 4, -2, 1), 3 * 1 + 3 * 4 * -2);
    assert_eq!(world_coordinate(1, 16, 0, 0), 0);
}

#[test]
fn unit_size_scales_positions() {
    let mut chunk = Chunk::new(IVec3::new(1, 1, -1), 4);
    chunk.set(1, 2, 3, Voxel { id: 1 });
    assert_eq!(chunk_instances(5, &chunk), vec![IVec3::new(25, 30, -5)]);
}

#[test]
fn empty_cells_are_skipped() {
    let mut chunk = Chunk::new(IVec3::new(0, 0, 0), 3);
    assert!(chunk_instances(1, &chunk).is_empty());
    chunk.set(2, 0, 0, Voxel { id: 1 });
    chunk.set(0, 0, 1, Voxel { id: 4 });
    // storage order: z slowest, x fastest
    assert_eq!(
        chunk_instances(1, &chunk),
        vec![IVec3::new(2, 0, 0), IVec3::new(0, 0, 1)]
    );
}

#[test]
fn three_full_chunks_end_to_end() {
    let n: usize = 4;
    let mut chunks = Vec::new();
    for x in 0..3 {
        let mut chunk = Chunk::new(IVec3::new(x, 0, 0), n);
        for cx in 0..n {
            for cy in 0..n {
                for cz in 0..n {
                    chunk.set(cx, cy, cz, Voxel { id: 1 });
                }
            }
        }
        chunks.push(chunk);
    }
    let placed = world_instances(1, &chunks);
    assert_eq!(placed.len(), 3 * n * n * n);
    let distinct: HashSet<(i64, i64, i64)> = placed.iter().map(|p| (p.x, p.y, p.z)).collect();
    assert_eq!(distinct.len(), placed.len());
}

#[test]
fn no_chunks_no_instances() {
    assert!(world_instances(1, &Vec::new()).is_empty());
}

#[test]
fn chunk_grid_slots_and_contents() {
    let chunks = build_chunk_grid(3, 3, 8, Voxel { id: 1 });
    assert_eq!(chunks.len(), 9);
    assert_eq!(chunks[0].position(), IVec3::new(0, 0, 0));
    assert_eq!(chunks[1].position(), IVec3::new(0, 0, 1));
    assert_eq!(chunks[3].position(), IVec3::new(1, 0, 0));
    assert_eq!(chunks[8].position(), IVec3::new(2, 0, 2));
    for c in &chunks {
        assert_eq!(c.size(), 8);
        assert_eq!(c.get(7, 7, 7), Some(&Voxel { id: 1 }));
        assert_eq!(c.get(0, 0, 0), Some(&Voxel { id: 1 }));
    }
    let placed = world_instances(1, &chunks);
    assert_eq!(placed.len(), 9 * 512);
    let distinct: HashSet<(i64, i64, i64)> = placed.iter().map(|p| (p.x, p.y, p.z)).collect();
    assert_eq!(distinct.len(), placed.len());
    assert!(placed.contains(&IVec3::new(23, 7, 23)));
}

#[test]
fn can_place_detects_overflow() {
    assert!(can_place(1, &Chunk::new(IVec3::new(1, 0, 2), 16)));
    assert!(!can_place(1, &Chunk::new(IVec3::new(i64::MAX, 0, 0), 2)));
    assert!(!can_place(1, &Chunk::new(IVec3::new(0, i64::MIN, 0), 2)));
    assert!(can_place(i64::MAX, &Chunk::new(IVec3::new(0, 0, 0), 1)));
    assert!(!can_place(i64::MAX, &Chunk::new(IVec3::new(0, 0, 0), 2)));
    assert!(!can_place(i64::MIN, &Chunk::new(IVec3::new(0, 0, 0), 1)));
    assert!(can_place(-3, &Chunk::new(IVec3::new(-4, 5, 6), 8)));
}

#[test]
fn negative_unit_mirrors_positions() {
    let mut chunk = Chunk::new(IVec3::new(1, 0, 0), 2);
    chunk.set(1, 1, 1, Voxel { id: 1 });
    assert_eq!(chunk_instances(-1, &chunk), vec![IVec3::new(-3, -1, -1)]);
}
