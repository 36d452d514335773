pub mod chunk;
pub mod grid;
pub mod mesh;
pub mod scene;
pub mod voxel;

pub use chunk::Chunk;
pub use grid::IVec3;
pub use voxel::Voxel;
