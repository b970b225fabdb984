pub mod render;
pub mod serialization;
pub mod utils;
pub mod voxel;
