use torxel_engine::render::mesh_faces::{
    is_air_only, is_air_or_water, solid_mesh_faces, water_mesh_faces, Face, FaceDir,
};
use torxel_engine::voxel::cell::{Cell, Material};
use torxel_engine::voxel::chunk::{Chunk, ChunkPos};

#[test]
fn empty_chunk_has_no_faces() {
    let chunk = Chunk::new(ChunkPos::new(0, 0));
    assert!(solid_mesh_faces(&chunk).is_empty());
    assert!(water_mesh_faces(&chunk).is_empty());
}

#[test]
fn lone_block_shows_all_faces_but_the_bottom() {
    let mut chunk = Chunk::new(ChunkPos::new(0, 0));
    chunk.set(5, 10, 7, Cell::new(Material::Stone));
    let faces = solid_mesh_faces(&chunk);
    let dirs: Vec<FaceDir> = faces.iter().map(|f| f.dir).collect();
    assert_eq!(dirs, vec![FaceDir::Top, FaceDir::Right, FaceDir::Left, FaceDir::Front, FaceDir::Back]);
    assert!(faces.iter().all(|f| (f.x, f.y, f.z, f.neighbor_mask) == (5, 10, 7, 15)));
}

#[test]
fn covered_faces_are_culled() {
    let mut chunk = Chunk::new(ChunkPos::new(0, 0));
    chunk.set(5, 10, 7, Cell::new(Material::Stone));
    chunk.set(6, 10, 7, Cell::new(Material::Dirt));
    chunk.set(5, 11, 7, Cell::new(Material::Water));
    let faces = solid_mesh_faces(&chunk);
    let first: Vec<Face> = faces.iter().copied().filter(|f| f.x == 5).collect();
    // top is open to water, east is covered by dirt
    assert_eq!(
        first.iter().map(|f| f.dir).collect::<Vec<_>>(),
        vec![FaceDir::Top, FaceDir::Left, FaceDir::Front, FaceDir::Back]
    );
    assert_eq!(first[0].neighbor_mask, 2 | 4 | 8);
    // the water block sees air on every side but below
    let water = water_mesh_faces(&chunk);
    assert_eq!(water.len(), 5);
    assert!(water.iter().all(|f| f.neighbor_mask == 0 && f.y == 11));
}

#[test]
fn chunk_borders_count_as_open() {
    let mut chunk = Chunk::new(ChunkPos::new(0, 0));
    chunk.fill(Cell::STONE());
    assert!(is_air_or_water(&chunk, 16, 0, 0));
    assert!(is_air_or_water(&chunk, 0, 64, 0));
    assert!(!is_air_or_water(&chunk, 0, 0, 0));
    assert!(is_air_only(&chunk, 0, 0, 16));
    let faces = solid_mesh_faces(&chunk);
    // top layer, plus the four outer walls of every layer
    assert_eq!(faces.len(), 256 + 4 * 16 * 64);
    chunk.set(1, 1, 1, Cell::WATER());
    assert!(is_air_or_water(&chunk, 1, 1, 1));
    assert!(!is_air_only(&chunk, 1, 1, 1));
}

#[test]
fn vacuum_is_open_space() {
    let mut chunk = Chunk::new(ChunkPos::new(0, 0));
    chunk.fill(Cell::VACUUM());
    assert!(solid_mesh_faces(&chunk).is_empty());
    assert!(water_mesh_faces(&chunk).is_empty());
    chunk.set(5, 10, 7, Cell::new(Material::Stone));
    assert!(is_air_or_water(&chunk, 6, 10, 7));
    assert!(is_air_only(&chunk, 6, 10, 7));
    let faces = solid_mesh_faces(&chunk);
    assert_eq!(faces.len(), 5);
    assert!(faces.iter().all(|f| f.neighbor_mask == 15));
}
