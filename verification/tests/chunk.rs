use torxel_engine::voxel::cell::{Cell, Material};
use torxel_engine::voxel::chunk::{
    Chunk, ChunkPos, CHUNK_MASK_XZ, CHUNK_MASK_Y, CHUNK_SIZE_XZ, CHUNK_SIZE_Y, CHUNK_VOLUME,
};

#[test]
fn test_chunk_volume() {
    assert_eq!(CHUNK_VOLUME, 16 * 16 * 64);
    assert_eq!(CHUNK_VOLUME, 16384);
}

#[test]
fn test_chunk_creation() {
    let chunk = Chunk::new(ChunkPos::new(0, 0));
    assert_eq!(chunk.cells.len(), CHUNK_VOLUME);
    assert_eq!(chunk.active_cell_count, 0);
}

#[test]
fn test_chunk_get_set() {
    let mut chunk = Chunk::new(ChunkPos::new(0, 0));

    chunk.set(0, 0, 0, Cell::new(Material::Stone));
    assert!(chunk.get(0, 0, 0).is_solid());

    assert!(chunk.is_dirty);
}

#[test]
fn test_chunk_wrapping_xz() {
    let mut chunk = Chunk::new(ChunkPos::new(0, 0));

    // A cell on the XZ edge of the chunk.
    chunk.set(CHUNK_SIZE_XZ - 1, 32, CHUNK_SIZE_XZ - 1, Cell::new(Material::Water));

    // One chunk width further along X, and one step below zero along Z, is the
    // same cell.
    let wrapped_x = chunk.get_wrapped(CHUNK_SIZE_XZ as isize + 15, 32, -1);
    assert!(!wrapped_x.is_empty());
    // (16, 32, 0) wraps to (0, 32, 0), which still holds air.
    assert!(chunk.get_wrapped(CHUNK_SIZE_XZ as isize, 32, 0).is_empty());

    chunk.set(0, 32, 0, Cell::new(Material::Stone));
    assert_eq!(chunk.get_wrapped(CHUNK_SIZE_XZ as isize, 32, 0).get_material(), Material::Stone);
    let at_boundary = chunk.get_wrapped(-1, 32, -1);
    assert_eq!(at_boundary.get_material(), Material::Water); // x = -1 -> 15, z = -1 -> 15
    // (-1, 32, 0) wraps to (15, 32, 0): air.
    assert!(chunk.get_wrapped(-1, 32, 0).is_empty());
}

#[test]
fn test_chunk_pos_hash() {
    let pos = ChunkPos::new(1, -2);
    let key = pos.to_key();
    let restored = ChunkPos::from_key(key);
    assert_eq!(pos, restored);
}

#[test]
fn test_chunk_index_order() {
    let chunk = Chunk::new(ChunkPos::new(0, 0));

    let idx0 = chunk.index(0, 0, 0);
    let idx1 = chunk.index(1, 0, 0);
    let idx2 = chunk.index(0, 0, 1);
    let idx3 = chunk.index(0, 1, 0);

    assert_eq!(idx0, 0);
    assert_eq!(idx1, 1);
    assert_eq!(idx2, CHUNK_SIZE_XZ);
    assert_eq!(idx3, CHUNK_SIZE_XZ * CHUNK_SIZE_XZ);
}

#[test]
fn test_y_range() {
    let mut chunk = Chunk::new(ChunkPos::new(0, 0));
    assert_eq!(chunk.min_y, 0);
    assert_eq!(chunk.max_y, 0);

    chunk.set(8, 50, 8, Cell::new(Material::Stone));
    chunk.recalculate_stats();

    assert_eq!(chunk.min_y, 50);
    assert_eq!(chunk.max_y, 50);
}

#[test]
fn wrapped_access_wraps_every_axis() {
    let mut chunk = Chunk::new(ChunkPos::new(0, 0));
    chunk.set(CHUNK_SIZE_XZ - 1, 32, CHUNK_SIZE_XZ - 1, Cell::new(Material::Water));
    assert_eq!(chunk.get_wrapped(-1, 32, -1).get_material(), Material::Water);
    assert_eq!(chunk.get_wrapped(31, 32 + 64, 15).get_material(), Material::Water);
    assert!(chunk.get_wrapped(CHUNK_SIZE_XZ as isize, 32, 0).is_empty());
    chunk.get_mut_wrapped(16, -32, 16).material = 2;
    assert_eq!(chunk.get(0, 32, 0).get_material(), Material::Stone);
    // a wrapped write leaves the statistics to recalculate_stats
    let mut other = Chunk::new(ChunkPos::new(0, 0));
    other.get_mut_wrapped(0, -5, 0).material = 2;
    assert_eq!((other.active_cell_count, other.min_y, other.max_y), (0, 0, 0));
    assert!(other.is_dirty && !other.is_empty());
    other.recalculate_stats();
    assert_eq!((other.active_cell_count, other.min_y, other.max_y), (1, 59, 59));
    assert_eq!(CHUNK_MASK_XZ, 15);
    assert_eq!(CHUNK_MASK_Y, 63);
}

#[test]
fn chunk_pos_key_packs_both_halves() {
    assert_eq!(ChunkPos::new(1, 2).to_key(), (1u64 << 32) | 2);
    assert_eq!(ChunkPos::new(-1, 0).to_key(), 0xffff_ffff_0000_0000);
    assert_eq!(ChunkPos::from_key(0x0000_0003_ffff_fffe), ChunkPos::new(3, -2));
    for (x, z) in [(i32::MIN, i32::MAX), (0, 0), (-7, 15), (12345, -54321)] {
        let p = ChunkPos::new(x, z);
        assert_eq!(ChunkPos::from_key(p.to_key()), p);
    }
    assert_eq!(ChunkPos::new(2, -3).world_origin(), (32, 0, -48));
}

#[test]
fn get_mut_marks_dirty_and_tracks_layer_probe() {
    let mut chunk = Chunk::new(ChunkPos::new(0, 0));
    chunk.set(0, 10, 0, Cell::STONE());
    assert_eq!((chunk.min_y, chunk.max_y), (0, 10));
    let cell = chunk.get_mut(5, 20, 5);
    *cell = Cell::WATER();
    assert!(chunk.is_dirty);
    // the probe at (0, 20, 0) is air, so the range stays
    assert_eq!((chunk.min_y, chunk.max_y), (0, 10));
    assert_eq!(chunk.get(5, 20, 5).get_material(), Material::Water);
    // the count is left to recalculate_stats
    assert_eq!(chunk.active_cell_count, 1);
    // with an active probe at (0, 40, 0) the range widens to layer 40
    chunk.recalculate_stats();
    assert_eq!((chunk.active_cell_count, chunk.min_y, chunk.max_y), (2, 10, 20));
    chunk.cells_mut()[256 * 40] = Cell::STONE();
    assert_eq!(chunk.max_y, 20);
    let _ = chunk.get_mut(7, 40, 7);
    assert_eq!((chunk.min_y, chunk.max_y), (10, 40));
}

#[test]
fn set_keeps_the_count_and_covers_the_layer() {
    let mut chunk = Chunk::new(ChunkPos::new(0, 0));
    assert!(chunk.is_empty());
    chunk.set(8, 50, 8, Cell::new(Material::Stone));
    assert!(!chunk.is_empty());
    assert_eq!(chunk.active_cell_count, 1);
    assert!(chunk.min_y <= 50 && 50 <= chunk.max_y);
    chunk.set(8, 50, 8, Cell::new(Material::Dirt));
    assert_eq!(chunk.active_cell_count, 1);
    chunk.set(1, 3, 1, Cell::WATER());
    assert_eq!(chunk.active_cell_count, 2);
    // writing air keeps the range and lowers the count
    chunk.set(8, 50, 8, Cell::AIR());
    assert_eq!((chunk.active_cell_count, chunk.min_y, chunk.max_y), (1, 0, 50));
    chunk.set(1, 3, 1, Cell::VACUUM());
    assert_eq!(chunk.active_cell_count, 0);
    assert!(chunk.is_empty());
    // an empty write does not widen the range
    chunk.set(0, 60, 0, Cell::AIR());
    assert_eq!(chunk.max_y, 50);
}

#[test]
fn stats_are_exact_after_recalculation() {
    let mut cells = vec![Cell::AIR(); CHUNK_VOLUME];
    cells[3 + 16 * 2 + 256 * 7] = Cell::STONE();
    cells[256 * 40] = Cell::WATER();
    cells[15 + 256 * 12] = Cell::VACUUM();
    let mut chunk = Chunk::from_cells(ChunkPos::new(4, 5), cells);
    assert!(chunk.is_dirty);
    assert_eq!((chunk.active_cell_count, chunk.min_y, chunk.max_y), (2, 7, 40));
    chunk.cells_mut()[0] = Cell::STONE();
    chunk.recalculate_stats();
    assert_eq!((chunk.active_cell_count, chunk.min_y, chunk.max_y), (3, 0, 40));
    assert!(!chunk.is_empty());
    assert_eq!(chunk.cells().len(), CHUNK_VOLUME);
}

#[test]
fn fill_and_clear_set_uniform_stats() {
    let mut chunk = Chunk::new(ChunkPos::new(0, 0));
    chunk.fill(Cell::STONE());
    assert_eq!((chunk.active_cell_count, chunk.min_y, chunk.max_y), (CHUNK_VOLUME as u32, 0, 63));
    assert!(chunk.cells().iter().all(|c| c.is_solid()));
    chunk.clear();
    assert!(chunk.is_empty());
    assert_eq!((chunk.min_y, chunk.max_y), (0, 0));
    assert!(chunk.cells().iter().all(|c| c.is_empty()));
    assert!(chunk.is_dirty);
}

#[test]
fn size_and_dimensions() {
    assert_eq!(Chunk::size_bytes(), CHUNK_VOLUME * 48);
    assert_eq!(Chunk::size_bytes(), 786432);
    assert_eq!(Chunk::size_bytes(), CHUNK_VOLUME * std::mem::size_of::<Cell>());
    assert_eq!(Chunk::dimensions(), (16, 64, 16));
    assert_eq!(CHUNK_SIZE_Y, 64);
}
