use torxel_engine::voxel::cell::{Cell, Material};
use torxel_engine::voxel::chunk::ChunkPos;
use torxel_engine::voxel::world::{ChunkManager, WORLD_SIZE_CELLS_XZ};

#[test]
fn test_chunk_manager_creation() {
    let manager = ChunkManager::new();
    assert_eq!(manager.active_chunk_count(), 0);
}

#[test]
fn test_chunk_manager_get_cell() {
    let mut manager = ChunkManager::new();

    let cell = manager.get_cell(0, 0, 0);
    assert!(cell.is_empty());

    assert_eq!(manager.active_chunk_count(), 1);
}

#[test]
fn test_chunk_manager_set_cell() {
    let mut manager = ChunkManager::new();

    manager.set_cell(0, 0, 0, Cell::STONE());
    let cell = manager.get_cell(0, 0, 0);
    assert!(cell.is_solid());
}

#[test]
fn test_toroidal_wrapping() {
    let mut manager = ChunkManager::new();

    let max_coord = (WORLD_SIZE_CELLS_XZ - 1) as i32;

    manager.set_cell(max_coord, max_coord, max_coord, Cell::new(Material::Water));

    let _wrapped_cell = manager.get_cell(max_coord + 1, max_coord + 1, max_coord + 1);

    manager.set_cell(0, 0, 0, Cell::new(Material::Stone));
    let left_of_zero = manager.get_cell(-1, -1, -1);
    assert!(!left_of_zero.is_empty() || left_of_zero.is_empty());
}

#[test]
fn test_chunk_pooling() {
    let mut manager = ChunkManager::new();

    manager.set_cell(0, 0, 0, Cell::STONE());
    assert_eq!(manager.active_chunk_count(), 1);

    let chunk_pos = manager.global_to_chunk_pos(0, 0, 0);
    manager.remove_chunk(chunk_pos);

    assert_eq!(manager.active_chunk_count(), 0);
}

#[test]
fn world_wraps_around_on_x_and_z() {
    let mut manager = ChunkManager::new();
    manager.set_cell(255, 10, 255, Cell::WATER());
    assert_eq!(manager.get_cell(-1, 10, -1).get_material(), Material::Water);
    assert_eq!(manager.get_cell(511, 10, -257).get_material(), Material::Water);
    assert_eq!(manager.get_cell(255, 10 + 64, 255).get_material(), Material::Water);
    assert!(manager.get_cell(254, 10, 255).is_empty());
    assert_eq!(manager.active_chunk_count(), 1);
    assert_eq!(manager.stats().cells_accessed, 4);
}

#[test]
fn coordinates_split_into_chunk_and_local_parts() {
    let manager = ChunkManager::new();
    assert_eq!(manager.global_to_chunk_pos(37, 5, -1), ChunkPos::new(2, 15));
    assert_eq!(manager.global_to_local(37, 5, -1), (5, 5, 15));
    assert_eq!(manager.global_to_local(0, -1, 256), (0, 63, 0));
}

#[test]
fn removed_chunks_are_pooled_cleared_and_reused() {
    let mut manager = ChunkManager::new();
    manager.set_cell(20, 3, 20, Cell::STONE());
    manager.remove_chunk(ChunkPos::new(1, 1));
    assert_eq!(manager.stats().pooled_chunks, 1);
    assert_eq!(manager.active_chunk_count(), 0);
    // the pooled chunk comes back cleared
    assert!(manager.get_cell(20, 3, 20).is_empty());
    let chunk = manager.get_or_create_chunk(ChunkPos::new(17, -15));
    assert_eq!(chunk.pos, ChunkPos::new(1, 1));
    assert!(chunk.is_dirty);
    assert_eq!(manager.stats().total_chunks, 2);
    // removing a chunk that is not there changes nothing
    manager.remove_chunk(ChunkPos::new(5, 5));
    assert_eq!(manager.stats().pooled_chunks, 1);
}

#[test]
fn clear_keeps_chunks_but_empties_them() {
    let mut manager = ChunkManager::default();
    manager.set_cell(1, 1, 1, Cell::STONE());
    manager.set_cell(100, 1, 200, Cell::STONE());
    manager.clear();
    assert_eq!(manager.active_chunk_count(), 2);
    assert!(manager.get_cell(1, 1, 1).is_empty());
    assert!(manager.iter_chunks().iter().all(|c| c.is_empty() && c.is_dirty));
    manager.clear_all();
    assert_eq!(manager.active_chunk_count(), 0);
    assert_eq!(manager.stats().total_chunks, 0);
}

#[test]
fn chunk_writes_through_mutable_access() {
    let mut manager = ChunkManager::new();
    {
        let chunk = manager.get_or_create_chunk_mut(ChunkPos::new(-1, 0));
        chunk.set(3, 4, 5, Cell::WATER());
    }
    assert_eq!(manager.get_cell(15 * 16 + 3, 4, 5).get_material(), Material::Water);
    assert_eq!(manager.iter_chunks().len(), 1);
}

#[test]
fn read_after_write_reaches_every_congruent_coordinate() {
    let mut manager = ChunkManager::new();
    manager.set_cell(3, 7, 250, Cell::WATER());
    manager.set_cell(4, 7, 250, Cell::STONE());
    for (x, y, z) in [(3, 7, 250), (3 + 256, 7 - 64, 250 - 512), (-253, 71, -6)] {
        assert_eq!(manager.get_cell(x, y, z).get_material(), Material::Water);
    }
    assert_eq!(manager.get_cell(4, 7, 250).get_material(), Material::Stone);
    assert!(manager.get_cell(3, 8, 250).is_empty());
    assert_eq!(manager.active_chunk_count(), 1);
}

#[test]
fn creating_chunks_counts_them() {
    let mut manager = ChunkManager::new();
    manager.get_or_create_chunk_mut(ChunkPos::new(2, 3));
    assert_eq!(
        (manager.active_chunk_count(), manager.stats().active_chunks, manager.stats().total_chunks),
        (1, 1, 1)
    );
    // the same chunk, reached from another congruent position
    manager.get_or_create_chunk_mut(ChunkPos::new(18, -13));
    assert_eq!((manager.active_chunk_count(), manager.stats().total_chunks), (1, 1));
    manager.get_or_create_chunk(ChunkPos::new(0, 0));
    assert_eq!(
        (manager.active_chunk_count(), manager.stats().active_chunks, manager.stats().total_chunks),
        (2, 2, 2)
    );
    let fresh = manager.get_or_create_chunk_mut(ChunkPos::new(5, 5));
    assert!(!fresh.is_dirty && fresh.is_empty());
    assert_eq!(manager.active_chunk_count(), 3);
}

#[test]
fn every_chunk_can_be_changed_in_place() {
    let mut manager = ChunkManager::new();
    manager.set_cell(1, 1, 1, Cell::STONE());
    manager.set_cell(100, 1, 200, Cell::STONE());
    let positions: Vec<ChunkPos> = manager.iter_chunks().iter().map(|c| c.pos).collect();
    for pos in positions {
        manager.get_or_create_chunk_mut(pos).fill(Cell::WATER());
    }
    assert_eq!(manager.active_chunk_count(), 2);
    assert_eq!(manager.get_cell(1, 1, 1).get_material(), Material::Water);
    assert_eq!(manager.get_cell(100, 50, 200).get_material(), Material::Water);
}
