use torxel_engine::utils::torus_math::{
    are_neighbors_toroidal, fast_mod, toroidal_distance, toroidal_distance_3d, wrap_cell_coord,
    wrap_cell_coords, wrap_chunk_coord, wrap_chunk_coords,
};

#[test]
fn test_wrap_positive() {
    assert_eq!(wrap_cell_coord(5, 10), 5);
    assert_eq!(wrap_cell_coord(15, 10), 5);
    assert_eq!(wrap_cell_coord(100, 10), 0);
}

#[test]
fn test_wrap_negative() {
    assert_eq!(wrap_cell_coord(-1, 10), 9);
    assert_eq!(wrap_cell_coord(-5, 10), 5);
    assert_eq!(wrap_cell_coord(-10, 10), 0);
    assert_eq!(wrap_cell_coord(-11, 10), 9);
}

#[test]
fn test_wrap_zero() {
    assert_eq!(wrap_cell_coord(0, 10), 0);
}

#[test]
fn test_fast_mod() {
    let mask = 15;
    assert_eq!(fast_mod(5, mask), 5);
    assert_eq!(fast_mod(16, mask), 0);
    assert_eq!(fast_mod(17, mask), 1);
    assert_eq!(fast_mod(31, mask), 15);
}

#[test]
fn test_toroidal_distance() {
    assert_eq!(toroidal_distance(10, 20, 100), 10);
    assert_eq!(toroidal_distance(0, 99, 100), 1);
    assert_eq!(toroidal_distance(0, 50, 100), 50);
}

#[test]
fn test_neighbors() {
    assert!(are_neighbors_toroidal(0, 0, 0, 1, 0, 0, 100));
    assert!(are_neighbors_toroidal(0, 0, 0, 0, 0, 0, 100));
    assert!(!are_neighbors_toroidal(0, 0, 0, 2, 0, 0, 100));
    assert!(are_neighbors_toroidal(0, 0, 0, 99, 0, 0, 100));
}

#[test]
fn wrap_chunk_coord_matches_cell_wrap() {
    assert_eq!(wrap_chunk_coord(-1, 16), 15);
    assert_eq!(wrap_chunk_coord(16, 16), 0);
    assert_eq!(wrap_chunk_coords(-17, 33, 16), (15, 1));
    assert_eq!(wrap_cell_coords(-1, -7, 256, 256), (255, -7, 0));
}

#[test]
fn wrap_with_negative_size_stays_in_size_range() {
    assert_eq!(wrap_cell_coord(5, -3), -1);
    assert_eq!(wrap_cell_coord(-5, -3), -2);
    assert_eq!(wrap_cell_coord(3, -3), 0);
}

#[test]
fn wrap_is_periodic_and_idempotent() {
    for c in -300..300 {
        let w = wrap_cell_coord(c, 256);
        assert!((0..256).contains(&w));
        assert_eq!(wrap_cell_coord(c + 256, 256), w);
        assert_eq!(wrap_cell_coord(w, 256), w);
    }
}

#[test]
fn fast_mod_equals_remainder_for_power_of_two_masks() {
    for v in 0..200usize {
        assert_eq!(fast_mod(v, 63), v % 64);
        assert_eq!(fast_mod(v, 7), v % 8);
    }
    assert_eq!(fast_mod(0b1011_0110, 0b1010), 0b0010);
}

#[test]
fn toroidal_distance_is_symmetric_and_at_most_half() {
    for a in 0..100 {
        for b in 0..100 {
            let d = toroidal_distance(a, b, 100);
            assert_eq!(d, toroidal_distance(b, a, 100));
            assert!(d >= 0 && d <= 50);
        }
    }
    assert_eq!(toroidal_distance_3d(0, 0, 0, 99, 2, 98, 100), 1 + 2 + 2);
}
