use pyxgen::bitmap::Bitmap;
use pyxgen::bitmap::classify_outline;
use pyxgen::bitmap::count_neighbors;
use pyxgen::bitmap::evolve;
use pyxgen::bitmap::generate_sprite_bitmap;
use pyxgen::bitmap::grow;
use pyxgen::bitmap::mirror;

fn filled(width: usize, height: usize, cells: &[u8]) -> Bitmap {
    assert_eq!(cells.len(), width * height);
    let mut map = Bitmap::new(width, height);
    for y in 0..height {
        for x in 0..width {
            map.set(x, y, cells[y * width + x]);
        }
    }
    map
}

#[test]
fn new_is_all_zero() {
    let map = Bitmap::new(4, 8);
    assert_eq!(map.width, 4);
    assert_eq!(map.height, 8);
    for y in 0..8 {
        for x in 0..4 {
            assert_eq!(map.get(x, y), 0);
        }
    }
}

#[test]
fn bitmap_set_then_get_round_trip() {
    let mut map = Bitmap::new(3, 3);
    map.set(2, 1, 1);
    map.set(0, 2, 2);
    assert_eq!(map.get(2, 1), 1);
    assert_eq!(map.get(0, 2), 2);
    assert_eq!(map.get(1, 1), 0);
}

#[test]
fn bitmap_get_mut_writes_through() {
    let mut map = Bitmap::new(2, 2);
    *map.get_mut(0, 1) = 2;
    assert_eq!(map.get(0, 1), 2);
    assert_eq!(map.get(0, 0), 0);
    assert_eq!(map.get(1, 1), 0);
}

#[test]
fn bitmap_generate_seed_dimensions_and_values() {
    let map = Bitmap::generate(4, 8);
    assert_eq!(map.width, 4);
    assert_eq!(map.height, 8);
    for y in 0..8 {
        for x in 0..4 {
            assert!(map.get(x, y) <= 1);
        }
    }
}

#[test]
fn evolve_all_zero_small_grid_fills() {
    let map = Bitmap::new(2, 2);
    let next = evolve(map);
    for y in 0..2 {
        for x in 0..2 {
            assert_eq!(next.get(x, y), 1);
        }
    }
}

#[test]
fn bitmap_evolve_corner_with_one_neighbor_dies() {
    let map = filled(2, 2, &[1, 1, 0, 0]);
    let next = evolve(map);
    assert_eq!(next.get(0, 0), 0);
    assert_eq!(next.get(1, 0), 0);
    assert_eq!(next.get(0, 1), 1);
    assert_eq!(next.get(1, 1), 1);
}

#[test]
fn bitmap_count_neighbors_sees_left_neighbor() {
    // The left neighbor of (1, 0) is the live cell at (0, 0).
    let map = filled(2, 1, &[1, 0]);
    assert_eq!(count_neighbors(&map, 1, 0), 1);
    assert_eq!(count_neighbors(&map, 0, 0), 0);
}

#[test]
fn bitmap_count_neighbors_at_corner_edge_and_center() {
    let map = filled(3, 3, &[1; 9]);
    assert_eq!(count_neighbors(&map, 0, 0), 2);
    assert_eq!(count_neighbors(&map, 1, 0), 3);
    assert_eq!(count_neighbors(&map, 1, 1), 4);
}

#[test]
fn bitmap_grow_pads_top_right_bottom_only() {
    let map = filled(4, 8, &[1; 32]);
    let grown = grow(map);
    assert_eq!(grown.width, 5);
    assert_eq!(grown.height, 10);
    for x in 0..5 {
        assert_eq!(grown.get(x, 0), 0);
        assert_eq!(grown.get(x, 9), 0);
    }
    for y in 0..10 {
        assert_eq!(grown.get(4, y), 0);
    }
    for y in 0..8 {
        for x in 0..4 {
            assert_eq!(grown.get(x, y + 1), 1);
        }
    }
}

#[test]
fn classify_outline_rings_a_single_live_cell() {
    let map = filled(3, 3, &[0, 0, 0, 0, 1, 0, 0, 0, 0]);
    let classified = classify_outline(map);
    let expected = [0, 2, 0, 2, 1, 2, 0, 2, 0];
    for y in 0..3 {
        for x in 0..3 {
            assert_eq!(classified.get(x, y), expected[y * 3 + x]);
        }
    }
}

#[test]
fn bitmap_mirror_reverses_then_copies_each_row() {
    let map = filled(2, 2, &[1, 0, 2, 1]);
    let mirrored = mirror(map);
    assert_eq!(mirrored.width, 4);
    assert_eq!(mirrored.height, 2);
    let expected = [0, 1, 1, 0, 1, 2, 2, 1];
    for y in 0..2 {
        for x in 0..4 {
            assert_eq!(mirrored.get(x, y), expected[y * 4 + x]);
        }
    }
}

#[test]
fn generated_sprite_is_square_symmetric_and_in_range() {
    let sprite = generate_sprite_bitmap();
    assert_eq!(sprite.width, 10);
    assert_eq!(sprite.height, 10);
    for y in 0..10 {
        for x in 0..10 {
            assert_eq!(sprite.get(x, y), sprite.get(9 - x, y));
            assert!(sprite.get(x, y) <= 2);
        }
    }
}
