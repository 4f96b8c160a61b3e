use pyxgen::pixel_map::PixelMap;
use pyxgen::pixel_map::PixelType;
use pyxgen::pixel_map::classify_outline;
use pyxgen::pixel_map::count_neighbors;
use pyxgen::pixel_map::evolve;
use pyxgen::pixel_map::generate_sprite_map;
use pyxgen::pixel_map::grow;
use pyxgen::pixel_map::mirror;

fn filled(width: usize, height: usize, cells: &[PixelType]) -> PixelMap {
    assert_eq!(cells.len(), width * height);
    let mut map = PixelMap::new(width, height);
    for y in 0..height {
        for x in 0..width {
            map.set(x, y, cells[y * width + x]);
        }
    }
    map
}

#[test]
fn new_is_all_background() {
    let map = PixelMap::new(3, 2);
    assert_eq!(map.width, 3);
    assert_eq!(map.height, 2);
    for y in 0..2 {
        for x in 0..3 {
            assert_eq!(*map.get(x, y), PixelType::Background);
        }
    }
}

#[test]
fn set_then_get_round_trip() {
    let mut map = PixelMap::new(3, 3);
    map.set(1, 2, PixelType::Color);
    map.set(0, 0, PixelType::Outline);
    assert_eq!(*map.get(1, 2), PixelType::Color);
    assert_eq!(*map.get(0, 0), PixelType::Outline);
    assert_eq!(*map.get(2, 2), PixelType::Background);
}

#[test]
fn get_mut_writes_through() {
    let mut map = PixelMap::new(2, 2);
    *map.get_mut(1, 0) = PixelType::Color;
    assert_eq!(*map.get(1, 0), PixelType::Color);
    assert_eq!(*map.get(0, 0), PixelType::Background);
    assert_eq!(*map.get(0, 1), PixelType::Background);
}

#[test]
fn pipeline_dimensions_at_each_stage() {
    let seed = PixelMap::generate(4, 8);
    assert_eq!((seed.width, seed.height), (4, 8));
    let once = evolve(seed);
    assert_eq!((once.width, once.height), (4, 8));
    let twice = evolve(once);
    assert_eq!((twice.width, twice.height), (4, 8));
    let grown = grow(twice);
    assert_eq!((grown.width, grown.height), (5, 10));
    let outlined = classify_outline(grown);
    assert_eq!((outlined.width, outlined.height), (5, 10));
    let sprite = mirror(outlined);
    assert_eq!((sprite.width, sprite.height), (10, 10));
}

#[test]
fn generate_seed_dimensions_and_values() {
    let map = PixelMap::generate(4, 8);
    assert_eq!(map.width, 4);
    assert_eq!(map.height, 8);
    for y in 0..8 {
        for x in 0..4 {
            let cell = *map.get(x, y);
            assert!(cell == PixelType::Background || cell == PixelType::Color);
        }
    }
}

#[test]
fn evolve_all_background_small_grid_fills() {
    // In an all-background 2x2 grid every cell has neighbor count 0 <= 1,
    // so one evolution turns every cell to Color.
    let map = PixelMap::new(2, 2);
    let next = evolve(map);
    assert_eq!(next.width, 2);
    assert_eq!(next.height, 2);
    for y in 0..2 {
        for x in 0..2 {
            assert_eq!(*next.get(x, y), PixelType::Color);
        }
    }
}

#[test]
fn evolve_all_color_small_grid_survives() {
    // In an all-Color 2x2 grid every cell has exactly two in-bounds Color
    // neighbors, and a Color cell with count 2 stays Color.
    let map = filled(2, 2, &[PixelType::Color; 4]);
    let next = evolve(map);
    for y in 0..2 {
        for x in 0..2 {
            assert_eq!(*next.get(x, y), PixelType::Color);
        }
    }
}

#[test]
fn evolve_corner_with_one_neighbor_dies() {
    // Color cells in the top row only: each has one Color neighbor, and
    // 1 is not in {2, 3}, so both become Background; the bottom Background
    // cells have count 1 <= 1 and become Color.
    let b = PixelType::Background;
    let c = PixelType::Color;
    let map = filled(2, 2, &[c, c, b, b]);
    let next = evolve(map);
    assert_eq!(*next.get(0, 0), b);
    assert_eq!(*next.get(1, 0), b);
    assert_eq!(*next.get(0, 1), c);
    assert_eq!(*next.get(1, 1), c);
}

#[test]
fn count_neighbors_at_corner_edge_and_center() {
    let map = filled(3, 3, &[PixelType::Color; 9]);
    assert_eq!(count_neighbors(&map, 0, 0), 2);
    assert_eq!(count_neighbors(&map, 2, 2), 2);
    assert_eq!(count_neighbors(&map, 1, 0), 3);
    assert_eq!(count_neighbors(&map, 0, 1), 3);
    assert_eq!(count_neighbors(&map, 1, 1), 4);
}

#[test]
fn count_neighbors_sees_left_neighbor() {
    let b = PixelType::Background;
    let c = PixelType::Color;
    let map = filled(2, 1, &[c, b]);
    assert_eq!(count_neighbors(&map, 1, 0), 1);
    assert_eq!(count_neighbors(&map, 0, 0), 0);
}

#[test]
fn grow_pads_top_right_bottom_only() {
    let map = filled(4, 8, &[PixelType::Color; 32]);
    let grown = grow(map);
    assert_eq!(grown.width, 5);
    assert_eq!(grown.height, 10);
    for x in 0..5 {
        assert_eq!(*grown.get(x, 0), PixelType::Background);
        assert_eq!(*grown.get(x, 9), PixelType::Background);
    }
    for y in 0..10 {
        assert_eq!(*grown.get(4, y), PixelType::Background);
    }
    // The embedded grid keeps its cells, shifted one row down.
    for y in 0..8 {
        for x in 0..4 {
            assert_eq!(*grown.get(x, y + 1), PixelType::Color);
        }
    }
}

#[test]
fn classify_outline_rings_a_single_color_cell() {
    let b = PixelType::Background;
    let c = PixelType::Color;
    let o = PixelType::Outline;
    let map = filled(3, 3, &[b, b, b, b, c, b, b, b, b]);
    let classified = classify_outline(map);
    let expected = [b, o, b, o, c, o, b, o, b];
    for y in 0..3 {
        for x in 0..3 {
            assert_eq!(*classified.get(x, y), expected[y * 3 + x]);
        }
    }
}

#[test]
fn mirror_reverses_then_copies_each_row() {
    let b = PixelType::Background;
    let c = PixelType::Color;
    let o = PixelType::Outline;
    let map = filled(2, 2, &[c, b, o, c]);
    let mirrored = mirror(map);
    assert_eq!(mirrored.width, 4);
    assert_eq!(mirrored.height, 2);
    let expected = [b, c, c, b, c, o, o, c];
    for y in 0..2 {
        for x in 0..4 {
            assert_eq!(*mirrored.get(x, y), expected[y * 4 + x]);
        }
    }
}

#[test]
fn mirror_of_palindromic_rows_keeps_left_half() {
    let b = PixelType::Background;
    let c = PixelType::Color;
    let map = filled(3, 2, &[c, b, c, b, c, b]);
    let mirrored = mirror(map);
    assert_eq!(mirrored.width, 6);
    let expected = [c, b, c, c, b, c, b, c, b, b, c, b];
    for y in 0..2 {
        for x in 0..6 {
            assert_eq!(*mirrored.get(x, y), expected[y * 6 + x]);
        }
    }
}

#[test]
fn generated_sprite_is_square_and_symmetric() {
    let sprite = generate_sprite_map();
    assert_eq!(sprite.width, 10);
    assert_eq!(sprite.height, 10);
    for y in 0..10 {
        for x in 0..10 {
            assert_eq!(*sprite.get(x, y), *sprite.get(9 - x, y));
        }
    }
}

#[test]
fn generated_sprite_border_rows_hold_no_color() {
    // Rows 0 and 9 come from the grown grid's padding: they can only be
    // Background or Outline, never Color.
    let sprite = generate_sprite_map();
    for x in 0..10 {
        assert_ne!(*sprite.get(x, 0), PixelType::Color);
        assert_ne!(*sprite.get(x, 9), PixelType::Color);
    }
}
