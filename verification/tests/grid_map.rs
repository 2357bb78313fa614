use tessera::grid_map::{compute_map_hash, GridMap, TileType};

#[test]
fn test_parse_simple_map() {
    let layout = "# # #\n# . #\n# # #";
    let map = GridMap::parse(layout).unwrap();

    assert_eq!(map.width, 3);
    assert_eq!(map.height, 3);
    assert_eq!(map.tiles.len(), 9);
}

#[test]
fn test_parse_all_tile_types() {
    let layout = "# . ~ _ v x5";
    let map = GridMap::parse(layout).unwrap();

    assert_eq!(map.tiles[0].tile_type, TileType::Wall);
    assert_eq!(map.tiles[1].tile_type, TileType::Ground);
    assert_eq!(map.tiles[2].tile_type, TileType::Empty);
    assert_eq!(map.tiles[3].tile_type, TileType::Station);
    assert_eq!(map.tiles[4].tile_type, TileType::Dropoff);
    assert_eq!(map.tiles[5].tile_type, TileType::Shelf(5));
}

#[test]
fn test_is_walkable() {
    let layout = "# . _ v x5";
    let map = GridMap::parse(layout).unwrap();

    assert!(!map.is_walkable(0, 0));
    assert!(map.is_walkable(1, 0));
    assert!(map.is_walkable(2, 0));
    assert!(map.is_walkable(3, 0));
    assert!(!map.is_walkable(4, 0));
}

#[test]
fn test_get_tile() {
    let layout = "# .\n. #";
    let map = GridMap::parse(layout).unwrap();

    assert_eq!(map.get_tile(0, 0).unwrap().tile_type, TileType::Wall);
    assert_eq!(map.get_tile(1, 0).unwrap().tile_type, TileType::Ground);
    assert_eq!(map.get_tile(0, 1).unwrap().tile_type, TileType::Ground);
    assert_eq!(map.get_tile(1, 1).unwrap().tile_type, TileType::Wall);
    assert!(map.get_tile(5, 5).is_none());
}

#[test]
fn test_hash_consistency() {
    let layout = "# . #\n# . #";
    let map1 = GridMap::parse(layout).unwrap();
    let map2 = GridMap::parse(layout).unwrap();

    assert_eq!(map1.hash, map2.hash);
}

#[test]
fn test_hash_differs_for_different_maps() {
    let map1 = GridMap::parse("# . #").unwrap();
    let map2 = GridMap::parse("# # #").unwrap();

    assert_ne!(map1.hash, map2.hash);
}

#[test]
fn test_get_shelves_dropoffs_stations() {
    let layout = "x5 x3 . _ _ v";
    let map = GridMap::parse(layout).unwrap();

    assert_eq!(map.get_shelves().len(), 2);
    assert_eq!(map.get_stations().len(), 2);
    assert_eq!(map.get_dropoffs().len(), 1);
}

#[test]
fn test_skip_comments_and_empty_lines() {
    let layout = "// This is a comment\n\n# . #\n\n// Another comment\n# . #";
    let map = GridMap::parse(layout).unwrap();

    assert_eq!(map.height, 2);
    assert_eq!(map.tiles.len(), 6);
}

#[test]
fn grid_map_unknown_token_is_empty() {
    let map = GridMap::parse("# ? #").unwrap();
    assert_eq!(map.tiles[1].tile_type, TileType::Empty);
}

#[test]
fn grid_map_bad_shelf_capacity_defaults_to_five() {
    let map = GridMap::parse("xq x300 x").unwrap();
    assert_eq!(map.tiles[0].tile_type, TileType::Shelf(5));
    assert_eq!(map.tiles[1].tile_type, TileType::Shelf(5));
    assert_eq!(map.tiles[2].tile_type, TileType::Empty);
}

#[test]
fn grid_map_ragged_rows_take_widest_width() {
    let map = GridMap::parse("# . #\n# .").unwrap();
    assert_eq!(map.width, 3);
    assert_eq!(map.height, 2);
    assert_eq!(map.tiles.len(), 5);
    assert!(map.get_tile(2, 1).is_none());
}

#[test]
fn grid_map_empty_layout_has_no_rows() {
    let map = GridMap::parse("// only a comment\n\n").unwrap();
    assert_eq!(map.height, 0);
    assert_eq!(map.width, 0);
    assert!(map.tiles.is_empty());
}

#[test]
fn grid_map_tiles_carry_their_coordinates() {
    let map = GridMap::parse(". #\nv x7").unwrap();
    assert_eq!(map.tiles[3].x, 1);
    assert_eq!(map.tiles[3].y, 1);
    assert_eq!(map.tiles[3].tile_type, TileType::Shelf(7));
    assert_eq!(map.get_tiles_of_type(TileType::Wall).len(), 1);
}

#[test]
fn grid_map_hash_is_that_of_its_tiles() {
    let map = GridMap::parse("# . ~\n_ v x2").unwrap();
    assert_eq!(map.hash, compute_map_hash(map.width, map.height, &map.tiles));
}

#[test]
fn single_hex_digit_tokens_are_shelves() {
    let map = GridMap::parse("5 0 x3\n1 9 A F").unwrap();

    assert_eq!(map.tiles[0].tile_type, TileType::Shelf(5));
    assert_eq!(map.tiles[1].tile_type, TileType::Shelf(16));
    assert_eq!(map.tiles[2].tile_type, TileType::Shelf(3));
    assert_eq!(map.tiles[3].tile_type, TileType::Shelf(1));
    assert_eq!(map.tiles[4].tile_type, TileType::Shelf(9));
    assert_eq!(map.tiles[5].tile_type, TileType::Shelf(10));
    assert_eq!(map.tiles[6].tile_type, TileType::Shelf(15));
}

#[test]
fn other_single_characters_stay_empty() {
    let map = GridMap::parse("G a x").unwrap();

    assert_eq!(map.tiles[0].tile_type, TileType::Empty);
    assert_eq!(map.tiles[1].tile_type, TileType::Empty);
    assert_eq!(map.tiles[2].tile_type, TileType::Empty);
}

#[test]
fn parsed_tiles_are_inside_the_map_and_placed_once() {
    let map = GridMap::parse("# .\n// note\n. # . x2\n~").unwrap();
    assert_eq!((map.width, map.height), (4, 3));
    for (i, a) in map.tiles.iter().enumerate() {
        assert!(a.x < map.width && a.y < map.height);
        for b in map.tiles.iter().skip(i + 1) {
            assert!((a.x, a.y) != (b.x, b.y));
        }
    }
}

#[test]
fn shelves_of_one_capacity_are_a_sublist_of_all_shelves() {
    let map = GridMap::parse("x2 3 x2\n. 2 v").unwrap();
    let of_two: Vec<(usize, usize)> = map.get_tiles_of_type(TileType::Shelf(2)).iter().map(|t| (t.x, t.y)).collect();
    let from_shelves: Vec<(usize, usize)> = map
        .get_shelves()
        .iter()
        .filter(|t| t.tile_type == TileType::Shelf(2))
        .map(|t| (t.x, t.y))
        .collect();
    assert_eq!(of_two, vec![(0, 0), (2, 0), (1, 1)]);
    assert_eq!(of_two, from_shelves);
}
