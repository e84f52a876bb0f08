use rogue::map::{CellView, GameMap, TileType, MAX_ROOMS};
use rogue::rect::Rect;

fn blank_map(width: i32, height: i32) -> GameMap {
    let n = (width * height) as usize;
    GameMap {
        tiles: vec![TileType::Wall; n],
        rooms: Vec::new(),
        width,
        height,
        revealed_tiles: vec![false; n],
        visible_tiles: vec![false; n],
        blocked_tiles: vec![false; n],
        tile_contents: vec![Vec::new(); n],
    }
}

fn tile(map: &GameMap, x: i32, y: i32) -> TileType {
    map.tiles[(y * map.width + x) as usize]
}

#[test]
fn rect_new_spans_width_and_height() {
    let r = Rect::new(2, 3, 6, 8);
    assert_eq!(r, Rect { x1: 2, y1: 3, x2: 8, y2: 11 });
    assert_eq!(r.center(), (5, 7));
}

#[test]
fn rect_center_rounds_toward_zero() {
    let r = Rect { x1: -3, y1: -1, x2: 0, y2: 0 };
    assert_eq!(r.center(), (-1, 0));
}

#[test]
fn rect_intersection_is_symmetric_and_counts_touching() {
    let a = Rect::new(0, 0, 5, 5);
    let b = Rect::new(5, 5, 3, 3);
    let c = Rect::new(6, 0, 2, 2);
    assert!(a.intersect(&b));
    assert!(b.intersect(&a));
    assert!(!a.intersect(&c));
    assert!(!c.intersect(&a));
}

#[test]
fn xy_idx_is_row_major() {
    let map = blank_map(80, 50);
    assert_eq!(map.xy_idx(3, 2), 163);
    assert_eq!(map.xy_idx(0, 0), 0);
    assert_eq!(map.xy_idx(79, 49), 3999);
    assert!(map.xy_idx(-1, 0) > i32::MAX as usize);
    assert!(map.xy_idx(5, -1) > i32::MAX as usize);
}

#[test]
fn try_room_places_a_free_room_at_the_rolled_corner() {
    let mut map = blank_map(80, 50);
    assert!(map.try_room(8, 7, 11, 21, false));
    assert_eq!(map.rooms, vec![Rect { x1: 10, y1: 20, x2: 18, y2: 27 }]);
    assert_eq!(tile(&map, 11, 21), TileType::Floor);
    assert_eq!(tile(&map, 18, 27), TileType::Floor);
    assert_eq!(tile(&map, 10, 21), TileType::Wall);
    assert!(map.try_room(6, 6, 31, 11, true));
    assert_eq!(map.rooms.len(), 2);
    let (cx, cy) = map.rooms[1].center();
    assert_eq!((cx, cy), (33, 13));
    // the corridor runs along the first room's row, then up the new column
    assert_eq!(tile(&map, 25, 23), TileType::Floor);
    assert_eq!(tile(&map, 33, 18), TileType::Floor);
}

#[test]
fn try_room_skips_an_overlapping_room() {
    let mut map = blank_map(80, 50);
    assert!(map.try_room(8, 8, 11, 11, false));
    let before = map.tiles.clone();
    assert!(!map.try_room(6, 6, 15, 15, true));
    assert_eq!(map.rooms.len(), 1);
    assert_eq!(map.tiles, before);
}

#[test]
fn add_room_carves_interior_and_corridor() {
    let mut map = blank_map(80, 50);
    let first = Rect::new(10, 10, 8, 8);
    let second = Rect::new(30, 20, 8, 8);
    assert!(map.room_is_free(&first));
    map.add_room(first, false);
    assert!(map.room_is_free(&second));
    map.add_room(second, true);
    assert_eq!(map.rooms, vec![first, second]);
    // interiors: all but the top row and left column of each rectangle
    for y in 11..=18 {
        for x in 11..=18 {
            assert_eq!(tile(&map, x, y), TileType::Floor);
        }
    }
    assert_eq!(tile(&map, 10, 12), TileType::Wall);
    assert_eq!(tile(&map, 12, 10), TileType::Wall);
    // corridor: row 14 from x 14 to 34, then column 34 from y 14 to 24
    for x in 14..=34 {
        assert_eq!(tile(&map, x, 14), TileType::Floor);
    }
    for y in 14..=24 {
        assert_eq!(tile(&map, 34, y), TileType::Floor);
    }
    // the other corner of the L stays wall
    assert_eq!(tile(&map, 14, 22), TileType::Wall);
    assert_eq!(tile(&map, 25, 15), TileType::Wall);
}

#[test]
fn add_room_vertical_first_turns_at_the_other_corner() {
    let mut map = blank_map(80, 50);
    map.add_room(Rect::new(10, 10, 8, 8), false);
    map.add_room(Rect::new(30, 20, 8, 8), false);
    for y in 14..=24 {
        assert_eq!(tile(&map, 14, y), TileType::Floor);
    }
    for x in 14..=34 {
        assert_eq!(tile(&map, x, 24), TileType::Floor);
    }
    assert_eq!(tile(&map, 25, 14), TileType::Wall);
}

#[test]
fn first_room_has_no_corridor() {
    let mut map = blank_map(40, 40);
    map.add_room(Rect::new(5, 5, 6, 6), true);
    let floors = map.tiles.iter().filter(|t| **t == TileType::Floor).count();
    assert_eq!(floors, 36);
}

#[test]
fn overlapping_room_is_not_free() {
    let mut map = blank_map(80, 50);
    map.add_room(Rect::new(10, 10, 8, 8), false);
    assert!(!map.room_is_free(&Rect::new(18, 18, 6, 6)));
    assert!(map.room_is_free(&Rect::new(19, 19, 6, 6)));
}

#[test]
fn generated_map_keeps_layout_properties() {
    for _ in 0..5 {
        let map = GameMap::new(80, 50);
        assert_eq!(map.width, 80);
        assert_eq!(map.height, 50);
        assert_eq!(map.tiles.len(), 4000);
        assert!(map.rooms.len() >= 2);
        assert!(map.rooms.len() <= MAX_ROOMS as usize);
        for (i, a) in map.rooms.iter().enumerate() {
            assert!(a.x1 >= 0 && a.x2 <= 78 && a.y1 >= 0 && a.y2 <= 48);
            assert!((6..10).contains(&(a.x2 - a.x1)));
            assert!((6..10).contains(&(a.y2 - a.y1)));
            for b in map.rooms.iter().skip(i + 1) {
                assert!(!a.intersect(b));
            }
            for y in a.y1 + 1..=a.y2 {
                for x in a.x1 + 1..=a.x2 {
                    assert_eq!(tile(&map, x, y), TileType::Floor);
                }
            }
        }
        for x in 0..80 {
            assert_eq!(tile(&map, x, 0), TileType::Wall);
            assert_eq!(tile(&map, x, 49), TileType::Wall);
        }
        for y in 0..50 {
            assert_eq!(tile(&map, 0, y), TileType::Wall);
            assert_eq!(tile(&map, 79, y), TileType::Wall);
        }
        assert!(map.revealed_tiles.iter().all(|b| !b));
        assert!(map.visible_tiles.iter().all(|b| !b));
        assert!(map.blocked_tiles.iter().all(|b| !b));
        assert!(map.tile_contents.iter().all(|c| c.is_empty()));
    }
}

#[test]
fn generated_rooms_are_joined_to_their_predecessor() {
    let map = GameMap::new(80, 50);
    for pair in map.rooms.windows(2) {
        let (ax, ay) = pair[0].center();
        let (bx, by) = pair[1].center();
        let row_first = (ax.min(bx)..=ax.max(bx)).all(|x| tile(&map, x, ay) == TileType::Floor)
            && (ay.min(by)..=ay.max(by)).all(|y| tile(&map, bx, y) == TileType::Floor);
        let column_first = (ay.min(by)..=ay.max(by)).all(|y| tile(&map, ax, y) == TileType::Floor)
            && (ax.min(bx)..=ax.max(bx)).all(|x| tile(&map, x, by) == TileType::Floor);
        assert!(row_first || column_first);
    }
}

#[test]
fn blocked_tiles_follow_walls() {
    let mut map = blank_map(20, 20);
    map.add_room(Rect::new(2, 2, 6, 6), false);
    map.blocked_tiles[0] = false;
    map.init_blocked_tiles();
    for i in 0..400 {
        assert_eq!(map.blocked_tiles[i], map.tiles[i] == TileType::Wall);
    }
}

#[test]
fn clear_tile_contents_empties_every_cell() {
    let mut map = blank_map(20, 20);
    map.tile_contents[5].push(3);
    map.tile_contents[7].push(1);
    map.clear_tile_contents();
    assert!(map.tile_contents.iter().all(|c| c.is_empty()));
    assert_eq!(map.tile_contents.len(), 400);
}

#[test]
fn exits_are_offered_in_order_with_costs() {
    let mut map = blank_map(5, 5);
    // centre cell (2, 2) is index 12; block its east and south-west neighbours
    map.blocked_tiles[13] = true;
    map.blocked_tiles[16] = true;
    let exits = map.get_available_exits(12);
    assert_eq!(exits, vec![(11, 100), (7, 100), (17, 100), (6, 145), (8, 145), (18, 145)]);
}

#[test]
fn exits_stop_at_the_top_row_and_left_column() {
    let map = blank_map(5, 5);
    // cell (1, 1) is index 6: its west and north neighbours are on column 0 / row 0
    let exits = map.get_available_exits(6);
    assert_eq!(exits, vec![(7, 100), (11, 100), (12, 145)]);
    // the last column and row still admit exits
    let corner = map.get_available_exits(18);
    assert!(corner.contains(&(24, 145)));
}

#[test]
fn exits_from_beyond_the_last_row_reach_back_into_it() {
    let map = blank_map(5, 5);
    // index 27 is (2, 5), one row below the map: only its north-side neighbours qualify
    let exits = map.get_available_exits(27);
    assert_eq!(exits, vec![(22, 100), (21, 145), (23, 145)]);
}

#[test]
fn walls_are_opaque() {
    let mut map = blank_map(10, 10);
    map.tiles[11] = TileType::Floor;
    assert!(map.is_opaque(10));
    assert!(!map.is_opaque(11));
    assert_eq!(map.dimensions(), (10, 10));
}

#[test]
fn tiles_have_glyphs() {
    assert_eq!(TileType::Floor.glyph(), '.');
    assert_eq!(TileType::Wall.glyph(), '#');
}

#[test]
fn draw_lists_revealed_cells_in_index_order() {
    let mut map = blank_map(4, 3);
    map.tiles[5] = TileType::Floor;
    map.revealed_tiles[5] = true;
    map.revealed_tiles[10] = true;
    map.visible_tiles[5] = true;
    let cells = map.draw();
    assert_eq!(
        cells,
        vec![
            CellView { x: 1, y: 1, tile: TileType::Floor, visible: true },
            CellView { x: 2, y: 2, tile: TileType::Wall, visible: false },
        ]
    );
}
