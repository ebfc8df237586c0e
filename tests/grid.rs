use dungeon_gen::common::{apply_horizontal_tunnel, apply_room_to_map, apply_vertical_tunnel};
use dungeon_gen::map::{count_tiles, GridMap, TileType, MAPCOUNT, MAPHEIGHT, MAPWIDTH};
use dungeon_gen::rect::Rect;

#[test]
fn new_map_is_all_wall_and_hidden() {
    let m = GridMap::new(3);
    assert_eq!(m.width as usize, MAPWIDTH);
    assert_eq!(m.height as usize, MAPHEIGHT);
    assert_eq!(m.tiles.len(), MAPCOUNT);
    assert_eq!(m.depth, 3);
    assert!(m.tiles.iter().all(|t| *t == TileType::Wall));
    assert!(m.revealed_tiles.iter().all(|r| !*r));
    assert!(m.is_well_formed());
}

#[test]
fn xy_idx_is_row_major_and_rejects_off_map_points() {
    let m = GridMap::new(1);
    assert_eq!(m.xy_idx(0, 0), Some(0));
    assert_eq!(m.xy_idx(5, 2), Some(2 * 80 + 5));
    assert_eq!(m.xy_idx(79, 42), Some(3439));
    assert_eq!(m.xy_idx(80, 0), None);
    assert_eq!(m.xy_idx(-1, 0), None);
    assert_eq!(m.xy_idx(0, 43), None);
    assert_eq!(m.xy_idx(0, -1), None);
}

#[test]
fn populate_blocked_marks_exactly_the_walls() {
    let mut m = GridMap::new(1);
    m.tiles[10] = TileType::Floor;
    m.tiles[11] = TileType::DownStairs;
    m.blocked[12] = true;
    m.populate_blocked();
    assert!(!m.blocked[10]);
    assert!(!m.blocked[11]);
    assert!(m.blocked[12]);
    assert!(m.blocked[0]);
}

#[test]
fn clear_content_index_empties_every_tile() {
    let mut m = GridMap::new(1);
    m.tile_content[4].push(7);
    m.tile_content[9].push(1);
    m.tile_content[9].push(2);
    m.clear_content_index();
    assert_eq!(m.tile_content.len(), MAPCOUNT);
    assert!(m.tile_content.iter().all(|c| c.is_empty()));
}

#[test]
fn count_tiles_counts_one_kind() {
    let mut m = GridMap::new(1);
    m.tiles[0] = TileType::Floor;
    m.tiles[5] = TileType::Floor;
    m.tiles[6] = TileType::DownStairs;
    assert_eq!(count_tiles(&m.tiles, TileType::Floor), 2);
    assert_eq!(count_tiles(&m.tiles, TileType::DownStairs), 1);
    assert_eq!(count_tiles(&m.tiles, TileType::Wall), MAPCOUNT - 3);
}

#[test]
fn rect_new_center_and_half_open_intersection() {
    let a = Rect::new(2, 3, 4, 6);
    assert_eq!((a.x1, a.y1, a.x2, a.y2), (2, 3, 6, 9));
    assert_eq!(a.center(), (4, 6));
    let touching = Rect::new(6, 3, 2, 2);
    assert!(!a.intersects(&touching));
    let overlapping = Rect::new(5, 8, 3, 3);
    assert!(a.intersects(&overlapping));
    assert!(overlapping.intersects(&a));
}

#[test]
fn room_floors_its_inside_only() {
    let mut m = GridMap::new(1);
    let room = Rect::new(2, 2, 3, 2);
    apply_room_to_map(&mut m, &room);
    for y in 0..43 {
        for x in 0..80 {
            let inside = (3..=5).contains(&x) && (3..=4).contains(&y);
            let t = m.tiles[m.xy_idx(x, y).unwrap()];
            assert_eq!(t == TileType::Floor, inside, "tile {},{}", x, y);
        }
    }
}

#[test]
fn tunnels_run_between_either_end_and_spare_tile_zero() {
    let mut m = GridMap::new(1);
    apply_horizontal_tunnel(&mut m, 7, 3, 4);
    for x in 3..=7 {
        assert_eq!(m.tiles[m.xy_idx(x, 4).unwrap()], TileType::Floor);
    }
    assert_eq!(m.tiles[m.xy_idx(2, 4).unwrap()], TileType::Wall);
    assert_eq!(m.tiles[m.xy_idx(8, 4).unwrap()], TileType::Wall);
    apply_vertical_tunnel(&mut m, 6, 1, 10);
    for y in 1..=6 {
        assert_eq!(m.tiles[m.xy_idx(10, y).unwrap()], TileType::Floor);
    }
    assert_eq!(count_tiles(&m.tiles, TileType::Floor), 11);
    apply_horizontal_tunnel(&mut m, 0, 2, 0);
    assert_eq!(m.tiles[0], TileType::Wall);
    assert_eq!(m.tiles[1], TileType::Floor);
    assert_eq!(m.tiles[2], TileType::Floor);
}

#[test]
fn exits_list_open_neighbours_with_their_costs() {
    let mut m = GridMap::new(1);
    m.populate_blocked();
    for (x, y) in [(5, 5), (6, 5), (5, 6), (4, 4)] {
        let i = m.xy_idx(x, y).unwrap();
        m.tiles[i] = TileType::Floor;
    }
    m.populate_blocked();
    let idx = m.xy_idx(5, 5).unwrap();
    let exits = m.get_available_exits(idx);
    assert_eq!(exits, vec![(idx + 1, 100), (idx + 80, 100), (idx - 81, 145)]);
    assert!(m.is_exit_valid(6, 5));
    assert!(!m.is_exit_valid(7, 5));
    assert!(!m.is_exit_valid(0, 5));
    assert!(m.is_opaque(0));
    assert!(!m.is_opaque(idx));
}

#[test]
fn wall_glyphs_join_revealed_neighbours() {
    let mut m = GridMap::new(1);
    assert_eq!(dungeon_gen::map::wall_glyph(&m, 0, 5), 35);
    assert_eq!(dungeon_gen::map::wall_glyph(&m, 5, 5), 9);
    for (x, y) in [(5, 4), (4, 5), (6, 5)] {
        let i = m.xy_idx(x, y).unwrap();
        m.revealed_tiles[i] = true;
    }
    assert_eq!(dungeon_gen::map::wall_glyph(&m, 5, 5), 202);
    let below = m.xy_idx(5, 6).unwrap();
    m.revealed_tiles[below] = true;
    assert_eq!(dungeon_gen::map::wall_glyph(&m, 5, 5), 35);
    assert!(dungeon_gen::map::is_revealed_and_wall(&m, 5, 6));
}
