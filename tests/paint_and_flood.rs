use dungeon_gen::flood::{finish_with_stairs, flood_distances, remove_unreachable_areas_returning_most_distant};
use dungeon_gen::map::{count_tiles, GridMap, TileType};
use dungeon_gen::paint::{apply_paint, paint, DLASymmetry};

fn small_map(rows: &[&str]) -> GridMap {
    let height = rows.len();
    let width = rows[0].len();
    let mut tiles = Vec::new();
    for r in rows {
        for c in r.chars() {
            tiles.push(match c {
                '#' => TileType::Wall,
                '>' => TileType::DownStairs,
                _ => TileType::Floor,
            });
        }
    }
    let n = width * height;
    GridMap {
        tiles,
        width: width as i32,
        height: height as i32,
        revealed_tiles: vec![false; n],
        visible_tiles: vec![false; n],
        blocked: vec![false; n],
        depth: 1,
        bloodstains: Vec::new(),
        tile_content: vec![Vec::new(); n],
    }
}

#[test]
fn single_brush_paints_exactly_one_tile() {
    let mut m = GridMap::new(1);
    let before = m.tiles.clone();
    apply_paint(&mut m, 1, 12, 7);
    let idx = m.xy_idx(12, 7).unwrap();
    assert_eq!(m.tiles[idx], TileType::Floor);
    for (i, t) in m.tiles.iter().enumerate() {
        if i != idx {
            assert_eq!(*t, before[i]);
        }
    }
    apply_paint(&mut m, 1, 12, 7);
    assert_eq!(m.tiles[idx], TileType::Floor);
    assert_eq!(count_tiles(&m.tiles, TileType::Floor), 1);
}

#[test]
fn single_brush_overwrites_stairs_with_floor() {
    let mut m = GridMap::new(1);
    let idx = m.xy_idx(3, 3).unwrap();
    m.tiles[idx] = TileType::DownStairs;
    apply_paint(&mut m, 1, 3, 3);
    assert_eq!(m.tiles[idx], TileType::Floor);
}

#[test]
fn wide_brush_paints_a_square_off_the_outer_rings() {
    let mut m = GridMap::new(1);
    apply_paint(&mut m, 2, 10, 10);
    let floors: Vec<(i32, i32)> = (0..43)
        .flat_map(|y| (0..80).map(move |x| (x, y)))
        .filter(|(x, y)| m.tiles[m.xy_idx(*x, *y).unwrap()] == TileType::Floor)
        .collect();
    assert_eq!(floors, vec![(9, 9), (10, 9), (9, 10), (10, 10)]);
    let mut edge = GridMap::new(1);
    apply_paint(&mut edge, 4, 2, 2);
    assert_eq!(count_tiles(&edge.tiles, TileType::Floor), 4);
    assert_eq!(edge.tiles[edge.xy_idx(1, 1).unwrap()], TileType::Wall);
    assert_eq!(edge.tiles[edge.xy_idx(3, 3).unwrap()], TileType::Floor);
}

#[test]
fn off_map_single_brush_is_clipped() {
    let mut m = GridMap::new(1);
    apply_paint(&mut m, 1, 80, 5);
    apply_paint(&mut m, 1, -1, 5);
    assert_eq!(count_tiles(&m.tiles, TileType::Floor), 0);
}

#[test]
fn horizontal_symmetry_paints_the_mirror_column() {
    let mut m = GridMap::new(1);
    paint(&mut m, DLASymmetry::Horizontal, 1, 10, 5);
    assert_eq!(m.tiles[m.xy_idx(10, 5).unwrap()], TileType::Floor);
    assert_eq!(m.tiles[m.xy_idx(69, 5).unwrap()], TileType::Floor);
    assert_eq!(count_tiles(&m.tiles, TileType::Floor), 2);
}

#[test]
fn vertical_and_both_symmetry_paint_their_mirrors() {
    let mut m = GridMap::new(1);
    paint(&mut m, DLASymmetry::Vertical, 1, 10, 5);
    assert_eq!(m.tiles[m.xy_idx(10, 37).unwrap()], TileType::Floor);
    assert_eq!(count_tiles(&m.tiles, TileType::Floor), 2);
    let mut b = GridMap::new(1);
    paint(&mut b, DLASymmetry::Both, 1, 10, 5);
    assert_eq!(b.tiles[b.xy_idx(10, 5).unwrap()], TileType::Floor);
    assert_eq!(b.tiles[b.xy_idx(69, 5).unwrap()], TileType::Floor);
    assert_eq!(b.tiles[b.xy_idx(10, 37).unwrap()], TileType::Floor);
    assert_eq!(count_tiles(&b.tiles, TileType::Floor), 3);
    let mut none = GridMap::new(1);
    paint(&mut none, DLASymmetry::NoSymmetry, 1, 10, 5);
    assert_eq!(count_tiles(&none.tiles, TileType::Floor), 1);
}

#[test]
fn flood_measures_cardinal_and_diagonal_steps() {
    let m = small_map(&["....", "....", "...."]);
    let f = flood_distances(&m, 0);
    assert!(f.reached.iter().all(|r| *r));
    assert_eq!(f.dist[0], 0);
    assert_eq!(f.dist[1], 100);
    assert_eq!(f.dist[5], 145);
    assert_eq!(f.dist[3], 300);
    assert_eq!(f.dist[11], 390);
}

#[test]
fn flood_does_not_cross_walls() {
    let m = small_map(&["..#..", "..#..", "..#.."]);
    let f = flood_distances(&m, 0);
    assert!(f.reached[1] && f.reached[6]);
    assert!(!f.reached[3] && !f.reached[4] && !f.reached[2]);
}

#[test]
fn pruning_walls_unreachable_pockets_and_returns_farthest() {
    let mut m = small_map(&["...#.", "...#.", "....."]);
    let mut cut = small_map(&["..#..", "..#..", "..#.."]);
    let (exit, f) = remove_unreachable_areas_returning_most_distant(&mut m, 0);
    assert!(f.reached.iter().enumerate().all(|(i, r)| *r == (m.tiles[i] != TileType::Wall)));
    assert_eq!(exit, 4);
    let (exit2, _) = remove_unreachable_areas_returning_most_distant(&mut cut, 0);
    assert_eq!(cut.tiles[3], TileType::Wall);
    assert_eq!(cut.tiles[14], TileType::Wall);
    assert_eq!(exit2, 11);
}

#[test]
fn stairs_go_on_the_single_farthest_tile() {
    let mut m = small_map(&[".....", "#####", "....."]);
    let (exit, f) = finish_with_stairs(&mut m, 0);
    assert_eq!(exit, 4);
    assert_eq!(m.tiles[4], TileType::DownStairs);
    assert_eq!(count_tiles(&m.tiles, TileType::DownStairs), 1);
    assert_eq!(count_tiles(&m.tiles, TileType::Floor), 4);
    assert_eq!(f.dist[4], 400);
}
