use dungeon_gen::builder::MapBuilder;
use dungeon_gen::bsp_interior::{add_subrects, BspInteriorBuilder};
use dungeon_gen::cellular_automata::{automaton_generation, randomize_interior, walk_left_to_floor, CellularAutomataBuilder};
use dungeon_gen::components::Position;
use dungeon_gen::dla::{walk_path_to_floor, DLAAlgorithm, DLABuilder};
use dungeon_gen::drunkard::{stagger, DrunkSpawnMode, DrunkardSettings, DrunkardsWalkBuilder};
use dungeon_gen::flood::flood_distances;
use dungeon_gen::map::{count_tiles, GridMap, TileType};
use dungeon_gen::paint::DLASymmetry;
use dungeon_gen::rect::Rect;
use dungeon_gen::simple_map::SimpleMapBuilder;
use dungeon_gen::voronoi::VoronoiCellBuilder;
use rltk::RandomNumberGenerator;

fn start_idx(map: &GridMap, p: Position) -> usize {
    map.xy_idx(p.x, p.y).unwrap()
}

fn assert_level(map: &GridMap, start: Position) -> usize {
    let s = start_idx(map, start);
    assert_ne!(map.tiles[s], TileType::Wall);
    let stairs: Vec<usize> = (0..map.tiles.len()).filter(|i| map.tiles[*i] == TileType::DownStairs).collect();
    assert_eq!(stairs.len(), 1);
    let f = flood_distances(map, s);
    for (i, t) in map.tiles.iter().enumerate() {
        if *t != TileType::Wall {
            assert!(f.reached[i], "walkable tile {} not reached", i);
        }
    }
    let exit = stairs[0];
    for (i, r) in f.reached.iter().enumerate() {
        if *r {
            assert!(f.dist[i] <= f.dist[exit]);
        }
    }
    exit
}

#[test]
fn automaton_generation_applies_the_neighbour_rule() {
    let mut m = GridMap::new(1);
    let centre = m.xy_idx(10, 10).unwrap();
    for dy in -1..=1 {
        for dx in -1..=1 {
            let i = m.xy_idx(10 + dx, 10 + dy).unwrap();
            m.tiles[i] = TileType::Floor;
        }
    }
    automaton_generation(&mut m);
    assert_eq!(m.tiles[centre], TileType::Wall);
    assert_eq!(m.tiles[m.xy_idx(10, 9).unwrap()], TileType::Floor);
    assert_eq!(m.tiles[m.xy_idx(9, 9).unwrap()], TileType::Wall);
    assert_eq!(m.tiles[m.xy_idx(40, 20).unwrap()], TileType::Wall);
    assert_eq!(m.tiles[0], TileType::Wall);
}

#[test]
fn walk_left_finds_the_nearest_floor() {
    let mut m = GridMap::new(1);
    let i = m.xy_idx(30, 21).unwrap();
    m.tiles[i] = TileType::Floor;
    let j = m.xy_idx(20, 21).unwrap();
    m.tiles[j] = TileType::Floor;
    assert_eq!(walk_left_to_floor(&m, 40, 21), Some(30));
    assert_eq!(walk_left_to_floor(&m, 29, 21), Some(20));
    assert_eq!(walk_left_to_floor(&m, 19, 21), None);
}

#[test]
fn cellular_automata_scenario_with_dense_seed() {
    let mut seed: u64 = 0;
    loop {
        let mut probe = GridMap::new(1);
        let mut rng = RandomNumberGenerator::seeded(seed);
        randomize_interior(&mut probe, &mut rng);
        let inner = 78 * 41;
        let walls = count_tiles(&probe.tiles, TileType::Wall) - (80 * 43 - inner);
        if walls * 100 > inner * 55 {
            break;
        }
        seed += 1;
    }
    let mut b = CellularAutomataBuilder::new(1);
    let mut rng = RandomNumberGenerator::seeded(seed);
    b.build(&mut rng);
    let exit = assert_level(&b.map, b.starting_position);
    let s = start_idx(&b.map, b.starting_position);
    assert_ne!(s, exit);
    assert_eq!(exit, b.exit);
    let f = flood_distances(&b.map, s);
    assert!(f.dist[exit] > 0);
    assert!(!b.noise_areas.is_empty());
}

#[test]
fn drunkard_scenario_digs_half_the_map() {
    let mut b = DrunkardsWalkBuilder::new(1, DrunkardSettings { drunken_lifetime: 400, spawn_mode: DrunkSpawnMode::StartingPoint });
    let mut rng = RandomNumberGenerator::seeded(7);
    b.build(&mut rng);
    assert!(b.floor_tiles_dug * 2 >= 80 * 43);
    assert!(b.active_digger_count <= b.digger_count);
    assert_eq!(b.starting_position, Position { x: 40, y: 21 });
    assert_level(&b.map, b.starting_position);
}

#[test]
fn drunkard_random_spawns_build_a_level() {
    let mut b = DrunkardsWalkBuilder::new(2, DrunkardSettings { drunken_lifetime: 100, spawn_mode: DrunkSpawnMode::Random });
    let mut rng = RandomNumberGenerator::seeded(11);
    b.build(&mut rng);
    assert!(b.floor_tiles_dug * 2 >= 80 * 43);
    assert_level(&b.map, b.starting_position);
}

#[test]
fn stagger_stays_inside_the_inner_area() {
    assert_eq!(stagger(5, 5, 1, 80, 43), (4, 5));
    assert_eq!(stagger(2, 5, 1, 80, 43), (2, 5));
    assert_eq!(stagger(77, 5, 2, 80, 43), (78, 5));
    assert_eq!(stagger(78, 5, 2, 80, 43), (78, 5));
    assert_eq!(stagger(5, 2, 3, 80, 43), (5, 2));
    assert_eq!(stagger(5, 40, 4, 80, 43), (5, 41));
    assert_eq!(stagger(5, 41, 4, 80, 43), (5, 41));
}

#[test]
fn dla_walk_inwards_builds_a_level() {
    let mut b = DLABuilder::walk_inwards(1);
    let mut rng = RandomNumberGenerator::seeded(100);
    b.build(&mut rng);
    assert!(b.floor_tiles_grown * 4 >= 80 * 43);
    assert_level(&b.map, b.starting_position);
}

#[test]
fn dla_walk_outwards_builds_a_level() {
    let mut b = DLABuilder::walk_outwards(1);
    let mut rng = RandomNumberGenerator::seeded(101);
    b.build(&mut rng);
    assert!(b.floor_tiles_grown * 4 >= 80 * 43);
    assert_level(&b.map, b.starting_position);
}

#[test]
fn dla_central_attractor_builds_a_level() {
    let mut b = DLABuilder::central_attractor(1);
    let mut rng = RandomNumberGenerator::seeded(102);
    b.build(&mut rng);
    assert!(b.floor_tiles_grown * 4 >= 80 * 43);
    assert_level(&b.map, b.starting_position);
}

#[test]
fn dla_insectoid_builds_a_level() {
    let mut b = DLABuilder::insectoid(1);
    let mut rng = RandomNumberGenerator::seeded(103);
    b.build(&mut rng);
    assert!(b.floor_tiles_grown * 4 >= 80 * 43);
    assert_level(&b.map, b.starting_position);
}

#[test]
fn dla_settings_of_the_named_variants() {
    let b = DLABuilder::insectoid(4);
    assert_eq!(b.settings.algorithm, DLAAlgorithm::CentralAttractor);
    assert_eq!(b.settings.symmetry, DLASymmetry::Horizontal);
    assert_eq!(b.settings.brush_size, 2);
    assert_eq!(b.settings.floor_percent, 25);
    assert_eq!(DLABuilder::walk_inwards(4).settings.brush_size, 1);
}

#[test]
fn walker_on_a_path_stops_before_the_first_floor() {
    let mut m = GridMap::new(1);
    let f = m.xy_idx(13, 10).unwrap();
    m.tiles[f] = TileType::Floor;
    let path = vec![(10, 10), (11, 10), (12, 10), (13, 10), (14, 10)];
    assert_eq!(walk_path_to_floor(&m, 10, 10, &path), (12, 10));
    let all_wall = vec![(30, 30), (31, 30), (32, 30)];
    assert_eq!(walk_path_to_floor(&m, 30, 30, &all_wall), (31, 30));
    assert_eq!(walk_path_to_floor(&m, 13, 10, &path), (13, 10));
    let off = vec![(0, 0), (-1, 0)];
    assert_eq!(walk_path_to_floor(&m, 0, 0, &off), (0, 0));
}

#[test]
fn central_attractor_grows_towards_the_centre() {
    let mut b = DLABuilder::central_attractor(1);
    let mut rng = RandomNumberGenerator::seeded(5);
    b.build(&mut rng);
    assert!(b.walkers < 20000);
    assert!(count_tiles(&b.map.tiles, TileType::Floor) > 5);
}

#[test]
fn voronoi_builders_build_levels() {
    for (k, mut b) in vec![VoronoiCellBuilder::pythagoras(1), VoronoiCellBuilder::manhattan(1), VoronoiCellBuilder::chebyshev(1)]
        .into_iter()
        .enumerate()
    {
        let mut rng = RandomNumberGenerator::seeded(40 + k as u64);
        b.build(&mut rng);
        assert_eq!(b.starting_position.y, 21);
        assert!(b.starting_position.x <= 40);
        if !b.centre_carved {
            assert_eq!(b.cell_tiles[b.map.xy_idx(b.starting_position.x, 21).unwrap()], TileType::Floor);
        }
        assert_level(&b.map, b.starting_position);
    }
}

#[test]
fn simple_map_rooms_do_not_overlap_and_centres_are_floor() {
    let mut b = SimpleMapBuilder::new(1);
    let mut rng = RandomNumberGenerator::seeded(3);
    b.build_map(&mut rng);
    assert!(!b.rooms.is_empty());
    for i in 0..b.rooms.len() {
        for j in 0..b.rooms.len() {
            if i != j {
                assert!(!b.rooms[i].intersects(&b.rooms[j]));
            }
        }
    }
    let last = b.rooms.len() - 1;
    for (i, r) in b.rooms.iter().enumerate() {
        let (cx, cy) = r.center();
        let t = b.map.tiles[b.map.xy_idx(cx, cy).unwrap()];
        if i == last {
            assert_eq!(t, TileType::DownStairs);
        } else {
            assert_eq!(t, TileType::Floor);
        }
    }
    let (sx, sy) = b.rooms[0].center();
    assert_eq!(b.get_starting_position(), Position { x: sx, y: sy });
    assert_eq!(count_tiles(&b.map.tiles, TileType::DownStairs), 1);
}

#[test]
fn bsp_leaves_cover_disjoint_parts() {
    let mut rng = RandomNumberGenerator::seeded(9);
    let mut leaves = Vec::new();
    let bounds = Rect::new(1, 1, 78, 41);
    add_subrects(bounds, &mut rng, &mut leaves);
    assert!(leaves.len() >= 2);
    for (i, a) in leaves.iter().enumerate() {
        assert!(a.x1 >= 1 && a.x2 <= 79 && a.y1 >= 1 && a.y2 <= 42);
        for b in leaves.iter().skip(i + 1) {
            assert!(!a.intersects(b));
        }
    }
}

#[test]
fn bsp_interior_places_stairs_and_start() {
    let mut b = BspInteriorBuilder::new(1);
    let mut rng = RandomNumberGenerator::seeded(21);
    b.build(&mut rng);
    assert_eq!(count_tiles(&b.map.tiles, TileType::DownStairs), 1);
    let p = b.get_starting_position();
    assert!(b.map.xy_idx(p.x, p.y).is_some());
    assert!(count_tiles(&b.map.tiles, TileType::Floor) > 100);
}

fn assert_all_reachable(map: &GridMap, start: Position) {
    let s = start_idx(map, start);
    let f = flood_distances(map, s);
    for (i, t) in map.tiles.iter().enumerate() {
        if *t != TileType::Wall {
            assert!(f.reached[i], "walkable tile {} not reached", i);
        }
    }
}

#[test]
fn room_builders_leave_no_walkable_tile_unreachable() {
    for seed in 0..5u64 {
        let mut simple = SimpleMapBuilder::new(1);
        simple.rooms_and_corridors(&mut RandomNumberGenerator::seeded(seed));
        assert_all_reachable(&simple.map, simple.starting_position);
        let mut bsp = BspInteriorBuilder::new(1);
        bsp.build(&mut RandomNumberGenerator::seeded(seed));
        assert_all_reachable(&bsp.map, bsp.starting_position);
        let last = bsp.rooms.len() - 1;
        for r in bsp.rooms.iter().take(last) {
            let (cx, cy) = r.center();
            assert_eq!(bsp.map.tiles[bsp.map.xy_idx(cx, cy).unwrap()], TileType::Floor);
        }
    }
}

#[test]
fn fresh_dla_builder_paints_one_tile() {
    let mut b = DLABuilder::walk_inwards(1);
    b.apply_paint(10, 5);
    assert_eq!(b.map.tiles[410], TileType::Floor);
    assert_eq!(count_tiles(&b.map.tiles, TileType::Floor), 1);
    let mut wide = DLABuilder::central_attractor(1);
    wide.apply_paint(i32::MAX, i32::MIN);
    assert_eq!(count_tiles(&wide.map.tiles, TileType::Floor), 0);
    let mut ins = DLABuilder::insectoid(1);
    ins.settings.brush_size = 1;
    ins.paint(10, 5);
    assert_eq!(ins.map.tiles[ins.map.xy_idx(69, 5).unwrap()], TileType::Floor);
}

#[test]
fn cellular_border_stays_wall_and_start_walks_left() {
    let mut b = CellularAutomataBuilder::new(1);
    b.build(&mut RandomNumberGenerator::seeded(4));
    for x in 0..80 {
        assert_eq!(b.map.tiles[b.map.xy_idx(x, 0).unwrap()], TileType::Wall);
        assert_eq!(b.map.tiles[b.map.xy_idx(x, 42).unwrap()], TileType::Wall);
    }
    for y in 0..43 {
        assert_eq!(b.map.tiles[b.map.xy_idx(0, y).unwrap()], TileType::Wall);
        assert_eq!(b.map.tiles[b.map.xy_idx(79, y).unwrap()], TileType::Wall);
    }
    let p = b.starting_position;
    assert_eq!(p.y, 21);
    for x in (p.x + 1)..=40 {
        assert_eq!(b.map.tiles[b.map.xy_idx(x, 21).unwrap()], TileType::Wall);
    }
}

#[test]
fn voronoi_seeds_are_distinct_and_cells_nearest() {
    let mut b = VoronoiCellBuilder::manhattan(1);
    b.build(&mut RandomNumberGenerator::seeded(13));
    assert_eq!(b.seeds.len(), 64);
    for i in 0..b.seeds.len() {
        for j in (i + 1)..b.seeds.len() {
            assert_ne!(b.seeds[i], b.seeds[j]);
        }
    }
    assert_eq!(b.membership.len(), 80 * 43);
}

#[test]
fn drunkard_floor_count_matches_dug_tiles() {
    let mut b = DrunkardsWalkBuilder::new(1, DrunkardSettings { drunken_lifetime: 200, spawn_mode: DrunkSpawnMode::Random });
    b.build(&mut RandomNumberGenerator::seeded(17));
    assert_eq!(b.floor_tiles_dug, count_tiles(&b.dug_tiles, TileType::Floor));
    assert!(b.floor_tiles_dug >= 1720);
}
