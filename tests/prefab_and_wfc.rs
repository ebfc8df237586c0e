use dungeon_gen::map::{count_tiles, GridMap, TileType};
use dungeon_gen::prefab::{read_ascii_to_vec, underground_fort, GlyphLayer, PrefabBuilder, PrefabError, PrefabLevel, PrefabMode};
use dungeon_gen::registry::{random_builder, BaseBuilder};
use dungeon_gen::cellular_automata::CellularAutomataBuilder;
use dungeon_gen::spawn_regions::generate_voronoi_spawn_regions;
use dungeon_gen::voronoi::{nearest_seed, voronoi_membership, DistanceAlgorithm};
use dungeon_gen::waveform_collapse::{build_constraints, check_assignment, solve, WaveformCollapseBuilder, WfcError};
use rltk::RandomNumberGenerator;

#[test]
fn template_text_drops_line_breaks_and_normalises_spaces() {
    let v = read_ascii_to_vec("#@\r\n\u{A0}>\n");
    assert_eq!(v, vec!['#', '@', ' ', '>']);
    assert_eq!(read_ascii_to_vec(""), Vec::<char>::new());
}

#[test]
fn glyphs_set_tiles_spawns_and_start() {
    let mut b = PrefabBuilder::new(1, None);
    b.char_to_map(' ', 100);
    b.char_to_map('>', 101);
    b.char_to_map('g', 102);
    b.char_to_map('!', 103);
    b.char_to_map('@', 2 * 80 + 7);
    b.char_to_map('?', 104);
    b.char_to_map('#', 100);
    assert_eq!(b.map.tiles[100], TileType::Wall);
    assert_eq!(b.map.tiles[101], TileType::DownStairs);
    assert_eq!(b.map.tiles[102], TileType::Floor);
    assert_eq!(b.map.tiles[103], TileType::Floor);
    assert_eq!(b.map.tiles[104], TileType::Wall);
    assert_eq!(b.map.tiles[167], TileType::Floor);
    assert_eq!((b.starting_position.x, b.starting_position.y), (7, 2));
    assert_eq!(b.spawns, vec![(102, "Goblin".to_string()), (103, "Health Potion".to_string())]);
}

#[test]
fn ascii_level_is_laid_from_the_corner() {
    let mut b = PrefabBuilder::new(1, None);
    let level = PrefabLevel { template: "\n ^\n%o\n", width: 2, height: 2 };
    assert_eq!(b.load_ascii_map(&level), Ok(()));
    assert_eq!(b.map.tiles[0], TileType::Floor);
    assert_eq!(b.map.tiles[81], TileType::Floor);
    assert_eq!(b.spawns.len(), 3);
    assert_eq!(b.spawns[0], (1, "Bear Trap".to_string()));
    assert_eq!(b.spawns[1], (80, "Rations".to_string()));
    assert_eq!(b.spawns[2], (81, "Orc".to_string()));
}

#[test]
fn malformed_templates_are_rejected() {
    let mut b = PrefabBuilder::new(1, None);
    let short = PrefabLevel { template: "###", width: 2, height: 2 };
    assert_eq!(b.load_ascii_map(&short), Err(PrefabError::TemplateSizeMismatch));
    let long = PrefabLevel { template: "#####", width: 2, height: 2 };
    assert_eq!(b.load_ascii_map(&long), Err(PrefabError::TemplateSizeMismatch));
    let huge = PrefabLevel { template: "#", width: 2000, height: 1 };
    assert_eq!(b.load_ascii_map(&huge), Err(PrefabError::TemplateTooLarge));
    assert_eq!(count_tiles(&b.map.tiles, TileType::Wall), 80 * 43);
}

#[test]
fn layered_image_cells_are_decoded_layer_by_layer() {
    let mut b = PrefabBuilder::new(1, None);
    let layers = vec![
        GlyphLayer { width: 2, height: 1, glyphs: vec![' ', '>'] },
        GlyphLayer { width: 1, height: 1, glyphs: vec!['#'] },
        GlyphLayer { width: 3, height: 1, glyphs: vec!['g'] },
    ];
    b.load_rex_map(&layers);
    assert_eq!(b.map.tiles[0], TileType::Wall);
    assert_eq!(b.map.tiles[1], TileType::DownStairs);
    assert!(b.spawns.is_empty());
}

#[test]
fn fort_section_is_placed_at_the_right_centre() {
    let mut b = random_builder(1);
    let mut rng = RandomNumberGenerator::seeded(12);
    assert_eq!(b.build(&mut rng), Ok(()));
    let fort = underground_fort();
    let x0 = 79 - fort.width as i32;
    let y0 = 21 - fort.height as i32 / 2;
    assert_eq!(b.map.tiles[b.map.xy_idx(x0, y0).unwrap()], TileType::Wall);
    assert_eq!(b.map.tiles[b.map.xy_idx(x0 + 1, y0 + 1).unwrap()], TileType::Floor);
    assert_eq!(b.map.tiles[b.map.xy_idx(x0 + 4, y0 + 4).unwrap()], TileType::DownStairs);
    assert_eq!(b.spawns.len(), 6);
    assert!(b.previous_builder.is_none());
    let p = b.starting_position;
    assert!(b.map.xy_idx(p.x, p.y).is_some());
}

#[test]
fn prefab_constant_mode_builds() {
    let mut b = PrefabBuilder::new(1, None);
    b.mode = PrefabMode::Constant { level: PrefabLevel { template: "#####\n#  @#\n#####", width: 5, height: 3 } };
    let mut rng = RandomNumberGenerator::seeded(1);
    assert_eq!(b.build(&mut rng), Ok(()));
    assert_eq!((b.starting_position.x, b.starting_position.y), (3, 1));
}

#[test]
fn nearest_seed_prefers_the_first_of_equals() {
    let seeds = vec![(0, 0), (4, 0), (2, 2)];
    assert_eq!(nearest_seed(&seeds, DistanceAlgorithm::Manhattan, 2, 0), 0);
    assert_eq!(nearest_seed(&seeds, DistanceAlgorithm::Pythagoras, 3, 0), 1);
    assert_eq!(nearest_seed(&seeds, DistanceAlgorithm::Chebyshev, 2, 2), 2);
    assert_eq!(nearest_seed(&seeds, DistanceAlgorithm::Chebyshev, 1, 1), 0);
    let m = voronoi_membership(5, 1, &vec![(0, 0), (4, 0)], DistanceAlgorithm::Manhattan);
    assert_eq!(m, vec![0, 0, 0, 1, 1]);
}

#[test]
fn spawn_regions_split_the_walkable_tiles() {
    let mut m = GridMap::new(1);
    for i in 100..400 {
        m.tiles[i] = TileType::Floor;
    }
    let mut rng = RandomNumberGenerator::seeded(2);
    let regions = generate_voronoi_spawn_regions(&m, &mut rng);
    let mut seen = vec![0u32; m.tiles.len()];
    for r in regions.iter() {
        assert!(!r.is_empty());
        for i in r.iter() {
            seen[*i] += 1;
        }
    }
    for (i, t) in m.tiles.iter().enumerate() {
        assert_eq!(seen[i], if *t == TileType::Floor { 1 } else { 0 });
    }
}

#[test]
fn constraints_come_from_the_donor_layout() {
    let mut m = GridMap::new(1);
    for i in 0..(80 * 8) {
        m.tiles[i] = TileType::Floor;
    }
    let (k, chunks) = build_constraints(&m, 10, 5);
    assert_eq!(k.patterns.len(), 2);
    assert_eq!(chunks.len(), 50);
    assert!(check_assignment(&k, 10, 5, &chunks));
    let n = k.patterns.len();
    let floor = chunks[0];
    let wall = chunks[10];
    assert!(k.allowed[(floor * 4 + 3) * n + floor]);
    assert!(k.allowed[(floor * 4 + 1) * n + wall]);
    assert!(!k.allowed[(wall * 4 + 1) * n + floor]);
    let mut bad = chunks.clone();
    bad[0] = wall;
    bad[1] = floor;
    assert!(!check_assignment(&k, 10, 5, &bad));
}

#[test]
fn solver_output_respects_the_constraints() {
    let mut donor = CellularAutomataBuilder::new(1);
    let mut rng = RandomNumberGenerator::seeded(31);
    donor.build(&mut rng);
    let (k, _) = build_constraints(&donor.map, 10, 5);
    if let Some(a) = solve(&k, 10, 5, &mut rng) {
        assert!(check_assignment(&k, 10, 5, &a));
    }
}

#[test]
fn waveform_collapse_builds_a_consistent_level() {
    let base = Box::new(BaseBuilder::Cellular(CellularAutomataBuilder::new(1)));
    let mut b = WaveformCollapseBuilder::derived_map(1, base);
    let mut rng = RandomNumberGenerator::seeded(8);
    if b.build(&mut rng).is_ok() {
        assert!(check_assignment(&b.constraints, 10, 5, &b.chunks));
        assert!(check_assignment(&b.constraints, 10, 5, &b.donor_chunks));
        assert_eq!(count_tiles(&b.map.tiles, TileType::DownStairs), 1);
        let p = b.starting_position;
        assert_ne!(b.map.tiles[b.map.xy_idx(p.x, p.y).unwrap()], TileType::Wall);
    }
}

#[test]
fn waveform_collapse_without_donor_fails() {
    let mut b = WaveformCollapseBuilder::new(1, None);
    let mut rng = RandomNumberGenerator::seeded(8);
    assert_eq!(b.build(&mut rng), Err(WfcError::NoDonor));
}

#[test]
fn section_without_a_base_level_fails() {
    let mut b = PrefabBuilder::new(1, None);
    let mut rng = RandomNumberGenerator::seeded(1);
    assert_eq!(b.build(&mut rng), Err(PrefabError::NoBaseLevel));
}

#[test]
fn wide_image_layers_still_apply_their_cells_on_the_map() {
    let mut b = PrefabBuilder::new(1, None);
    let mut glyphs = vec!['#'; 2000];
    glyphs[3] = ' ';
    glyphs[1500] = ' ';
    b.map.tiles[0] = TileType::Floor;
    let layers = vec![GlyphLayer { width: 2000, height: 1, glyphs }];
    b.load_rex_map(&layers);
    assert_eq!(b.map.tiles[0], TileType::Wall);
    assert_eq!(b.map.tiles[3], TileType::Floor);
    assert_eq!(count_tiles(&b.map.tiles, TileType::Floor), 1);
    let tall = vec![GlyphLayer { width: 1, height: 100, glyphs: vec!['>'; 100] }];
    b.load_rex_map(&tall);
    assert_eq!(count_tiles(&b.map.tiles, TileType::DownStairs), 43);
}

#[test]
fn section_keeps_the_wrapped_start_without_its_own() {
    let mut b = random_builder(1);
    let mut rng = RandomNumberGenerator::seeded(12);
    assert_eq!(b.build(&mut rng), Ok(()));
    assert_eq!(b.starting_position, b.base_start);
    assert_eq!(b.base_tiles.len(), 80 * 43);
}
