use vstd::prelude::*;
use rltk::RandomNumberGenerator;
use crate::builder::level_ok;
use crate::bsp_interior::{BspInteriorBuilder, room_center};
use crate::cellular_automata::CellularAutomataBuilder;
use crate::map::{MAPWIDTH, MAPHEIGHT, TileType};
use crate::components::Position;
use crate::dla::DLABuilder;
use crate::drunkard::DrunkardsWalkBuilder;
use crate::map::GridMap;
use crate::prefab::PrefabBuilder;
use crate::simple_map::SimpleMapBuilder;
use crate::voronoi::VoronoiCellBuilder;

verus! {

/// The builders that make a level from nothing.
pub enum BaseBuilder {
    Simple(SimpleMapBuilder),
    Bsp(BspInteriorBuilder),
    Cellular(CellularAutomataBuilder),
    Drunkard(DrunkardsWalkBuilder),
    Dla(DLABuilder),
    Voronoi(VoronoiCellBuilder),
}

/// A finished standard-size level: its map and its start.
pub open spec fn finished_level(r: (GridMap, Position)) -> bool {
    &&& r.0.wf()
    &&& r.0.in_map(r.1.x as int, r.1.y as int)
    &&& r.0.width == MAPWIDTH && r.0.height == MAPHEIGHT
    &&& exists|e: int| #[trigger] level_ok(r.0, r.1, e)
}

fn simple_level(mut b: SimpleMapBuilder, rng: &mut RandomNumberGenerator) -> (r: (GridMap, Position))
    ensures
        finished_level(r),
{
        b.rooms_and_corridors(rng);
        let ghost e = b.map.idx(b.rooms@[b.rooms@.len() - 1].center_spec().0, b.rooms@[b.rooms@.len() - 1].center_spec().1);
        proof {
            let rs = b.rooms@;
            let last = rs[rs.len() - 1];
            crate::simple_map::lemma_center_inside(last, MAPWIDTH as int, MAPHEIGHT as int);
            crate::map::lemma_idx_in_range(MAPWIDTH as int, MAPHEIGHT as int, last.center_spec().0, last.center_spec().1);
            if rs.len() > 1 {
                assert(b.map.tiles@[b.map.idx(rs[0].center_spec().0, rs[0].center_spec().1)] == TileType::Floor);
            }
            assert(level_ok(b.map, b.starting_position, e));
        }
        let r = (b.map, b.starting_position);
        assert(level_ok(r.0, r.1, e));
        r
}

fn bsp_level(mut b: BspInteriorBuilder, rng: &mut RandomNumberGenerator) -> (r: (GridMap, Position))
    ensures
        finished_level(r),
{
        b.build(rng);
        let ghost e = b.map.idx(room_center(b.rooms@[b.rooms@.len() - 1]).0, room_center(b.rooms@[b.rooms@.len() - 1]).1);
        proof {
            let rs = b.rooms@;
            let last = rs[rs.len() - 1];
            assert(crate::bsp_interior::leaf_ok(last) && last.wf());
            crate::map::lemma_idx_in_range(MAPWIDTH as int, MAPHEIGHT as int, room_center(last).0, room_center(last).1);
            if rs.len() > 1 {
                assert(b.map.tiles@[b.map.idx(room_center(rs[0]).0, room_center(rs[0]).1)] == TileType::Floor);
            }
            assert(level_ok(b.map, b.starting_position, e));
        }
        let r = (b.map, b.starting_position);
        assert(level_ok(r.0, r.1, e));
        r
}

fn cellular_level(mut b: CellularAutomataBuilder, rng: &mut RandomNumberGenerator) -> (r: (GridMap, Position))
    ensures
        finished_level(r),
{
        b.build(rng);
        let ghost e = b.exit as int;
        proof {
            assert(level_ok(b.map, b.starting_position, e));
        }
        let r = (b.map, b.starting_position);
        assert(level_ok(r.0, r.1, e));
        r
}

fn drunkard_level(mut b: DrunkardsWalkBuilder, rng: &mut RandomNumberGenerator) -> (r: (GridMap, Position))
    ensures
        finished_level(r),
{
        b.build(rng);
        let ghost e = b.exit as int;
        proof {
            assert(level_ok(b.map, b.starting_position, e));
        }
        let r = (b.map, b.starting_position);
        assert(level_ok(r.0, r.1, e));
        r
}

fn dla_level(mut b: DLABuilder, rng: &mut RandomNumberGenerator) -> (r: (GridMap, Position))
    ensures
        finished_level(r),
{
        b.build(rng);
        let ghost e = b.exit as int;
        proof {
            assert(level_ok(b.map, b.starting_position, e));
        }
        let r = (b.map, b.starting_position);
        assert(level_ok(r.0, r.1, e));
        r
}

fn voronoi_level(mut b: VoronoiCellBuilder, rng: &mut RandomNumberGenerator) -> (r: (GridMap, Position))
    ensures
        finished_level(r),
{
        b.build(rng);
        let ghost e = b.exit as int;
        proof {
            assert(level_ok(b.map, b.starting_position, e));
        }
        let r = (b.map, b.starting_position);
        assert(level_ok(r.0, r.1, e));
        r
}

impl BaseBuilder {
    /// Builds the level and hands over its map and starting position.
    pub fn build_level(self, rng: &mut RandomNumberGenerator) -> (r: (GridMap, Position))
        ensures
            r.0.wf(),
            r.0.in_map(r.1.x as int, r.1.y as int),
            r.0.width == MAPWIDTH && r.0.height == MAPHEIGHT,
            exists|e: int| #[trigger] level_ok(r.0, r.1, e),
    {
        match self {
            BaseBuilder::Simple(b) => simple_level(b, rng),
            BaseBuilder::Bsp(b) => bsp_level(b, rng),
            BaseBuilder::Cellular(b) => cellular_level(b, rng),
            BaseBuilder::Drunkard(b) => drunkard_level(b, rng),
            BaseBuilder::Dla(b) => dla_level(b, rng),
            BaseBuilder::Voronoi(b) => voronoi_level(b, rng),
        }
    }
}

/// The level builder the game uses: a fort section laid over caves grown by
/// a cellular automaton.
pub fn random_builder(new_depth: i32) -> (r: PrefabBuilder)
    ensures
        r.depth == new_depth,
        r.previous_builder is Some,
{
    PrefabBuilder::new(new_depth, Some(Box::new(BaseBuilder::Cellular(CellularAutomataBuilder::new(new_depth)))))
}

} // verus!
