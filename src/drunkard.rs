use vstd::prelude::*;
use rltk::RandomNumberGenerator;
use crate::builder::{MapBuilder, level_ok, record_snapshot, stairs_farthest};
use crate::components::Position;
use crate::flood::{FloodMap, finish_with_stairs};
use crate::map::{GridMap, TileType, MAPWIDTH, MAPHEIGHT, count_kind, count_tiles};
use crate::random::roll_die;
use crate::spawn_regions::{generate_voronoi_spawn_regions, regions_ok};

verus! {

/// Most diggers a build sends out before it settles for what was dug.
pub const MAX_DIGGERS: usize = 20000;

/// Where each digger after the first starts.
#[derive(Clone, Copy, PartialEq, Eq, Structural, Debug)]
pub enum DrunkSpawnMode {
    Random,
    StartingPoint,
}

pub struct DrunkardSettings {
    /// Steps each digger takes.
    pub drunken_lifetime: i32,
    pub spawn_mode: DrunkSpawnMode,
}

/// The tiles hold no down stairs.
pub open spec fn no_stairs(t: Seq<TileType>) -> bool {
    forall|i: int| 0 <= i < t.len() ==> #[trigger] t[i] != TileType::DownStairs
}

/// Moves (x, y) one step in the direction a four-sided die showed (1 left,
/// 2 right, 3 up, else down), unless that would leave columns and rows
/// 2 to size - 2; an out-of-range start only moves inwards.
pub fn stagger(x: i32, y: i32, direction: i32, width: i32, height: i32) -> (r: (i32, i32))
    requires
        0 <= x < width <= 1024,
        0 <= y < height <= 1024,
    ensures
        r == (match direction {
            1 => if x > 2 { ((x - 1) as i32, y) } else { (x, y) },
            2 => if x < width - 2 { ((x + 1) as i32, y) } else { (x, y) },
            3 => if y > 2 { (x, (y - 1) as i32) } else { (x, y) },
            _ => if y < height - 2 { (x, (y + 1) as i32) } else { (x, y) },
        }),
        0 <= r.0 < width,
        0 <= r.1 < height,
{
    match direction {
        1 => if x > 2 { (x - 1, y) } else { (x, y) },
        2 => if x < width - 2 { (x + 1, y) } else { (x, y) },
        3 => if y > 2 { (x, y - 1) } else { (x, y) },
        _ => if y < height - 2 { (x, y + 1) } else { (x, y) },
    }
}

/// Cave dug out by diggers that stagger about at random.
pub struct DrunkardsWalkBuilder {
    pub map: GridMap,
    pub starting_position: Position,
    pub depth: i32,
    pub history: Vec<GridMap>,
    /// Whether each step's map is recorded in `history`, for playback.
    pub visualize: bool,
    pub noise_areas: Vec<Vec<usize>>,
    pub settings: DrunkardSettings,
    /// Index of the down stairs.
    pub exit: usize,
    /// The flood that placed the stairs.
    pub flood: FloodMap,
    /// The tiles when digging stopped, before unreachable ones were removed.
    pub dug_tiles: Vec<TileType>,
    /// Floor tiles when digging stopped, before unreachable ones were removed.
    pub floor_tiles_dug: usize,
    /// Diggers sent out, and how many of them turned a wall to floor.
    pub digger_count: usize,
    pub active_digger_count: usize,
}

impl DrunkardsWalkBuilder {
    pub fn new(new_depth: i32, settings: DrunkardSettings) -> (r: DrunkardsWalkBuilder)
        ensures
            r.depth == new_depth,
            r.map.fresh(new_depth),
            r.settings == settings,
    {
        DrunkardsWalkBuilder {
            map: GridMap::new(new_depth),
            starting_position: Position { x: 0, y: 0 },
            depth: new_depth,
            history: Vec::new(),
            visualize: false,
            noise_areas: Vec::new(),
            settings,
            exit: 0,
            flood: FloodMap { reached: Vec::new(), dist: Vec::new() },
            dug_tiles: Vec::new(),
            floor_tiles_dug: 0,
            digger_count: 0,
            active_digger_count: 0,
        }
    }

    /// Half the tiles of the map: digging goes on until this many are floor.
    pub open spec fn desired_floor(&self) -> int {
        (self.map.width * self.map.height) / 2
    }

    pub open spec fn built(&self) -> bool {
        &&& level_ok(self.map, self.starting_position, self.exit as int)
        &&& stairs_farthest(self.map, self.starting_position, self.exit as int, self.flood)
        &&& self.floor_tiles_dug == count_kind(self.dug_tiles@, TileType::Floor)
        &&& self.map.tiles@ == crate::flood::pruned(self.dug_tiles@, self.flood.reached@).update(
            self.exit as int,
            TileType::DownStairs,
        )
        &&& regions_ok(self.map, self.noise_areas@)
        &&& self.floor_tiles_dug >= self.desired_floor() || self.digger_count == MAX_DIGGERS
        &&& self.active_digger_count <= self.digger_count <= MAX_DIGGERS
    }

    /// Starts at the centre, sends diggers out until half the map is floor,
    /// then removes what cannot be reached and puts the stairs on the
    /// farthest tile.
    pub fn build(&mut self, rng: &mut RandomNumberGenerator)
        ensures
            final(self).built(),
            final(self).settings == old(self).settings,
            final(self).map.width == MAPWIDTH as i32,
            final(self).map.height == MAPHEIGHT as i32,
            final(self).starting_position == (Position { x: (MAPWIDTH / 2) as i32, y: (MAPHEIGHT / 2) as i32 }),
    {
        self.map = GridMap::new(self.depth);
        let w = self.map.width;
        let h = self.map.height;
        self.starting_position = Position { x: w / 2, y: h / 2 };
        let start_idx = self.map.xy_idx(w / 2, h / 2).unwrap();
        self.map.tiles.set(start_idx, TileType::Floor);
        let desired: usize = ((w * h) / 2) as usize;
        let mut floor_tile_count = count_tiles(&self.map.tiles, TileType::Floor);
        let mut digger_count: usize = 0;
        let mut active_digger_count: usize = 0;
        while floor_tile_count < desired && digger_count < MAX_DIGGERS
            invariant
                self.map.wf(),
                self.map.width == w,
                self.map.height == h,
                w == MAPWIDTH,
                h == MAPHEIGHT,
                start_idx == self.map.idx(w / 2, h / 2),
                start_idx < self.map.tiles@.len(),
                self.map.tiles@[start_idx as int] == TileType::Floor,
                no_stairs(self.map.tiles@),
                floor_tile_count == count_kind(self.map.tiles@, TileType::Floor),
                active_digger_count <= digger_count <= MAX_DIGGERS,
                self.settings == old(self).settings,
                self.starting_position.x == w / 2 && self.starting_position.y == h / 2,
            decreases MAX_DIGGERS - digger_count,
        {
            let mut did_something = false;
            let (mut x, mut y) = if self.settings.spawn_mode == DrunkSpawnMode::Random && digger_count > 0 {
                (roll_die(rng, w - 3) + 1, roll_die(rng, h - 3) + 1)
            } else {
                (w / 2, h / 2)
            };
            let mut life = self.settings.drunken_lifetime;
            while life > 0
                invariant
                    self.map.wf(),
                    self.map.width == w,
                    self.map.height == h,
                    w == MAPWIDTH,
                    h == MAPHEIGHT,
                    0 <= x < w,
                    0 <= y < h,
                    start_idx < self.map.tiles@.len(),
                    self.map.tiles@[start_idx as int] == TileType::Floor,
                    no_stairs(self.map.tiles@),
                    self.settings == old(self).settings,
                    self.starting_position.x == w / 2 && self.starting_position.y == h / 2,
                    start_idx == self.map.idx(w / 2, h / 2),
                decreases life,
            {
                let idx = self.map.xy_idx(x, y).unwrap();
                if self.map.tiles[idx] == TileType::Wall {
                    did_something = true;
                }
                self.map.tiles.set(idx, TileType::Floor);
                let direction = roll_die(rng, 4);
                let moved = stagger(x, y, direction, w, h);
                x = moved.0;
                y = moved.1;
                life = life - 1;
            }
            if did_something {
                record_snapshot(&self.map, &mut self.history, self.visualize);
                active_digger_count = active_digger_count + 1;
            }
            digger_count = digger_count + 1;
            floor_tile_count = count_tiles(&self.map.tiles, TileType::Floor);
        }
        self.floor_tiles_dug = floor_tile_count;
        self.digger_count = digger_count;
        self.active_digger_count = active_digger_count;
        record_snapshot(&self.map, &mut self.history, self.visualize);
        self.dug_tiles = crate::builder::revealed_copy(&self.map).tiles;
        let (exit, flood) = finish_with_stairs(&mut self.map, start_idx);
        self.exit = exit;
        self.flood = flood;
        record_snapshot(&self.map, &mut self.history, self.visualize);
        self.noise_areas = generate_voronoi_spawn_regions(&self.map, rng);
    }
}

impl MapBuilder for DrunkardsWalkBuilder {
    open spec fn finished(&self) -> bool {
        self.built()
    }

    open spec fn current_map(&self) -> GridMap {
        self.map
    }

    open spec fn snapshots(&self) -> Seq<GridMap> {
        self.history@
    }

    open spec fn visualizing(&self) -> bool {
        self.visualize
    }

    fn build_map(&mut self, rng: &mut RandomNumberGenerator) {
        self.build(rng);
    }

    fn get_map(&self) -> GridMap {
        self.map.clone()
    }

    fn get_starting_position(&self) -> Position {
        self.starting_position
    }

    fn get_snapshot_history(&self) -> Vec<GridMap> {
        self.history.clone()
    }

    fn get_spawn_list(&self) -> Vec<(usize, String)> {
        Vec::new()
    }

    fn take_snapshot(&mut self) {
        if self.map.is_well_formed() {
            record_snapshot(&self.map, &mut self.history, self.visualize);
        }
    }
}

} // verus!
