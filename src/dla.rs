use vstd::prelude::*;
use rltk::RandomNumberGenerator;
use crate::builder::{MapBuilder, level_ok, record_snapshot, stairs_farthest};
use crate::components::Position;
use crate::drunkard::{no_stairs, stagger};
use crate::flood::{FloodMap, finish_with_stairs};
use crate::line::line_points;
use crate::map::{GridMap, TileType, MAPCOUNT, MAPWIDTH, MAPHEIGHT, count_kind, count_tiles, in_bounds, idx_of};
use crate::paint::{DLASymmetry, paint, painted, painted_sym};
use crate::common::tiles_only_changed;
use crate::random::roll_die;
use crate::spawn_regions::{generate_voronoi_spawn_regions, regions_ok};

verus! {

/// Walkers a build sends out before it settles for what was grown.
pub const MAX_WALKERS: usize = 20000;

/// Steps one random walker may take.
pub const MAX_WALK_STEPS: usize = 100000;

#[derive(Clone, Copy, PartialEq, Eq, Structural, Debug)]
pub enum DLAAlgorithm {
    CentralAttractor,
    WalkInwards,
    WalkOutwards,
}

#[derive(Clone, Copy, PartialEq, Eq, Structural, Debug)]
pub struct DLASettings {
    pub algorithm: DLAAlgorithm,
    /// Side of the square brush; taken as 1 below 1.
    pub brush_size: i32,
    /// Share of the map, in percent (at most 100), to turn to floor.
    pub floor_percent: u32,
    pub symmetry: DLASymmetry,
}

/// The tile at (x, y) of `t` is a wall on a `w` by `h` map.
pub open spec fn wall_at(t: Seq<TileType>, w: int, h: int, p: (int, int)) -> bool {
    in_bounds(w, h, p.0, p.1) && t[idx_of(w, p.0, p.1)] == TileType::Wall
}

/// Where a walker heading down `path` stops: at the last point before the
/// first one that is not a wall (or lies off the map), or at the last but one
/// point when the whole path is wall.
pub open spec fn attractor_stop(t: Seq<TileType>, w: int, h: int, prev: (int, int), cur: (int, int), path: Seq<(i32, i32)>) -> (int, int)
    decreases path.len(),
{
    if !wall_at(t, w, h, cur) || path.len() == 0 {
        prev
    } else {
        attractor_stop(t, w, h, cur, (path[0].0 as int, path[0].1 as int), path.drop_first())
    }
}

/// Follows `path` from (x, y) while it runs through wall; the point where it
/// stops, as `attractor_stop` gives it.
pub fn walk_path_to_floor(map: &GridMap, x: i32, y: i32, path: &Vec<(i32, i32)>) -> (r: (i32, i32))
    requires
        map.wf(),
        map.in_map(x as int, y as int),
    ensures
        (r.0 as int, r.1 as int) == attractor_stop(
            map.tiles@,
            map.width as int,
            map.height as int,
            (x as int, y as int),
            (x as int, y as int),
            path@,
        ),
        map.in_map(r.0 as int, r.1 as int),
{
    let ghost t = map.tiles@;
    let ghost w = map.width as int;
    let ghost h = map.height as int;
    let mut prev: (i32, i32) = (x, y);
    let mut cur: (i32, i32) = (x, y);
    let mut k: usize = 0;
    assert(path@.subrange(0, path@.len() as int) =~= path@);
    loop
        invariant
            map.wf(),
            t == map.tiles@,
            w == map.width,
            h == map.height,
            k <= path@.len(),
            map.in_map(prev.0 as int, prev.1 as int),
            attractor_stop(t, w, h, (x as int, y as int), (x as int, y as int), path@) == attractor_stop(
                t,
                w,
                h,
                (prev.0 as int, prev.1 as int),
                (cur.0 as int, cur.1 as int),
                path@.subrange(k as int, path@.len() as int),
            ),
        decreases path@.len() - k,
    {
        let rest = Ghost(path@.subrange(k as int, path@.len() as int));
        match map.xy_idx(cur.0, cur.1) {
            None => {
                return prev;
            },
            Some(i) => {
                if map.tiles[i] != TileType::Wall {
                    return prev;
                }
            },
        }
        if k == path.len() {
            return prev;
        }
        proof {
            assert(rest@.drop_first() =~= path@.subrange(k as int + 1, path@.len() as int));
        }
        prev = cur;
        cur = path[k];
        k = k + 1;
    }
}

/// Sends one walker out and returns where it stopped, if it did within
/// its step budget: a walker from a random point stops before the first
/// floor it meets, one from the centre at the first wall it meets, one that
/// heads for the centre along a straight line before the first floor on it.
fn find_stop(map: &GridMap, algorithm: DLAAlgorithm, sx: i32, sy: i32, rng: &mut RandomNumberGenerator) -> (r: Option<(i32, i32)>)
    requires
        map.wf(),
        map.width == MAPWIDTH,
        map.height == MAPHEIGHT,
        sx == MAPWIDTH / 2,
        sy == MAPHEIGHT / 2,
    ensures
        r.is_some() ==> map.in_map(r.unwrap().0 as int, r.unwrap().1 as int),
{
    let w = map.width;
    let h = map.height;
    let start_idx = map.xy_idx(sx, sy).unwrap();
    match algorithm {
        DLAAlgorithm::WalkInwards => {
            let mut x = roll_die(rng, w - 3) + 1;
            let mut y = roll_die(rng, h - 3) + 1;
            let mut prev_x = x;
            let mut prev_y = y;
            let mut steps: usize = 0;
            let mut idx = map.xy_idx(x, y).unwrap();
            while map.tiles[idx] == TileType::Wall && steps < MAX_WALK_STEPS
                invariant
                    map.wf(),
                    map.width == w,
                    map.height == h,
                    w == MAPWIDTH,
                    h == MAPHEIGHT,
                    0 <= x < w && 0 <= y < h,
                    0 <= prev_x < w && 0 <= prev_y < h,
                    idx < map.tiles@.len(),
                decreases MAX_WALK_STEPS - steps,
            {
                prev_x = x;
                prev_y = y;
                let moved = stagger(x, y, roll_die(rng, 4), w, h);
                x = moved.0;
                y = moved.1;
                idx = map.xy_idx(x, y).unwrap();
                steps = steps + 1;
            }
            if map.tiles[idx] == TileType::Wall {
                None
            } else {
                Some((prev_x, prev_y))
            }
        },
        DLAAlgorithm::WalkOutwards => {
            let mut x = sx;
            let mut y = sy;
            let mut steps: usize = 0;
            let mut idx = start_idx;
            while map.tiles[idx] == TileType::Floor && steps < MAX_WALK_STEPS
                invariant
                    map.wf(),
                    map.width == w,
                    map.height == h,
                    w == MAPWIDTH,
                    h == MAPHEIGHT,
                    0 <= x < w && 0 <= y < h,
                    idx < map.tiles@.len(),
                decreases MAX_WALK_STEPS - steps,
            {
                let moved = stagger(x, y, roll_die(rng, 4), w, h);
                x = moved.0;
                y = moved.1;
                idx = map.xy_idx(x, y).unwrap();
                steps = steps + 1;
            }
            if map.tiles[idx] == TileType::Floor {
                None
            } else {
                Some((x, y))
            }
        },
        DLAAlgorithm::CentralAttractor => {
            let x = roll_die(rng, w - 3) + 1;
            let y = roll_die(rng, h - 3) + 1;
            let path = line_points(x, y, sx, sy);
            Some(walk_path_to_floor(&map, x, y, &path))
        },
    }
}

/// Paints where a walker stopped; painting only ever adds floor.
fn paint_stop(map: &mut GridMap, symmetry: DLASymmetry, brush: i32, x: i32, y: i32)
    requires
        old(map).wf(),
        1 <= brush,
        old(map).in_map(x as int, y as int),
    ensures
        final(map).wf(),
        final(map).same_shape(old(map)),
        forall|i: int|
            0 <= i < final(map).tiles@.len() ==> #[trigger] final(map).tiles@[i] == old(map).tiles@[i]
                || final(map).tiles@[i] == TileType::Floor,
{
    paint(map, symmetry, brush, x, y);
}

/// Caves grown by diffusion-limited aggregation around the centre.
pub struct DLABuilder {
    pub map: GridMap,
    pub starting_position: Position,
    pub depth: i32,
    pub history: Vec<GridMap>,
    /// Whether each step's map is recorded in `history`, for playback.
    pub visualize: bool,
    pub noise_areas: Vec<Vec<usize>>,
    pub settings: DLASettings,
    /// Index of the down stairs.
    pub exit: usize,
    /// The flood that placed the stairs.
    pub flood: FloodMap,
    /// The tiles when growth stopped, before unreachable ones were removed.
    pub grown_tiles: Vec<TileType>,
    /// Floor tiles when growth stopped, before unreachable ones were removed.
    pub floor_tiles_grown: usize,
    /// Walkers sent out.
    pub walkers: usize,
}

impl DLABuilder {
    pub fn new(new_depth: i32, settings: DLASettings) -> (r: DLABuilder)
        ensures
            r.depth == new_depth,
            r.map.fresh(new_depth),
            r.settings == settings,
    {
        DLABuilder {
            map: GridMap::new(new_depth),
            starting_position: Position { x: 0, y: 0 },
            depth: new_depth,
            history: Vec::new(),
            visualize: false,
            noise_areas: Vec::new(),
            settings,
            exit: 0,
            flood: FloodMap { reached: Vec::new(), dist: Vec::new() },
            grown_tiles: Vec::new(),
            floor_tiles_grown: 0,
            walkers: 0,
        }
    }

    pub fn central_attractor(new_depth: i32) -> (r: DLABuilder)
        ensures
            r.depth == new_depth,
            r.map.fresh(new_depth),
            r.settings == (DLASettings {
                algorithm: DLAAlgorithm::CentralAttractor,
                brush_size: 2,
                floor_percent: 25,
                symmetry: DLASymmetry::NoSymmetry,
            }),
    {
        Self::new(new_depth, DLASettings {
            algorithm: DLAAlgorithm::CentralAttractor,
            brush_size: 2,
            floor_percent: 25,
            symmetry: DLASymmetry::NoSymmetry,
        })
    }

    pub fn insectoid(new_depth: i32) -> (r: DLABuilder)
        ensures
            r.depth == new_depth,
            r.map.fresh(new_depth),
            r.settings == (DLASettings {
                algorithm: DLAAlgorithm::CentralAttractor,
                brush_size: 2,
                floor_percent: 25,
                symmetry: DLASymmetry::Horizontal,
            }),
    {
        Self::new(new_depth, DLASettings {
            algorithm: DLAAlgorithm::CentralAttractor,
            brush_size: 2,
            floor_percent: 25,
            symmetry: DLASymmetry::Horizontal,
        })
    }

    pub fn walk_inwards(new_depth: i32) -> (r: DLABuilder)
        ensures
            r.depth == new_depth,
            r.map.fresh(new_depth),
            r.settings == (DLASettings {
                algorithm: DLAAlgorithm::WalkInwards,
                brush_size: 1,
                floor_percent: 25,
                symmetry: DLASymmetry::NoSymmetry,
            }),
    {
        Self::new(new_depth, DLASettings {
            algorithm: DLAAlgorithm::WalkInwards,
            brush_size: 1,
            floor_percent: 25,
            symmetry: DLASymmetry::NoSymmetry,
        })
    }

    pub fn walk_outwards(new_depth: i32) -> (r: DLABuilder)
        ensures
            r.depth == new_depth,
            r.map.fresh(new_depth),
            r.settings == (DLASettings {
                algorithm: DLAAlgorithm::WalkOutwards,
                brush_size: 2,
                floor_percent: 25,
                symmetry: DLASymmetry::NoSymmetry,
            }),
    {
        Self::new(new_depth, DLASettings {
            algorithm: DLAAlgorithm::WalkOutwards,
            brush_size: 2,
            floor_percent: 25,
            symmetry: DLASymmetry::NoSymmetry,
        })
    }

    /// Stamps floor with this builder's brush centred on (x, y); what falls
    /// off the map, or on its two outermost rings for a wider brush, is left out.
    pub fn apply_paint(&mut self, x: i32, y: i32)
        requires
            old(self).map.wf(),
            old(self).settings.brush_size >= 1,
        ensures
            tiles_only_changed(&old(self).map, &final(self).map),
            final(self).settings == old(self).settings,
            final(self).starting_position == old(self).starting_position,
            final(self).depth == old(self).depth,
            final(self).history@ == old(self).history@,
            final(self).visualize == old(self).visualize,
            final(self).exit == old(self).exit,
            final(self).map.tiles@ == painted(
                old(self).map.tiles@,
                old(self).map.width as int,
                old(self).map.height as int,
                old(self).settings.brush_size as int,
                x as int,
                y as int,
            ),
            old(self).settings.brush_size == 1 && old(self).map.in_map(x as int, y as int) ==> {
                &&& final(self).map.tiles@[old(self).map.idx(x as int, y as int)] == TileType::Floor
                &&& forall|j: int|
                    0 <= j < final(self).map.tiles@.len() && j != old(self).map.idx(x as int, y as int)
                        ==> final(self).map.tiles@[j] == old(self).map.tiles@[j]
            },
    {
        crate::paint::apply_paint(&mut self.map, self.settings.brush_size, x, y);
    }

    /// Stamps floor at (x, y) and at the mirror images this builder's
    /// symmetry asks for, as `paint::paint` does.
    pub fn paint(&mut self, x: i32, y: i32)
        requires
            old(self).map.wf(),
            old(self).settings.brush_size >= 1,
            old(self).map.in_map(x as int, y as int),
        ensures
            tiles_only_changed(&old(self).map, &final(self).map),
            final(self).settings == old(self).settings,
            final(self).starting_position == old(self).starting_position,
            final(self).depth == old(self).depth,
            final(self).history@ == old(self).history@,
            final(self).visualize == old(self).visualize,
            final(self).exit == old(self).exit,
            final(self).map.tiles@ == painted_sym(
                old(self).map.tiles@,
                old(self).map.width as int,
                old(self).map.height as int,
                old(self).settings.symmetry,
                old(self).settings.brush_size as int,
                x as int,
                y as int,
            ),
            forall|i: int|
                0 <= i < final(self).map.tiles@.len() ==> #[trigger] final(self).map.tiles@[i] == old(self).map.tiles@[i]
                    || final(self).map.tiles@[i] == TileType::Floor,
            old(self).settings.brush_size == 1 ==> final(self).map.tiles@[old(self).map.idx(x as int, y as int)]
                == TileType::Floor,
            old(self).settings.brush_size == 1 && (old(self).settings.symmetry == DLASymmetry::Horizontal
                || old(self).settings.symmetry == DLASymmetry::Both) ==> final(self).map.tiles@[old(self).map.idx(
                old(self).map.width - 1 - x,
                y as int,
            )] == TileType::Floor,
            old(self).settings.brush_size == 1 && (old(self).settings.symmetry == DLASymmetry::Vertical
                || old(self).settings.symmetry == DLASymmetry::Both) ==> final(self).map.tiles@[old(self).map.idx(
                x as int,
                old(self).map.height - 1 - y,
            )] == TileType::Floor,
    {
        paint(&mut self.map, self.settings.symmetry, self.settings.brush_size, x, y);
    }

    /// Floor tiles growth aims for.
    pub open spec fn desired_floor(&self) -> int {
        let pct = if self.settings.floor_percent > 100 { 100 } else { self.settings.floor_percent as int };
        (self.map.width * self.map.height) * pct / 100
    }

    pub open spec fn built(&self) -> bool {
        &&& level_ok(self.map, self.starting_position, self.exit as int)
        &&& stairs_farthest(self.map, self.starting_position, self.exit as int, self.flood)
        &&& self.floor_tiles_grown == count_kind(self.grown_tiles@, TileType::Floor)
        &&& self.map.tiles@ == crate::flood::pruned(self.grown_tiles@, self.flood.reached@).update(
            self.exit as int,
            TileType::DownStairs,
        )
        &&& regions_ok(self.map, self.noise_areas@)
        &&& self.floor_tiles_grown >= self.desired_floor() || self.walkers == MAX_WALKERS
    }

    /// Seeds a small cross of floor at the centre, then sends walkers out
    /// until the wanted share of the map is floor, painting where each stops;
    /// then removes what cannot be reached and puts the stairs on the
    /// farthest tile.
    pub fn build(&mut self, rng: &mut RandomNumberGenerator)
        ensures
            final(self).built(),
            final(self).settings == old(self).settings,
            final(self).starting_position == (Position { x: (MAPWIDTH / 2) as i32, y: (MAPHEIGHT / 2) as i32 }),
            final(self).map.width == MAPWIDTH && final(self).map.height == MAPHEIGHT,
    {
        self.map = GridMap::new(self.depth);
        let w = self.map.width;
        let h = self.map.height;
        let brush: i32 = if self.settings.brush_size < 1 {
            1
        } else {
            self.settings.brush_size
        };
        let pct: usize = if self.settings.floor_percent > 100 { 100 } else { self.settings.floor_percent as usize };
        let sx = w / 2;
        let sy = h / 2;
        self.starting_position = Position { x: sx, y: sy };
        record_snapshot(&self.map, &mut self.history, self.visualize);
        let start_idx = self.map.xy_idx(sx, sy).unwrap();
        self.map.tiles.set(start_idx, TileType::Floor);
        self.map.tiles.set(start_idx - 1, TileType::Floor);
        self.map.tiles.set(start_idx + 1, TileType::Floor);
        self.map.tiles.set(start_idx - MAPWIDTH, TileType::Floor);
        self.map.tiles.set(start_idx + MAPWIDTH, TileType::Floor);
        let desired: usize = MAPCOUNT * pct / 100;
        let mut floor_tile_count = count_tiles(&self.map.tiles, TileType::Floor);
        let mut walkers: usize = 0;
        while floor_tile_count < desired && walkers < MAX_WALKERS
            invariant
                self.map.wf(),
                self.map.width == w,
                self.map.height == h,
                w == MAPWIDTH,
                h == MAPHEIGHT,
                1 <= brush,
                start_idx == self.map.idx(sx as int, sy as int),
                sx == w / 2,
                sy == h / 2,
                start_idx < self.map.tiles@.len(),
                self.map.tiles@[start_idx as int] == TileType::Floor,
                no_stairs(self.map.tiles@),
                floor_tile_count == count_kind(self.map.tiles@, TileType::Floor),
                walkers <= MAX_WALKERS,
                self.settings == old(self).settings,
                self.starting_position.x == sx && self.starting_position.y == sy,
            decreases MAX_WALKERS - walkers,
        {
            let stop = find_stop(&self.map, self.settings.algorithm, sx, sy, rng);
            if let Some((px, py)) = stop {
                paint_stop(&mut self.map, self.settings.symmetry, brush, px, py);
            }
            record_snapshot(&self.map, &mut self.history, self.visualize);
            walkers = walkers + 1;
            floor_tile_count = count_tiles(&self.map.tiles, TileType::Floor);
        }
        self.floor_tiles_grown = floor_tile_count;
        self.walkers = walkers;
        record_snapshot(&self.map, &mut self.history, self.visualize);
        self.grown_tiles = crate::builder::revealed_copy(&self.map).tiles;
        let (exit, flood) = finish_with_stairs(&mut self.map, start_idx);
        self.exit = exit;
        self.flood = flood;
        record_snapshot(&self.map, &mut self.history, self.visualize);
        self.noise_areas = generate_voronoi_spawn_regions(&self.map, rng);
    }
}

impl MapBuilder for DLABuilder {
    open spec fn finished(&self) -> bool {
        self.built()
    }

    open spec fn current_map(&self) -> GridMap {
        self.map
    }

    open spec fn snapshots(&self) -> Seq<GridMap> {
        self.history@
    }

    open spec fn visualizing(&self) -> bool {
        self.visualize
    }

    fn build_map(&mut self, rng: &mut RandomNumberGenerator) {
        self.build(rng);
    }

    fn get_map(&self) -> GridMap {
        self.map.clone()
    }

    fn get_starting_position(&self) -> Position {
        self.starting_position
    }

    fn get_snapshot_history(&self) -> Vec<GridMap> {
        self.history.clone()
    }

    fn get_spawn_list(&self) -> Vec<(usize, String)> {
        Vec::new()
    }

    fn take_snapshot(&mut self) {
        if self.map.is_well_formed() {
            record_snapshot(&self.map, &mut self.history, self.visualize);
        }
    }
}

} // verus!
